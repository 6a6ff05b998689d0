//! How the words of a text's characters and the words of its UTF-8 bytes
//! correspond.
//!
//! In UTF-8 the byte `0x20` stands for the space character and occurs in the
//! encoding of no other character. So a `&str` may be cut wherever a space
//! byte begins or ends, and the first word of the bytes is the encoding of
//! the first word of the characters.

use crate::word::{
    first_word_of, has_no_space, is_blank, lemma_first_word_exists, lemma_first_word_unique,
    word_end, word_start, SPACE,
};
use vstd::prelude::*;
use vstd::utf8::{
    char_is_scalar, encode_scalar, encode_utf8, encode_utf8_decode_utf8, is_char_boundary,
    is_char_boundary_iff_not_is_continuation_byte, is_char_boundary_start_end_of_seq,
    last_continuation_byte, leading_byte_width_1, leading_byte_width_2, leading_byte_width_3,
    leading_byte_width_4, pop_first_scalar, second_last_continuation_byte,
    third_last_continuation_byte, valid_utf8, valid_utf8_split,
};

verus! {

/// In valid UTF-8 a character begins wherever a space byte stands, behind
/// every space byte, and at both ends of the text.
pub proof fn lemma_boundary_at_space(bytes: Seq<u8>, index: int)
    requires
        valid_utf8(bytes),
        0 <= index <= bytes.len(),
        index == 0 || index == bytes.len() || bytes[index] == SPACE || bytes[index - 1] == SPACE,
    ensures
        is_char_boundary(bytes, index),
{
    is_char_boundary_start_end_of_seq(bytes);
    if 0 < index < bytes.len() {
        if bytes[index] != SPACE {
            // The space in front is a character of one byte, so the text
            // may be cut in front of it. What follows the space is valid
            // UTF-8 again, and so begins with a leading byte.
            is_char_boundary_iff_not_is_continuation_byte(bytes, index - 1);
            valid_utf8_split(bytes, index - 1);
            let from_space = bytes.subrange(index - 1, bytes.len() as int);
            assert(valid_utf8(pop_first_scalar(from_space)));
        }
        is_char_boundary_iff_not_is_continuation_byte(bytes, index);
    }
}

/// Two texts with the same UTF-8 bytes are the same text.
pub proof fn lemma_encode_injective(a: Seq<char>, b: Seq<char>)
    requires
        encode_utf8(a) == encode_utf8(b),
    ensures
        a == b,
{
    encode_utf8_decode_utf8(a);
    encode_utf8_decode_utf8(b);
}

/// The bytes of two texts joined are the bytes of the first and then those
/// of the second.
pub proof fn lemma_encode_concat(a: Seq<char>, b: Seq<char>)
    ensures
        encode_utf8(a + b) == encode_utf8(a) + encode_utf8(b),
    decreases a.len(),
{
    if a.len() > 0 {
        assert((a + b).drop_first() == a.drop_first() + b);
        lemma_encode_concat(a.drop_first(), b);
    }
}

/// Of the bytes that UTF-8 is made of, only the one-byte encoding of the
/// space is `0x20`: every byte of a longer encoding has its top bit set.
proof fn lemma_encoded_bytes(scalar: u32)
    by (bit_vector)
    ensures
        scalar <= 0x7f ==> (leading_byte_width_1(scalar) == 0x20 <==> scalar == 0x20),
        leading_byte_width_2(scalar) >= 0x80,
        leading_byte_width_3(scalar) >= 0x80,
        leading_byte_width_4(scalar) >= 0x80,
        last_continuation_byte(scalar) >= 0x80,
        second_last_continuation_byte(scalar) >= 0x80,
        third_last_continuation_byte(scalar) >= 0x80,
{
}

/// The space is encoded as the single byte `0x20`, and no byte of any other
/// character's encoding is `0x20`.
pub proof fn lemma_encode_char(c: char)
    ensures
        ({
            let bytes = encode_scalar(c as u32);
            &&& bytes.len() > 0
            &&& c == ' ' ==> bytes == seq![SPACE]
            &&& c != ' ' ==> has_no_space(bytes, SPACE)
        }),
{
    lemma_encoded_bytes(c as u32);
    char_is_scalar(c);
}

/// A text of spaces is encoded as that many space bytes.
pub proof fn lemma_encode_blank(chars: Seq<char>)
    requires
        is_blank(chars, ' '),
    ensures
        encode_utf8(chars).len() == chars.len(),
        is_blank(encode_utf8(chars), SPACE),
    decreases chars.len(),
{
    if chars.len() > 0 {
        lemma_encode_char(chars[0]);
        lemma_encode_blank(chars.drop_first());
    }
}

/// A text without a space is encoded without a space byte.
pub proof fn lemma_encode_no_space(chars: Seq<char>)
    requires
        has_no_space(chars, ' '),
    ensures
        chars.len() > 0 ==> encode_utf8(chars).len() > 0,
        has_no_space(encode_utf8(chars), SPACE),
    decreases chars.len(),
{
    if chars.len() > 0 {
        let head = encode_scalar(chars[0] as u32);
        let tail = encode_utf8(chars.drop_first());
        lemma_encode_char(chars[0]);
        lemma_encode_no_space(chars.drop_first());
        assert forall|i: int| 0 <= i < (head + tail).len() implies (head + tail)[i] != SPACE by {
            if i >= head.len() {
                assert((head + tail)[i] == tail[i - head.len()]);
            }
        }
    }
}

/// The first word of a text's UTF-8 bytes is the encoding of the first word
/// of its characters: to part words at the byte `0x20` is to part them at
/// the space character.
pub proof fn lemma_first_word_encoded(chars: Seq<char>)
    ensures
        first_word_of(encode_utf8(chars), SPACE) == encode_utf8(first_word_of(chars, ' ')),
        word_start(encode_utf8(chars), SPACE) == encode_utf8(
            chars.subrange(0, word_start(chars, ' ')),
        ).len(),
        word_end(encode_utf8(chars), SPACE) == encode_utf8(
            chars.subrange(0, word_end(chars, ' ')),
        ).len(),
{
    let bytes = encode_utf8(chars);
    let start = word_start(chars, ' ');
    let end = word_end(chars, ' ');
    lemma_first_word_exists(chars, ' ');
    if is_blank(chars, ' ') {
        // Spaces only, in characters and in bytes: the word is everything.
        lemma_encode_blank(chars);
        lemma_first_word_unique(bytes, SPACE, 0, bytes.len() as int);
        assert(chars.subrange(0, start) == Seq::<char>::empty());
        assert(chars.subrange(0, end) == chars);
        assert(first_word_of(bytes, SPACE) == bytes);
    } else {
        // The text is some spaces, the word, and a rest that is empty or
        // begins with a space. Its bytes are the bytes of the three.
        let spaces = chars.subrange(0, start);
        let word = chars.subrange(start, end);
        let rest = chars.subrange(end, chars.len() as int);
        assert(chars == spaces + word + rest);
        assert(chars.subrange(0, end) == spaces + word);
        lemma_encode_concat(spaces + word, rest);
        lemma_encode_concat(spaces, word);
        lemma_encode_blank(spaces);
        lemma_encode_no_space(word);
        let from = encode_utf8(spaces).len() as int;
        let to = from + encode_utf8(word).len();
        assert(bytes[from] == encode_utf8(word)[0]);
        assert forall|i: int| from <= i < to implies bytes[i] != SPACE by {
            assert(bytes[i] == encode_utf8(word)[i - from]);
        }
        if to < bytes.len() {
            lemma_encode_char(rest[0]);
            assert(bytes[to] == encode_utf8(rest)[0]);
        }
        // So the bytes of the word are the first word of the bytes.
        lemma_first_word_unique(bytes, SPACE, from, to);
        assert(bytes.subrange(from, to) == encode_utf8(word));
    }
}

} // verus!
