//! The first word of a byte slice and of a string slice.
//!
//! Both routines make one pass from the front, keep no copy of the text, and
//! hand back a part of what they were given.

use crate::encoding::{
    lemma_boundary_at_space, lemma_encode_injective, lemma_first_word_encoded,
};
use crate::word::{
    first_word_of, has_no_space, is_blank, is_first_word, lemma_blank_text,
    lemma_first_word_exists, lemma_first_word_unique, lemma_no_space, lemma_word_within_text,
    word_end, word_start, SPACE,
};
use vstd::prelude::*;
use vstd::string::StringSliceAdditionalSpecFns;
use vstd::utf8::encode_utf8_valid_utf8;

verus! {

/// Finds the first word of `bytes`: the positions `(start, end)` such that
/// the word is `bytes[start..end]`.
///
/// Leading spaces are skipped. The word stops in front of the first space
/// behind it, or at the end of `bytes`. Where `bytes` is empty or holds
/// spaces only, the span is all of `bytes`.
///
/// The first three clauses say which span comes back. The others spell out
/// what that means for its bounds and for a text without a word boundary.
pub fn first_word_span(bytes: &[u8]) -> (span: (usize, usize))
    ensures
        span.0 == word_start(bytes@, SPACE),
        span.1 == word_end(bytes@, SPACE),
        is_first_word(bytes@, SPACE, span.0 as int, span.1 as int),
        span.0 <= span.1 <= bytes@.len(),
        bytes@.len() == 0 ==> span.0 == 0 && span.1 == 0,
        is_blank(bytes@, SPACE) ==> span.0 == 0 && span.1 == bytes@.len(),
        has_no_space(bytes@, SPACE) ==> span.0 == 0 && span.1 == bytes@.len(),
{
    let len: usize = bytes.len();
    // Skip the spaces in front.
    let mut start: usize = 0;
    while start < len && bytes[start] == SPACE
        invariant
            len == bytes@.len(),
            start <= len,
            forall|i: int| 0 <= i < start ==> bytes@[i] == SPACE,
        decreases len - start,
    {
        start += 1;
    }
    if start == len {
        // No word to be found: the whole of `bytes` is handed back.
        proof {
            lemma_first_word_unique(bytes@, SPACE, 0, len as int);
        }
        return (0, len);
    }
    // `bytes[start]` begins the word. Look for the space that ends it.
    let mut end: usize = start + 1;
    while end < len && bytes[end] != SPACE
        invariant
            len == bytes@.len(),
            start < end <= len,
            forall|i: int| start <= i < end ==> bytes@[i] != SPACE,
        decreases len - end,
    {
        end += 1;
    }
    proof {
        lemma_first_word_unique(bytes@, SPACE, start as int, end as int);
        if has_no_space(bytes@, SPACE) {
            lemma_no_space(bytes@, SPACE);
        }
    }
    (start, end)
}

/// The first word of `string`, as a part of `string`.
///
/// Words are parted by the space character U+0020 only, which is the byte
/// `0x20` of the UTF-8 text. Leading spaces are skipped; the word stops in
/// front of the next space or at the end of `string`. An empty string, or
/// one of spaces only, comes back whole.
///
/// The first two clauses say which word comes back, in characters and in
/// bytes. The others spell out that it is a part of `string`, and what it is
/// for a string without a word boundary.
pub fn first_word(string: &str) -> (word: &str)
    ensures
        word@ == first_word_of(string@, ' '),
        word.spec_bytes() == first_word_of(string.spec_bytes(), SPACE),
        is_first_word(string@, ' ', word_start(string@, ' '), word_end(string@, ' ')),
        0 <= word_start(string@, ' ') <= word_end(string@, ' ') <= string@.len(),
        word@ == string@.subrange(word_start(string@, ' '), word_end(string@, ' ')),
        string@.len() == 0 ==> word@.len() == 0,
        is_blank(string@, ' ') ==> word@ == string@,
        has_no_space(string@, ' ') ==> word@ == string@,
{
    let (start, end): (usize, usize) = first_word_span(string.as_bytes());
    // Each end of the word stands at a space or at an end of the string, so
    // no character is cut in two.
    proof {
        encode_utf8_valid_utf8(string@);
        lemma_boundary_at_space(string.spec_bytes(), end as int);
    }
    let (head, _) = string.split_at(end);
    proof {
        encode_utf8_valid_utf8(head@);
        lemma_boundary_at_space(head.spec_bytes(), start as int);
    }
    let (_, word) = head.split_at(start);
    proof {
        // The bytes of `word` are the first word of the bytes, which is the
        // first word of the characters, encoded.
        assert(word.spec_bytes() == first_word_of(string.spec_bytes(), SPACE));
        lemma_first_word_encoded(string@);
        lemma_encode_injective(word@, first_word_of(string@, ' '));
        lemma_word_within_text(string@, ' ');
        lemma_first_word_exists(string@, ' ');
        if is_blank(string@, ' ') {
            lemma_blank_text(string@, ' ');
        }
        if has_no_space(string@, ' ') {
            lemma_no_space(string@, ' ');
        }
    }
    word
}

} // verus!
