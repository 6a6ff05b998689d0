//! The first word of a text, as mathematics.
//!
//! A text is a sequence of items, one of which is the space. Its first word
//! is the first run of items that are not spaces; the spaces before it are
//! skipped, and it stops in front of the next space or where the text stops.
//! A text that holds no such run (it is empty, or spaces only) is its own
//! first word.
//!
//! The model is generic in the item, so that it speaks of the bytes of a text
//! and of its characters alike.

use vstd::prelude::*;

verus! {

/// The one byte that separates words: the ASCII space. Tabs, line feeds and
/// every other byte are part of a word.
pub const SPACE: u8 = 0x20;

/// True when `text` holds nothing but spaces. The empty text is blank.
pub open spec fn is_blank<T>(text: Seq<T>, space: T) -> bool {
    forall|i: int| 0 <= i < text.len() ==> text[i] == space
}

/// True when `text` holds no space at all. The empty text holds none.
pub open spec fn has_no_space<T>(text: Seq<T>, space: T) -> bool {
    forall|i: int| 0 <= i < text.len() ==> text[i] != space
}

/// True when `[start, end)` is the first word of `text`.
///
/// In a blank text the word is the whole text. In any other text it begins at
/// the first item that is not a space and runs up to the next space, or to
/// the end of the text where no space follows.
pub open spec fn is_first_word<T>(text: Seq<T>, space: T, start: int, end: int) -> bool {
    if is_blank(text, space) {
        start == 0 && end == text.len()
    } else {
        &&& 0 <= start < end <= text.len()
        &&& forall|i: int| 0 <= i < start ==> text[i] == space
        &&& forall|i: int| start <= i < end ==> text[i] != space
        &&& end < text.len() ==> text[end] == space
    }
}

/// The position of the first item at or after `from` that is not a space, or
/// `text.len()` where only spaces follow.
pub open spec fn skip_spaces<T>(text: Seq<T>, space: T, from: int) -> int
    decreases text.len() - from,
{
    if 0 <= from < text.len() && text[from] == space {
        skip_spaces(text, space, from + 1)
    } else {
        from
    }
}

/// The position of the first space at or after `from`, or `text.len()` where
/// no space follows.
pub open spec fn find_space<T>(text: Seq<T>, space: T, from: int) -> int
    decreases text.len() - from,
{
    if 0 <= from < text.len() && text[from] != space {
        find_space(text, space, from + 1)
    } else {
        from
    }
}

/// Where the first word of `text` begins.
pub open spec fn word_start<T>(text: Seq<T>, space: T) -> int {
    let first = skip_spaces(text, space, 0);
    if first < text.len() {
        first
    } else {
        0
    }
}

/// Where the first word of `text` ends (the position after its last item).
pub open spec fn word_end<T>(text: Seq<T>, space: T) -> int {
    let first = skip_spaces(text, space, 0);
    if first < text.len() {
        find_space(text, space, first)
    } else {
        text.len() as int
    }
}

/// The first word of `text`.
pub open spec fn first_word_of<T>(text: Seq<T>, space: T) -> Seq<T> {
    text.subrange(word_start(text, space), word_end(text, space))
}

/// `skip_spaces` passes over spaces only, and stops at an item that is none.
pub proof fn lemma_skip_spaces<T>(text: Seq<T>, space: T, from: int)
    requires
        0 <= from <= text.len(),
    ensures
        from <= skip_spaces(text, space, from) <= text.len(),
        forall|i: int| from <= i < skip_spaces(text, space, from) ==> text[i] == space,
        skip_spaces(text, space, from) < text.len() ==> text[skip_spaces(text, space, from)]
            != space,
    decreases text.len() - from,
{
    if from < text.len() && text[from] == space {
        lemma_skip_spaces(text, space, from + 1);
    }
}

/// `find_space` passes over items that are no spaces, and stops at a space.
pub proof fn lemma_find_space<T>(text: Seq<T>, space: T, from: int)
    requires
        0 <= from <= text.len(),
    ensures
        from <= find_space(text, space, from) <= text.len(),
        forall|i: int| from <= i < find_space(text, space, from) ==> text[i] != space,
        find_space(text, space, from) < text.len() ==> text[find_space(text, space, from)]
            == space,
    decreases text.len() - from,
{
    if from < text.len() && text[from] != space {
        lemma_find_space(text, space, from + 1);
    }
}

/// Every text has a first word: `word_start` and `word_end` bound it.
pub proof fn lemma_first_word_exists<T>(text: Seq<T>, space: T)
    ensures
        is_first_word(text, space, word_start(text, space), word_end(text, space)),
{
    let first = skip_spaces(text, space, 0);
    lemma_skip_spaces(text, space, 0);
    if first < text.len() {
        lemma_find_space(text, space, first);
    }
}

/// A text has one first word only: bounds that satisfy `is_first_word` are
/// those that `word_start` and `word_end` give.
pub proof fn lemma_first_word_unique<T>(text: Seq<T>, space: T, start: int, end: int)
    requires
        is_first_word(text, space, start, end),
    ensures
        start == word_start(text, space),
        end == word_end(text, space),
{
    let s = word_start(text, space);
    let e = word_end(text, space);
    lemma_first_word_exists(text, space);
    if !is_blank(text, space) {
        // Of two different starts, the earlier one would hold an item that
        // is no space and, lying in front of the other, a space.
        if start < s {
            assert(text[start] != space);
        } else if s < start {
            assert(text[s] != space);
        }
        // With the starts equal, the earlier of two different ends would
        // hold a space and, lying within the other word, none.
        if end < e {
            assert(text[end] == space);
        } else if e < end {
            assert(text[e] == space);
        }
    }
}

/// The first word lies within the text.
pub proof fn lemma_word_within_text<T>(text: Seq<T>, space: T)
    ensures
        0 <= word_start(text, space) <= word_end(text, space) <= text.len(),
        first_word_of(text, space).len() == word_end(text, space) - word_start(text, space),
        forall|i: int|
            0 <= i < first_word_of(text, space).len() ==> first_word_of(text, space)[i]
                == text[word_start(text, space) + i],
{
    lemma_first_word_exists(text, space);
}

/// The first word of the empty text is empty.
pub proof fn lemma_empty_text<T>(text: Seq<T>, space: T)
    requires
        text.len() == 0,
    ensures
        word_start(text, space) == 0,
        word_end(text, space) == 0,
        first_word_of(text, space) == Seq::<T>::empty(),
{
}

/// A blank text is its own first word. So the first word of a text of spaces
/// is empty only where the text itself is empty.
pub proof fn lemma_blank_text<T>(text: Seq<T>, space: T)
    requires
        is_blank(text, space),
    ensures
        word_start(text, space) == 0,
        word_end(text, space) == text.len(),
        first_word_of(text, space) == text,
        first_word_of(text, space).len() == 0 <==> text.len() == 0,
{
    lemma_first_word_exists(text, space);
}

/// Unless the text is blank, its first word is not empty and holds no space.
pub proof fn lemma_word_has_no_space<T>(text: Seq<T>, space: T)
    requires
        !is_blank(text, space),
    ensures
        first_word_of(text, space).len() > 0,
        has_no_space(first_word_of(text, space), space),
{
    lemma_first_word_exists(text, space);
}

/// A text without a space is its own first word.
pub proof fn lemma_no_space<T>(text: Seq<T>, space: T)
    requires
        has_no_space(text, space),
    ensures
        word_start(text, space) == 0,
        word_end(text, space) == text.len(),
        first_word_of(text, space) == text,
{
    if text.len() > 0 {
        lemma_first_word_unique(text, space, 0, text.len() as int);
    }
}

/// Taking the first word twice gives what taking it once gives.
pub proof fn lemma_first_word_idempotent<T>(text: Seq<T>, space: T)
    ensures
        first_word_of(first_word_of(text, space), space) == first_word_of(text, space),
{
    let word = first_word_of(text, space);
    if is_blank(text, space) {
        lemma_blank_text(text, space);
    } else {
        lemma_word_has_no_space(text, space);
        lemma_no_space(word, space);
    }
}

} // verus!
