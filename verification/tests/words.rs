use ownership::{first_word, first_word_span, SPACE};

#[test]
fn word_before_a_space() {
    assert_eq!(first_word("hello world."), "hello");
}

#[test]
fn leading_spaces_are_skipped() {
    assert_eq!(first_word("  hello world."), "hello");
}

#[test]
fn empty_string_gives_empty_word() {
    assert_eq!(first_word(""), "");
}

#[test]
fn spaces_only_come_back_whole() {
    assert_eq!(first_word("   "), "   ");
    assert_eq!(first_word(" "), " ");
}

#[test]
fn single_word_is_the_whole_string() {
    assert_eq!(first_word("oneword"), "oneword");
}

#[test]
fn one_letter_words() {
    assert_eq!(first_word("a b"), "a");
}

#[test]
fn word_runs_to_the_end_behind_leading_spaces() {
    assert_eq!(first_word("  hello"), "hello");
    assert_eq!(first_word(" x"), "x");
}

#[test]
fn trailing_space_is_cut_off() {
    assert_eq!(first_word("hello "), "hello");
    assert_eq!(first_word("  hello   "), "hello");
}

#[test]
fn only_the_first_word_is_taken() {
    assert_eq!(first_word("one two three"), "one");
    assert_eq!(first_word("   some string literal"), "some");
}

#[test]
fn tabs_and_line_breaks_are_no_spaces() {
    assert_eq!(first_word("a\tb c"), "a\tb");
    assert_eq!(first_word("a\nb"), "a\nb");
    assert_eq!(first_word("\thello world"), "\thello");
    assert_eq!(first_word("\r\n x"), "\r\n");
    assert_eq!(first_word("\u{a0}x y"), "\u{a0}x");
    assert_eq!(first_word("\u{3000} y"), "\u{3000}");
}

#[test]
fn characters_of_several_bytes() {
    assert_eq!(first_word("h\u{e9}llo w\u{f6}rld"), "h\u{e9}llo");
    assert_eq!(first_word("  \u{65e5}\u{672c}\u{8a9e} text"), "\u{65e5}\u{672c}\u{8a9e}");
    assert_eq!(first_word(" \u{1f600}"), "\u{1f600}");
    assert_eq!(first_word("\u{1f600} \u{1f600}"), "\u{1f600}");
    assert_eq!(first_word("x\u{7ff} \u{800}"), "x\u{7ff}");
}

#[test]
fn word_of_an_owned_string() {
    let s = String::from("  hello world.");
    assert_eq!(first_word(&s[..]), "hello");
    assert_eq!(first_word(&s), "hello");
    assert_eq!(first_word(&s[8..]), "world.");
}

#[test]
fn first_word_twice_is_first_word_once() {
    let texts = [
        "",
        " ",
        "   ",
        "a",
        "a b",
        " a",
        "a ",
        "  hello world.",
        "hello world.",
        "oneword",
        "a\tb c",
        "  \u{65e5}\u{672c} x",
    ];
    for text in texts {
        let once = first_word(text);
        assert_eq!(first_word(once), once);
    }
}

#[test]
fn word_without_space_unless_text_is_blank() {
    let texts = ["a", "a b", " a", "a ", "  hello world.", "x  y", "\t \n"];
    for text in texts {
        let word = first_word(text);
        assert!(!word.is_empty());
        assert!(!word.contains(' '));
    }
}

#[test]
fn text_without_space_is_its_own_word() {
    let texts = ["", "a", "oneword", "a\tb\nc", "\u{1f600}\u{e9}"];
    for text in texts {
        assert_eq!(first_word(text), text);
    }
}

#[test]
fn word_is_the_span_of_the_bytes() {
    let texts = [
        "",
        "   ",
        "a b",
        "  hello world.",
        "  hello",
        "hello ",
        " h\u{e9}llo w\u{f6}rld",
    ];
    for text in texts {
        let (start, end) = first_word_span(text.as_bytes());
        assert!(start <= end && end <= text.len());
        assert_eq!(&text[start..end], first_word(text));
    }
}

#[test]
fn word_lies_inside_the_string() {
    let s = String::from("  hello world.");
    let word = first_word(&s);
    assert_eq!(word.as_ptr(), s[2..].as_ptr());
    assert!(s.as_bytes().as_ptr_range().contains(&word.as_ptr()));
    let text = "oneword";
    assert_eq!(first_word(text).as_ptr(), text.as_ptr());
}

#[test]
fn span_of_a_word_before_a_space() {
    assert_eq!(first_word_span(b"hello world."), (0, 5));
}

#[test]
fn span_behind_leading_spaces() {
    assert_eq!(first_word_span(b"  hello world."), (2, 7));
    assert_eq!(first_word_span(b"  hello"), (2, 7));
    assert_eq!(first_word_span(b" x"), (1, 2));
}

#[test]
fn span_of_empty_bytes() {
    assert_eq!(first_word_span(b""), (0, 0));
}

#[test]
fn span_of_spaces_only_is_everything() {
    assert_eq!(first_word_span(b" "), (0, 1));
    assert_eq!(first_word_span(b"   "), (0, 3));
}

#[test]
fn span_of_a_single_word() {
    assert_eq!(first_word_span(b"oneword"), (0, 7));
    assert_eq!(first_word_span(b"a"), (0, 1));
}

#[test]
fn span_of_one_letter_words() {
    assert_eq!(first_word_span(b"a b"), (0, 1));
}

#[test]
fn span_takes_any_bytes() {
    assert_eq!(first_word_span(&[0xff, 0x00, 0x20, 0x80]), (0, 2));
    assert_eq!(first_word_span(&[0x20, 0x09, 0x0a, 0x0d]), (1, 4));
    assert_eq!(first_word_span(&[0x20, 0x20, 0xa0, 0x20, 0x41]), (2, 3));
}

#[test]
fn space_is_the_ascii_space() {
    assert_eq!(SPACE, b' ');
    assert_eq!(SPACE, 32);
}
