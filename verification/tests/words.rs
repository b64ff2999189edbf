//! The word the user is acting on.

use zed_highlight::words::{is_highlightable, is_word_char, word_at, Position, Range};

fn make_range(sl: u32, sc: u32, el: u32, ec: u32) -> Range {
    Range {
        start: Position {
            line: sl,
            character: sc,
        },
        end: Position {
            line: el,
            character: ec,
        },
    }
}

fn cursor_range(line: u32, character: u32) -> Range {
    make_range(line, character, line, character)
}

// Test `is_word_char`.

#[test]
fn is_word_char_ascii_letters() {
    assert!(is_word_char('a'));
    assert!(is_word_char('z'));
    assert!(is_word_char('A'));
    assert!(is_word_char('Z'));
}

#[test]
fn is_word_char_digits() {
    assert!(is_word_char('0'));
    assert!(is_word_char('9'));
}

#[test]
fn is_word_char_underscore() {
    assert!(is_word_char('_'));
}

#[test]
fn is_word_char_space_is_false() {
    assert!(!is_word_char(' '));
    assert!(!is_word_char('\t'));
    assert!(!is_word_char('\n'));
}

#[test]
fn is_word_char_punctuation_is_false() {
    for c in [
        '.', ',', '!', '(', ')', '-', '+', '=', '*', '/', '\\', '"', '\'', ';', ':',
    ] {
        assert!(!is_word_char(c), "'{c}' should not be a word char");
    }
}

// Test `is_highlightable`.

#[test]
fn is_highlightable_empty_string_always_false() {
    assert!(!is_highlightable("", false));
    assert!(!is_highlightable("", true));
}

#[test]
fn is_highlightable_nonword_chars_in_whole_word_mode_false() {
    assert!(!is_highlightable(".", true));
    assert!(!is_highlightable("()", true));
}

#[test]
fn is_highlightable_any_nonempty_without_whole_word_mode_true() {
    assert!(is_highlightable("foo", false));
    assert!(is_highlightable("(bar)", false));
    assert!(is_highlightable("foo bar", false));
}

#[test]
fn is_highlightable_identifier_in_whole_word_mode_true() {
    assert!(is_highlightable("foo", true));
    assert!(is_highlightable("foo_bar", true));
    assert!(is_highlightable("foo123", true));
    assert!(is_highlightable("_private", true));
}

#[test]
fn is_highlightable_leading_nonword_char_in_whole_word_mode_false() {
    assert!(!is_highlightable("(foo", true));
    assert!(!is_highlightable(".foo", true));
    assert!(!is_highlightable(" foo", true));
}

#[test]
fn is_highlightable_trailing_nonword_char_in_whole_word_mode_false() {
    assert!(!is_highlightable("foo(", true));
    assert!(!is_highlightable("foo.", true));
    assert!(!is_highlightable("foo ", true));
}

#[test]
fn is_highlightable_middle_nonword_char_always_true() {
    assert!(is_highlightable("foo.bar", true));
    assert!(is_highlightable("foo.bar", false));
}

#[test]
fn is_highlightable_single_word_char_true() {
    assert!(is_highlightable("x", true));
    assert!(is_highlightable("_", true));
    assert!(is_highlightable("1", true));
}

#[test]
fn is_highlightable_any_nonempty_selection_without_whole_word_mode_true() {
    assert!(is_highlightable(" ", false));
    assert!(is_highlightable(".", false));
    assert!(is_highlightable("()", false));
    assert!(is_highlightable("foo bar", false));
}

// Test `word_at`.

#[test]
fn word_at_selection_returns_selected_text() {
    // "let foo = 1;" - select "foo" at UTF-16 chars 4..7.
    let range = make_range(0, 4, 0, 7);
    assert_eq!(word_at("let foo = 1;", range), Some("foo".to_owned()));
}

#[test]
fn word_at_selection_trims_surrounding_whitespace() {
    // "let foo = 1;" - select " foo " at chars 3..8.
    let range = make_range(0, 3, 0, 8);
    assert_eq!(word_at("let foo = 1;", range), Some("foo".to_owned()));
}

#[test]
fn word_at_selection_middle_nonword_char_is_fine() {
    // "let foo.bar = 1;" - select "foo.bar" at chars 4..11
    let range = make_range(0, 4, 0, 11);
    assert_eq!(
        word_at("let foo.bar = 1;", range),
        Some("foo.bar".to_owned())
    );
}

#[test]
fn word_at_cursor_in_middle_of_word() {
    // "hello world" - cursor on 'o' (char 4) -> word "hello".
    assert_eq!(
        word_at("hello world", cursor_range(0, 4)),
        Some("hello".to_owned())
    );
}

#[test]
fn word_at_cursor_at_start_of_word() {
    assert_eq!(
        word_at("hello world", cursor_range(0, 0)),
        Some("hello".to_owned())
    );
}

#[test]
fn word_at_cursor_just_past_word_end_is_none() {
    // char 5 in "hello world" is the space between the words.
    assert_eq!(word_at("hello world", cursor_range(0, 5)), None);
}

#[test]
fn word_at_cursor_on_punctuation_is_none() {
    // "foo(bar)" - char 3 is '('.
    assert_eq!(word_at("foo(bar)", cursor_range(0, 3)), None);
}

#[test]
fn word_at_cursor_on_word_with_underscores() {
    // "some_var = 1;" - cursor on 'v' (char 5).
    assert_eq!(
        word_at("some_var = 1;", cursor_range(0, 5)),
        Some("some_var".to_owned())
    );
}

#[test]
fn word_at_single_char_word() {
    // "a b" - cursor on 'a' (char 0) -> word "a".
    assert_eq!(word_at("a b", cursor_range(0, 0)), Some("a".to_owned()));
}

#[test]
fn word_at_end_of_string_no_trailing_space() {
    // "hello" with no trailing space - the right-scan must not overshoot the string end.
    assert_eq!(
        word_at("hello", cursor_range(0, 0)),
        Some("hello".to_owned())
    );
}

#[test]
fn word_at_cursor_on_second_line() {
    let content = "first\nsecond line";
    // line 1, char 0 -> 's' in "second".
    assert_eq!(
        word_at(content, cursor_range(1, 0)),
        Some("second".to_owned())
    );
}

#[test]
fn word_at_nonexistent_line_is_none() {
    assert_eq!(word_at("one line only", cursor_range(99, 0)), None);
}

#[test]
fn word_at_multiline_selection_uses_start_position_for_cursor_word() {
    // Multi-line selection falls through to case 2 using range.start.
    // Line 0 char 4 is 'f' in "foo".
    let content = "let foo = 1;\nbar baz";
    let range = make_range(0, 4, 1, 3);
    assert_eq!(word_at(content, range), Some("foo".to_owned()));
}

#[test]
fn word_at_selection_with_bmp_multibyte_chars() {
    // "中文 hello" - '中' and '文' are each 1 UTF-16 unit (3 UTF-8 bytes).
    // "hello" starts at UTF-16 offset 3, ends at offset 8.
    let range = make_range(0, 3, 0, 8);
    assert_eq!(word_at("中文 hello", range), Some("hello".to_owned()));
}

#[test]
fn word_at_cursor_after_surrogate_pair() {
    // "😀foo" - emoji is 2 UTF-16 units; 'f' starts at UTF-16 offset 2.
    assert_eq!(word_at("😀foo", cursor_range(0, 2)), Some("foo".to_owned()));
}

#[test]
fn word_at_empty_selection_text_after_trim_is_none() {
    // Selecting only whitespace (e.g., a space) should yield None.
    let range = make_range(0, 3, 0, 4); // the space in "foo bar"
    assert_eq!(word_at("foo bar", range), None);
}

#[test]
fn word_at_unicode_alphanumeric_char() {
    // "café": 'é' (U+00E9) is alphanumeric, so it's a word character. Cursor at UTF-16
    // offset 3 (on 'é') must return the full word "café".
    assert_eq!(word_at("café", cursor_range(0, 3)), Some("café".to_owned()));
}

// Further tests.

#[test]
fn word_at_every_position_of_a_word_is_the_same() {
    for character in 4..8 {
        assert_eq!(
            word_at("let na\u{ef}f = 1;", cursor_range(0, character)),
            Some("na\u{ef}f".to_owned())
        );
    }
}

#[test]
fn word_at_backward_selection_uses_the_start_position() {
    assert_eq!(
        word_at("foo bar", make_range(0, 5, 0, 0)),
        Some("bar".to_owned())
    );
}

#[test]
fn word_at_offset_outside_the_line_is_none() {
    assert_eq!(word_at("foo", cursor_range(0, 3)), None);
    assert_eq!(word_at("foo", cursor_range(0, 4)), None);
    assert_eq!(word_at("foo", make_range(0, 0, 0, 4)), None);
    assert_eq!(word_at("foo", make_range(0, 4, 0, 0)), None);
    // Inside a surrogate pair.
    assert_eq!(word_at("\u{1f600}foo", cursor_range(0, 1)), None);
}

#[test]
fn word_at_white_selection_before_a_word_falls_back_to_the_cursor() {
    // The selection starts on a word character only if it is not white.
    assert_eq!(word_at(" foo", make_range(0, 0, 0, 1)), None);
    assert_eq!(word_at("foo\r\nbar", make_range(1, 1, 2, 0)), Some("bar".to_owned()));
}

#[test]
fn white_space_is_never_a_word() {
    for c in '\0'..=char::MAX {
        assert!(!(c.is_whitespace() && is_word_char(c)), "{c:?}");
    }
    assert_eq!(word_at("a\u{3000}\u{a0}b", make_range(0, 1, 0, 3)), None);
    assert_eq!(word_at("a  b", make_range(0, 1, 0, 2)), None);
}
