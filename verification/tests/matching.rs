//! Finding words in a text.

use zed_highlight::matching::{any_line_matches, compile_word_regex, matches_anywhere, pattern_for};

// Test `compile_word_regex`.

#[test]
fn compile_word_regex_whole_word_and_ignore_case_both_disabled() {
    let mut re = compile_word_regex("for", false, false).unwrap();
    assert!(re.is_match("for"), "basic match must work");
    assert!(
        re.is_match("format"),
        "non-whole-word must match when whole-word disabled"
    );

    re = compile_word_regex("For", false, false).unwrap();
    assert!(
        re.is_match("For"),
        "case-sensitive match must work when ignore_case disabled"
    );
    assert!(
        !re.is_match("for"),
        "case-sensitive match must work when ignore_case disabled"
    );
    assert!(
        !re.is_match("FOR"),
        "case-sensitive match must work when ignore_case disabled"
    );
}

#[test]
fn compile_word_regex_case_insensitive_flag_enabled() {
    let re = compile_word_regex("Foo", false, true).unwrap();
    assert!(
        re.is_match("Foo"),
        "case-insensitive match must work when ignore_case enabled"
    );
    assert!(
        re.is_match("foo"),
        "case-insensitive match must work when ignore_case enabled"
    );
    assert!(
        re.is_match("FOO"),
        "case-insensitive match must work when ignore_case enabled"
    );
}

#[test]
fn compile_word_regex_whole_word_flag_enabled() {
    let re = compile_word_regex("for", true, false).unwrap();
    assert!(
        re.is_match("for x in y"),
        "whole-word 'for' must match standalone"
    );
    assert!(
        re.is_match("(for)"),
        "whole-word 'for' must match when surrounded by non-word chars"
    );
    assert!(
        !re.is_match("format"),
        "whole-word 'for' must not match inside 'format'"
    );
    assert!(
        !re.is_match("therefore"),
        "whole-word 'for' must not match inside 'therefore'"
    );
}

#[test]
fn compile_word_regex_whole_word_and_ignore_case_both_enabled() {
    let re = compile_word_regex("Foo", true, true).unwrap();
    assert!(
        re.is_match("foo"),
        "case-insensitive whole-word must match lowercase"
    );
    assert!(
        re.is_match("FOO"),
        "case-insensitive whole-word must match uppercase"
    );
    assert!(
        !re.is_match("foobar"),
        "whole-word must not match 'Foo' inside 'foobar'"
    );
    assert!(
        !re.is_match("FOOBAR"),
        "whole-word must not match 'FOO' inside 'FOOBAR'"
    );
}

#[test]
fn compile_word_regex_escapes_special_chars() {
    let mut re = compile_word_regex("foo.bar", false, false).unwrap();
    assert!(re.is_match("foo.bar"));
    assert!(
        !re.is_match("fooXbar"),
        "dot must match literally, not as any-char"
    );

    re = compile_word_regex("foo()", false, false).unwrap();
    assert!(re.is_match("foo()"));
    assert!(!re.is_match("foo"), "parentheses are not optional");

    re = compile_word_regex("a*b", false, false).unwrap();
    assert!(re.is_match("a*b"));
    assert!(!re.is_match("ab"), "star must be literal, not a quantifier");

    re = compile_word_regex("a+b", false, false).unwrap();
    assert!(re.is_match("a+b"));
    assert!(!re.is_match("ab"), "plus must be literal, not a quantifier");
    assert!(
        !re.is_match("aab"),
        "plus must be literal, not a quantifier"
    );

    re = compile_word_regex("a?b", false, false).unwrap();
    assert!(re.is_match("a?b"));
    assert!(
        !re.is_match("ab"),
        "question mark must be literal, not optional"
    );
    assert!(
        !re.is_match("b"),
        "question mark must be literal, not optional"
    );

    re = compile_word_regex("a|b", false, false).unwrap();
    assert!(re.is_match("a|b"));
    assert!(!re.is_match("a"), "pipe must be literal, not alternation");
    assert!(!re.is_match("b"), "pipe must be literal, not alternation");
}

// Test `matches_anywhere`.

#[test]
fn matches_anywhere_finds_word_in_content() {
    assert!(matches_anywhere("let foo = 1;", "foo", true, false));
}

#[test]
fn matches_anywhere_returns_false_for_absent_word() {
    assert!(!matches_anywhere("let foo = 1;", "bar", true, false));
}

#[test]
fn matches_anywhere_whole_word_rejects_substring() {
    assert!(!matches_anywhere("format!()", "for", true, false));
}

#[test]
fn matches_anywhere_non_whole_word_finds_substring() {
    assert!(matches_anywhere("format!()", "for", false, false));
}

#[test]
fn matches_anywhere_case_insensitive_finds_match() {
    assert!(matches_anywhere("let Foo = 1;", "foo", false, true));
}

#[test]
fn matches_anywhere_multiline_content_any_line() {
    let content = "line one\nfoo here\nline three";
    assert!(matches_anywhere(content, "foo", true, false));
}

#[test]
fn matches_anywhere_empty_content_returns_false() {
    assert!(!matches_anywhere("", "foo", true, false));
}

#[test]
fn matches_anywhere_word_not_on_this_line_returns_false() {
    assert!(!matches_anywhere(
        "line one\nline two",
        "three",
        true,
        false
    ));
}

#[test]
fn matches_anywhere_whole_word_and_ignore_case_both_enabled() {
    assert!(
        matches_anywhere("let Foo = 1;", "foo", true, true),
        "'Foo' should match 'foo' with whole_word and ignore_case both enabled"
    );
    assert!(
        !matches_anywhere("Format()", "for", true, true),
        "'for' should not match inside 'Format' even with ignore_case enabled when whole_word is enabled"
    );
}

// Further tests.

#[test]
fn patterns_escape_meta_characters() {
    assert_eq!(pattern_for("foo", false), "foo");
    assert_eq!(pattern_for("foo", true), "\\bfoo\\b");
    assert_eq!(
        pattern_for("\\.+*?()|[]{}^$#&-~%_ ", false),
        "\\\\\\.\\+\\*\\?\\(\\)\\|\\[\\]\\{\\}\\^\\$\\#\\&\\-\\~%_ "
    );
}

#[test]
fn any_line_matches_needs_a_regex() {
    assert!(!any_line_matches(&None, "foo"));
    let re = compile_word_regex("foo", true, false);
    assert!(re.is_some());
    assert!(any_line_matches(&re, "bar\nfoo"));
    assert!(!any_line_matches(&re, "bar\nfood"));
}

#[test]
fn words_match_within_a_line_only() {
    assert!(!matches_anywhere("foo\nbar", "foo\nbar", false, false));
    assert!(!matches_anywhere("foo\nbar", "o\nb", false, false));
}

#[test]
fn text_that_is_not_highlightable_never_matches_as_a_whole_word() {
    for text in [".", ".foo", "foo.", " foo", "\u{1f600}"] {
        for ignore_case in [false, true] {
            let content = format!("x{text}x {text}");
            assert!(!compile_word_regex(text, true, ignore_case).unwrap().is_match(&content));
            assert!(!matches_anywhere(&content, text, true, ignore_case));
            assert!(matches_anywhere(&format!("x{text}x"), text, false, ignore_case));
        }
    }
    // Only the first and the last character count.
    assert!(matches_anywhere("a.b", "a.b", true, false));
}

#[test]
fn no_match_spans_two_lines() {
    for (a, b) in [("foo", "bar"), ("", "foo"), ("foo\n", "x"), ("x", ""), ("fo", "o"), ("\nx", "foo\n")] {
        for whole_word in [false, true] {
            assert_eq!(
                matches_anywhere(&format!("{a}\n{b}"), "foo", whole_word, false),
                matches_anywhere(a, "foo", whole_word, false) || matches_anywhere(b, "foo", whole_word, false)
            );
        }
    }
    // A carriage return before the line feed belongs to the line ending.
    assert!(matches_anywhere("x\r", "x\r", false, false));
    assert!(!matches_anywhere("x\r\n", "x\r", false, false));
}

#[test]
fn an_empty_text_matches_in_every_line() {
    assert!(matches_anywhere(" ", "", false, false));
    assert!(!matches_anywhere("", "", false, false));
    assert!(matches_anywhere("a", "", true, false));
    assert!(!matches_anywhere(" ", "", true, false));
}

#[test]
fn a_text_whose_regex_is_too_large_matches_nowhere() {
    // Each character of the pattern stands for itself in both cases.
    let word = "a".repeat(500_000);
    assert!(compile_word_regex(&word, true, true).is_none());
    assert!(!matches_anywhere(&word, &word, true, true));
}

#[test]
fn a_short_word_has_a_regex() {
    // Characters of one to four bytes, with and without other cases.
    for c in ["a", "k", "\u{345}", "\u{10400}", ".", "\u{1f600}"] {
        let word = c.repeat(10_000);
        for ignore_case in [false, true] {
            assert!(compile_word_regex(&word, false, ignore_case).is_some());
            assert!(compile_word_regex(&word, true, ignore_case).is_some());
        }
    }
}

#[test]
fn looser_rules_match_at_least_as_much() {
    assert!(matches_anywhere("foo", "foo", true, false));
    assert!(matches_anywhere("foo", "foo", false, false));
    assert!(matches_anywhere("foo", "foo", true, true));
    assert!(!matches_anywhere("Foo", "foo", true, false));
    assert!(matches_anywhere("Foo", "foo", true, true));
    assert!(!matches_anywhere("food", "foo", true, false));
    assert!(matches_anywhere("food", "foo", false, false));
}
