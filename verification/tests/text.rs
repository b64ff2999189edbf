//! Strings, offsets and lines.

use zed_highlight::text::{lines, same_text, trim, utf16_len, utf16_to_byte};

// Test `utf16_len`.

#[test]
fn utf16_len_empty_string_is_zero() {
    assert_eq!(utf16_len(""), 0);
}

#[test]
fn utf16_len_ascii_counts_one_per_char() {
    assert_eq!(utf16_len("hello"), 5);
}

#[test]
fn utf16_len_bmp_multibyte_char_counts_one() {
    // '£' is U+00A3: 2 UTF-8 bytes, 1 UTF-16 code unit.
    assert_eq!(utf16_len("£"), 1);
    // '中' is U+4E2D: 3 UTF-8 bytes, 1 UTF-16 code unit.
    assert_eq!(utf16_len("中文"), 2);
}

#[test]
fn utf16_len_supplementary_char_counts_two() {
    // '😀' is U+1F600: 4 UTF-8 bytes, 2 UTF-16 code units (surrogate pair).
    assert_eq!(utf16_len("😀"), 2);
}

#[test]
fn utf16_len_mixed_content() {
    // "a😀b" = 1 + 2 + 1 = 4 UTF-16 code units.
    assert_eq!(utf16_len("a😀b"), 4);
}

// Test `utf16_to_byte`.

#[test]
fn utf16_to_byte_offset_zero_is_string_start() {
    assert_eq!(utf16_to_byte("hello", 0), Some(0));
}

#[test]
fn utf16_to_byte_ascii_offsets_equal_byte_offsets() {
    assert_eq!(utf16_to_byte("hello", 3), Some(3));
}

#[test]
fn utf16_to_byte_offset_at_end_of_string() {
    assert_eq!(utf16_to_byte("hello", 5), Some(5));
}

#[test]
fn utf16_to_byte_offset_past_end_returns_none() {
    assert_eq!(utf16_to_byte("hello", 6), None);
}

#[test]
fn utf16_to_byte_bmp_multibyte_char() {
    // "£a": '£' occupies 1 UTF-16 unit but 2 UTF-8 bytes.
    // UTF-16 offset 1 -> byte offset 2.
    assert_eq!(utf16_to_byte("£a", 1), Some(2));
    // UTF-16 offset 2 -> byte offset 3 (end of string).
    assert_eq!(utf16_to_byte("£a", 2), Some(3));
}

#[test]
fn utf16_to_byte_surrogate_pair() {
    // "😀a": '😀' occupies 2 UTF-16 units but 4 UTF-8 bytes.
    // UTF-16 offset 2 -> byte offset 4.
    assert_eq!(utf16_to_byte("😀a", 2), Some(4));
}

#[test]
fn utf16_to_byte_inside_surrogate_pair_is_none() {
    // "😀a": '😀' occupies 2 UTF-16 units but 4 UTF-8 bytes.
    // UTF-16 offset 1 -> lands inside the surrogate pair.
    assert_eq!(utf16_to_byte("😀a", 1), None);
}

#[test]
fn utf16_to_byte_empty_string_offset_zero() {
    assert_eq!(utf16_to_byte("", 0), Some(0));
}

#[test]
fn utf16_to_byte_empty_string_nonzero_is_none() {
    assert_eq!(utf16_to_byte("", 1), None);
}

// Test `utf16_len` with `utf16_to_byte`.

#[test]
fn utf16_offsets_lead_to_every_character() {
    let s = "a\u{a3}\u{1f600}b";
    let mut boundaries: Vec<usize> = s.char_indices().map(|(i, _)| i).collect();
    boundaries.push(s.len());
    for i in boundaries {
        assert_eq!(utf16_to_byte(s, utf16_len(&s[..i]) as usize), Some(i));
    }
}

// Test `lines`.

#[test]
fn lines_end_at_line_feeds() {
    assert_eq!(lines("a\n\nb"), ["a", "", "b"]);
    assert_eq!(lines("a\n"), ["a"]);
    assert_eq!(lines("\n"), [""]);
    assert!(lines("").is_empty());
}

#[test]
fn carriage_returns_belong_to_line_endings_only() {
    assert_eq!(lines("a\r\nb\r\n"), ["a", "b"]);
    assert_eq!(lines("a\rb\r"), ["a\rb\r"]);
    assert_eq!(lines("a\r\r\n\r\n"), ["a\r", ""]);
}

#[test]
fn lines_agree_with_std() {
    for s in ["", "\r", "\r\n", "x\r\ny\rz\n\n", "\u{1f600}\r\n\u{a3}\r", "\n\r"] {
        assert_eq!(lines(s), s.lines().collect::<Vec<_>>(), "{s:?}");
    }
}

// Test `trim`.

#[test]
fn trim_agrees_with_std() {
    for s in ["", " ", " \t", "a", " a ", "\u{3000}a b\u{a0}\n", "\u{1f600} ", "  x"] {
        assert_eq!(trim(s), s.trim(), "{s:?}");
    }
}

// Test `same_text`.

#[test]
fn same_text_compares_all_characters() {
    assert!(same_text("", ""));
    assert!(same_text("caf\u{e9}", "caf\u{e9}"));
    assert!(!same_text("caf\u{e9}", "cafe"));
    assert!(!same_text("foo", "fo"));
    assert!(!same_text("foo", "Foo"));
}

#[test]
fn white_space_is_trimmed_and_nothing_else() {
    let white = "\t\n\u{b}\u{c}\r \u{85}\u{a0}\u{1680}\u{2000}\u{2001}\u{2002}\u{2003}\u{2004}\u{2005}\u{2006}\u{2007}\
                 \u{2008}\u{2009}\u{200a}\u{2028}\u{2029}\u{202f}\u{205f}\u{3000}";
    assert_eq!(white.chars().count(), 25);
    for c in '\0'..=char::MAX {
        assert_eq!(trim(&c.to_string()).is_empty(), white.contains(c), "{c:?}");
    }
}
