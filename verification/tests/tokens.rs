//! Semantic tokens and their encoding.

use zed_highlight::matching::compile_word_regex;
use zed_highlight::server::{compile_words, token_type_names};
use zed_highlight::tokens::{
    absolute_tokens, document_tokens, encode_tokens, AbsoluteToken, SemanticToken, NUM_COLORS,
};

fn absolute(line: u32, start: u32, length: u32, token_type: u32) -> AbsoluteToken {
    AbsoluteToken {
        line,
        start,
        length,
        token_type,
    }
}

fn relative(delta_line: u32, delta_start: u32, length: u32, token_type: u32) -> SemanticToken {
    SemanticToken {
        delta_line,
        delta_start,
        length,
        token_type,
        token_modifiers_bitset: 0,
    }
}

/// What a client does to read the tokens.
fn decode(tokens: &[SemanticToken]) -> Vec<AbsoluteToken> {
    let (mut line, mut start) = (0, 0);
    let mut raw = vec![];
    for t in tokens {
        line += t.delta_line;
        start = if t.delta_line == 0 {
            start + t.delta_start
        } else {
            t.delta_start
        };
        raw.push(absolute(line, start, t.length, t.token_type));
    }
    raw
}

#[test]
fn encoding_is_relative_to_the_token_before() {
    let raw = vec![
        absolute(1, 4, 3, 0),
        absolute(1, 4, 5, 1),
        absolute(1, 9, 1, 7),
        absolute(3, 2, 3, 2),
    ];
    let tokens = encode_tokens(&raw);
    assert_eq!(
        tokens,
        [
            relative(1, 4, 3, 0),
            relative(0, 0, 5, 1),
            relative(0, 5, 1, 7),
            relative(2, 2, 3, 2)
        ]
    );
    assert_eq!(decode(&tokens), raw);
    assert!(encode_tokens(&vec![]).is_empty());
}

#[test]
fn absolute_tokens_are_in_the_order_of_the_slots() {
    let regexes = vec![
        compile_word_regex("b", true, false),
        None,
        compile_word_regex("a", true, false),
    ];
    assert_eq!(
        absolute_tokens("a b\nb", &regexes),
        [
            absolute(0, 2, 1, 0),
            absolute(1, 0, 1, 0),
            absolute(0, 0, 1, 2)
        ]
    );
}

#[test]
fn document_tokens_are_sorted() {
    let words = vec![Some("b".to_owned()), Some(String::new()), None, Some("a".to_owned())];
    let regexes = compile_words(&words, true, false);
    assert_eq!(regexes.len(), 4);
    assert!(regexes[1].is_none());
    assert!(regexes[2].is_none());
    assert_eq!(
        document_tokens("a b\nb", &regexes),
        [
            relative(0, 0, 1, 3),
            relative(0, 2, 1, 0),
            relative(1, 0, 1, 0)
        ]
    );
}

#[test]
fn there_is_a_name_for_every_color() {
    assert_eq!(token_type_names().len(), NUM_COLORS);
}
