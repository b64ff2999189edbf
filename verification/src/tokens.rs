//! Semantic tokens: where the highlighted words stand in a document, and the delta
//! encoding in which the editor receives it.

use std::cmp::Ordering;

use regex::Regex;
use vstd::multiset::Multiset;
use vstd::prelude::*;
use vstd::utf8::*;

use crate::matching;
use crate::matching::find_all;
use crate::text;
use crate::text::{lines, split_before, utf16_len};
use crate::words;

verus! {

broadcast use vstd::seq::group_seq_axioms;

/// How many distinct highlight colors to cycle through.
pub const NUM_COLORS: usize = 8;

/// A highlighted stretch of text at its place in the document. Offset and length
/// are in UTF-16 code units.
#[derive(Clone, Copy, Debug, PartialEq, Eq, Structural)]
pub struct AbsoluteToken {
    pub line: u32,
    pub start: u32,
    pub length: u32,
    pub token_type: u32,
}

/// A token as the editor receives it: its place is relative to the token before it.
#[derive(Clone, Copy, Debug, PartialEq, Eq, Structural)]
pub struct SemanticToken {
    pub delta_line: u32,
    pub delta_start: u32,
    pub length: u32,
    pub token_type: u32,
    pub token_modifiers_bitset: u32,
}

/// The token type of the word in the given slot. Types wrap around if more than
/// [`NUM_COLORS`] words are highlighted simultaneously.
pub open spec fn slot_color(slot: int) -> u32 {
    (slot % NUM_COLORS as int) as u32
}

/// The token for `len` characters from index `i` of line number `l` on.
pub open spec fn token_at(
    line: Seq<char>,
    l: int,
    i: int,
    len: int,
    token_type: u32,
) -> AbsoluteToken {
    AbsoluteToken {
        line: l as u32,
        start: text::wrapped_count(line.take(i)),
        length: text::wrapped_count(line.subrange(i, i + len)),
        token_type,
    }
}

/// The tokens for matches of `len` characters that start at the given indices of
/// line number `l`.
pub open spec fn tokens_at(
    line: Seq<char>,
    l: int,
    starts: Seq<int>,
    len: int,
    token_type: u32,
) -> Seq<AbsoluteToken> {
    starts.map_values(|i: int| token_at(line, l, i, len, token_type))
}

/// The tokens for a word in the first `n` lines.
pub open spec fn word_tokens(
    word: Seq<char>,
    whole_word: bool,
    ignore_case: bool,
    lines: Seq<Seq<char>>,
    n: int,
    token_type: u32,
) -> Seq<AbsoluteToken>
    decreases n,
{
    if n <= 0 {
        seq![]
    } else {
        word_tokens(word, whole_word, ignore_case, lines, n - 1, token_type) + tokens_at(
            lines[n - 1],
            n - 1,
            matching::word_matches(word, whole_word, ignore_case, lines[n - 1]),
            word.len() as int,
            token_type,
        )
    }
}

/// Whether the word in slot `k` is looked for: the slot holds a word that is not
/// empty and has a regex.
pub open spec fn is_active(words: Seq<Option<Seq<char>>>, compiled: Seq<bool>, k: int) -> bool {
    words[k] matches Some(word) && word.len() > 0 && compiled[k]
}

/// The tokens for the words in the first `n` slots, in the order of the slots.
pub open spec fn all_tokens(
    words: Seq<Option<Seq<char>>>,
    compiled: Seq<bool>,
    whole_word: bool,
    ignore_case: bool,
    lines: Seq<Seq<char>>,
    n: int,
) -> Seq<AbsoluteToken>
    decreases n,
{
    if n <= 0 {
        seq![]
    } else if is_active(words, compiled, n - 1) {
        all_tokens(words, compiled, whole_word, ignore_case, lines, n - 1) + word_tokens(
            words[n - 1]->0,
            whole_word,
            ignore_case,
            lines,
            lines.len() as int,
            slot_color(n - 1),
        )
    } else {
        all_tokens(words, compiled, whole_word, ignore_case, lines, n - 1)
    }
}

/// The regex in each slot, where there is one, was built for the word in that slot.
pub open spec fn regexes_of(
    words: Seq<Option<Seq<char>>>,
    whole_word: bool,
    ignore_case: bool,
    regexes: Seq<Option<Regex>>,
) -> bool {
    &&& words.len() == regexes.len()
    &&& forall|k: int|
        0 <= k < regexes.len() ==> (#[trigger] regexes[k] matches Some(re) ==> {
            &&& words[k] matches Some(word)
            &&& word.len() > 0
            &&& matching::is_regex_of(re, word, whole_word, ignore_case)
        })
}

/// The regexes were built, slot by slot, for some words under the same matching rules.
pub open spec fn are_word_regexes(regexes: Seq<Option<Regex>>) -> bool {
    exists|words: Seq<Option<Seq<char>>>, whole_word: bool, ignore_case: bool| #[trigger]
        regexes_of(words, whole_word, ignore_case, regexes)
}

proof fn lemma_word_regexes(regexes: Seq<Option<Regex>>, k: int)
    requires
        are_word_regexes(regexes),
        0 <= k < regexes.len(),
        regexes[k] is Some,
    ensures
        matching::is_word_regex(regexes[k]->0),
{
    let (words, whole_word, ignore_case) = choose|
        words: Seq<Option<Seq<char>>>,
        whole_word: bool,
        ignore_case: bool,
    | #[trigger]
        regexes_of(words, whole_word, ignore_case, regexes);
    assert(matching::regex_pattern(regexes[k]->0) == matching::word_pattern(
        words[k]->0,
        whole_word,
    ));
}

/// Which slots have a regex.
pub open spec fn compiled_slots(regexes: Seq<Option<Regex>>) -> Seq<bool> {
    regexes.map_values(|r: Option<Regex>| r is Some)
}

/// A slot has a regex only if its word may match, and has one if the word is short and
/// not empty.
pub open spec fn compiled_as_owed(
    words: Seq<Option<Seq<char>>>,
    whole_word: bool,
    compiled: Seq<bool>,
) -> bool {
    forall|k: int|
        0 <= k < words.len() ==> (#[trigger] words[k] matches Some(word) ==> {
            &&& compiled[k] ==> matching::may_match(word, whole_word)
            &&& word.len() > 0 && matching::is_short(word) && matching::may_match(word, whole_word)
                ==> compiled[k]
        })
}

/// The strings have the given texts, line by line.
pub open spec fn are_texts(lines: Seq<&str>, texts: Seq<Seq<char>>) -> bool {
    &&& lines.len() == texts.len()
    &&& forall|l: int| 0 <= l < lines.len() ==> (#[trigger] lines[l])@ == texts[l]
}

/// Appends the tokens for the matches of a word in a line.
fn push_line_tokens(
    raw: &mut Vec<AbsoluteToken>,
    line: &str,
    row: usize,
    spans: &Vec<(usize, usize)>,
    token_type: u32,
    Ghost(starts): Ghost<Seq<int>>,
    Ghost(len): Ghost<int>,
)
    requires
        len >= 0,
        forall|k: int|
            0 <= k < starts.len() ==> 0 <= #[trigger] starts[k] && starts[k] + len <= line@.len(),
        spans@ == matching::byte_spans(line@, starts, len),
    ensures
        final(raw)@ == old(raw)@ + tokens_at(line@, row as int, starts, len, token_type),
{
    let bytes: usize = line.as_bytes().len();
    let ghost all = tokens_at(line@, row as int, starts, len, token_type);
    for k in 0..spans.len()
        invariant
            bytes == encode_utf8(line@).len(),
            len >= 0,
            forall|k: int|
                0 <= k < starts.len() ==> 0 <= #[trigger] starts[k] && starts[k] + len
                    <= line@.len(),
            spans@ == matching::byte_spans(line@, starts, len),
            all == tokens_at(line@, row as int, starts, len, token_type),
            raw@ == old(raw)@ + all.take(k as int),
    {
        let ghost i = starts[k as int];
        proof {
            text::lemma_byte_offset_monotone(line@, i, i + len);
        }
        // The LSP protocol requires UTF-16 character offsets, so we convert.
        let head = split_before(line, spans[k].1, Ghost(i + len)).0;
        proof {
            assert(head@.take(i) =~= line@.take(i));
            assert(head@.skip(i) =~= line@.subrange(i, i + len));
        }
        let (before, matched) = split_before(head, spans[k].0, Ghost(i));
        let token = AbsoluteToken {
            line: row as u32,
            start: utf16_len(before),
            length: utf16_len(matched),
            token_type,
        };
        raw.push(token);
        proof {
            assert(token == all[k as int]);
            assert(all.take(k as int + 1) =~= all.take(k as int).push(token));
            assert(raw@ =~= old(raw)@ + all.take(k as int + 1));
        }
    }
    assert(all.take(all.len() as int) =~= all);
}

/// Appends the tokens for a word in all lines of a document, given the regex for
/// the word.
fn push_word_tokens(
    raw: &mut Vec<AbsoluteToken>,
    all: &Vec<&str>,
    re: &Regex,
    token_type: u32,
)
    requires
        matching::is_word_regex(*re),
    ensures
        forall|word: Seq<char>, whole_word: bool, texts: Seq<Seq<char>>|
            word.len() > 0 && matching::regex_pattern(*re) == #[trigger] matching::word_pattern(
                word,
                whole_word,
            ) && #[trigger] are_texts(all@, texts) ==> final(raw)@ == old(raw)@ + word_tokens(
                word,
                whole_word,
                matching::regex_ignores_case(*re),
                texts,
                texts.len() as int,
                token_type,
            ),
{
    let ghost (word, whole_word) = choose|word: Seq<char>, whole_word: bool|
        word.len() > 0 && matching::regex_pattern(*re) == #[trigger] matching::word_pattern(
            word,
            whole_word,
        );
    let ghost ignore_case = matching::regex_ignores_case(*re);
    for l in 0..all.len()
        invariant
            matching::is_word_regex(*re),
            ignore_case == matching::regex_ignores_case(*re),
            word.len() > 0,
            matching::regex_pattern(*re) == matching::word_pattern(word, whole_word),
            forall|other: Seq<char>, whole: bool, texts: Seq<Seq<char>>|
                other.len() > 0 && matching::regex_pattern(*re) == #[trigger] matching::word_pattern(
                    other,
                    whole,
                ) && #[trigger] are_texts(all@, texts) ==> raw@ == old(raw)@ + word_tokens(
                    other,
                    whole,
                    ignore_case,
                    texts,
                    l as int,
                    token_type,
                ),
    {
        let spans = find_all(re, all[l]);
        let ghost line = all@[l as int]@;
        let ghost starts = matching::word_matches(word, whole_word, ignore_case, line);
        let ghost before = raw@;
        proof {
            assert forall|k: int| 0 <= k < starts.len() implies 0 <= #[trigger] starts[k]
                && starts[k] + word.len() <= line.len() by {
                matching::matches_are_occurrences(word, whole_word, ignore_case, line, k);
            }
        }
        push_line_tokens(
            raw,
            all[l],
            l,
            &spans,
            token_type,
            Ghost(starts),
            Ghost(word.len() as int),
        );
        proof {
            assert forall|other: Seq<char>, whole: bool, texts: Seq<Seq<char>>|
                other.len() > 0 && matching::regex_pattern(*re) == #[trigger] matching::word_pattern(
                    other,
                    whole,
                ) && #[trigger] are_texts(all@, texts) implies raw@ == old(raw)@ + word_tokens(
                other,
                whole,
                ignore_case,
                texts,
                l as int + 1,
                token_type,
            ) by {
                matching::word_pattern_is_injective(word, whole_word, other, whole);
                assert(texts[l as int] == line);
                assert(raw@ =~= old(raw)@ + word_tokens(
                    other,
                    whole,
                    ignore_case,
                    texts,
                    l as int + 1,
                    token_type,
                ));
            }
        }
    }
}

/// The tokens for all highlighted words of a document, given the regex for the word
/// in each slot. A slot without a regex gives no tokens.
pub fn absolute_tokens(content: &str, regexes: &Vec<Option<Regex>>) -> (r: Vec<AbsoluteToken>)
    requires
        are_word_regexes(regexes@),
    ensures
        forall|words: Seq<Option<Seq<char>>>, whole_word: bool, ignore_case: bool| #[trigger]
            regexes_of(words, whole_word, ignore_case, regexes@) ==> r@ == all_tokens(
                words,
                compiled_slots(regexes@),
                whole_word,
                ignore_case,
                text::text_lines(content@),
                words.len() as int,
            ),
{
    // Collect all matches as absolute (`line`, `start`, `length`, `token_type`) tokens.
    let mut raw: Vec<AbsoluteToken> = Vec::new();
    let all = lines(content);
    let ghost texts = text::text_lines(content@);
    let ghost compiled = compiled_slots(regexes@);
    for k in 0..regexes.len()
        invariant
            are_texts(all@, texts),
            compiled == compiled_slots(regexes@),
            are_word_regexes(regexes@),
            forall|words: Seq<Option<Seq<char>>>, whole_word: bool, ignore_case: bool| #[trigger]
                regexes_of(words, whole_word, ignore_case, regexes@) ==> raw@ == all_tokens(
                    words,
                    compiled,
                    whole_word,
                    ignore_case,
                    texts,
                    k as int,
                ),
    {
        let ghost slot = regexes@[k as int];
        assert(compiled[k as int] == (slot is Some));
        if let Some(re) = &regexes[k] {
            assert(slot == Some(*re));
            proof {
                lemma_word_regexes(regexes@, k as int);
            }
            // Color index wraps around if more than `NUM_COLORS` words are highlighted simultaneously.
            push_word_tokens(&mut raw, &all, re, (k % NUM_COLORS) as u32);
        }
    }
    raw
}

/// `a` starts before `b`, or where it starts.
pub open spec fn position_le(a: AbsoluteToken, b: AbsoluteToken) -> bool {
    a.line < b.line || (a.line == b.line && a.start <= b.start)
}

/// The tokens are in the order of the document.
pub open spec fn in_document_order(raw: Seq<AbsoluteToken>) -> bool {
    forall|i: int, j: int| 0 <= i <= j < raw.len() ==> position_le(raw[i], raw[j])
}

/// Compares two tokens by (`line`, `start`).
fn compare_positions(a: &AbsoluteToken, b: &AbsoluteToken) -> (r: Ordering)
    ensures
        match r {
            Ordering::Less => !position_le(*b, *a),
            Ordering::Equal => position_le(*a, *b) && position_le(*b, *a),
            Ordering::Greater => !position_le(*a, *b),
        },
{
    if a.line < b.line {
        Ordering::Less
    } else if a.line > b.line {
        Ordering::Greater
    } else if a.start < b.start {
        Ordering::Less
    } else if a.start > b.start {
        Ordering::Greater
    } else {
        Ordering::Equal
    }
}

/// Sorts tokens with [`slice::sort_unstable_by`] by their positions. The order of
/// tokens at the same position is left open.
#[verifier::external_body]
fn sort_by_position(raw: &mut Vec<AbsoluteToken>)
    ensures
        in_document_order(final(raw)@),
        final(raw)@.to_multiset() == old(raw)@.to_multiset(),
{
    raw.sort_unstable_by(|a, b| compare_positions(a, b));
}

/// The place of the token before the first one.
pub open spec fn origin() -> AbsoluteToken {
    AbsoluteToken { line: 0, start: 0, length: 0, token_type: 0 }
}

/// The token `t` relative to the token `prev` before it: the distance in lines, and
/// the offset in the line, counted from `prev` only if that is on the same line.
pub open spec fn delta(prev: AbsoluteToken, t: AbsoluteToken) -> SemanticToken {
    SemanticToken {
        delta_line: (t.line - prev.line) as u32,
        delta_start: if t.line == prev.line {
            (t.start - prev.start) as u32
        } else {
            t.start
        },
        length: t.length,
        token_type: t.token_type,
        token_modifiers_bitset: 0,
    }
}

/// The delta encoding of a sequence of tokens.
pub open spec fn delta_encoded(raw: Seq<AbsoluteToken>) -> Seq<SemanticToken> {
    Seq::new(
        raw.len(),
        |i: int|
            delta(
                if i == 0 {
                    origin()
                } else {
                    raw[i - 1]
                },
                raw[i],
            ),
    )
}

/// The place of the last of the tokens that a client has received so far.
pub open spec fn last_decoded(raw: Seq<AbsoluteToken>) -> AbsoluteToken {
    if raw.len() == 0 {
        origin()
    } else {
        raw.last()
    }
}

/// What a client reads from the delta encoding, in one pass.
pub open spec fn delta_decoded(tokens: Seq<SemanticToken>) -> Seq<AbsoluteToken>
    decreases tokens.len(),
{
    if tokens.len() == 0 {
        seq![]
    } else {
        let before = delta_decoded(tokens.drop_last());
        let prev = last_decoded(before);
        let t = tokens.last();
        before.push(
            AbsoluteToken {
                line: (prev.line + t.delta_line) as u32,
                start: if t.delta_line == 0 {
                    (prev.start + t.delta_start) as u32
                } else {
                    t.delta_start
                },
                length: t.length,
                token_type: t.token_type,
            },
        )
    }
}

/// Converts absolute positions to the LSP delta encoding.
///
/// The rules of the protocol:
/// `delta_line` = this line - previous line
/// `delta_start` = this start - previous start (only when `delta_line` is 0)
///              = this start (when `delta_line` is above 0)
/// i.e., the start offset resets to absolute whenever the line changes.
pub fn encode_tokens(raw: &Vec<AbsoluteToken>) -> (tokens: Vec<SemanticToken>)
    requires
        in_document_order(raw@),
    ensures
        tokens@ == delta_encoded(raw@),
{
    let mut tokens: Vec<SemanticToken> = Vec::with_capacity(raw.len());
    let mut prev_line: u32 = 0;
    let mut prev_start: u32 = 0;
    for i in 0..raw.len()
        invariant
            in_document_order(raw@),
            tokens@ =~= delta_encoded(raw@).take(i as int),
            i == 0 ==> prev_line == 0 && prev_start == 0,
            i > 0 ==> prev_line == raw@[i - 1].line && prev_start == raw@[i - 1].start,
    {
        let t = raw[i];
        if i > 0 {
            assert(position_le(raw@[i - 1], raw@[i as int]));
        }
        let delta_line: u32 = t.line - prev_line;
        let delta_start: u32 = if delta_line == 0 {
            t.start - prev_start
        } else {
            t.start
        };
        tokens.push(
            SemanticToken {
                delta_line,
                delta_start,
                length: t.length,
                token_type: t.token_type,
                token_modifiers_bitset: 0,  // No modifiers.
            },
        );
        prev_line = t.line;
        prev_start = t.start;
    }
    assert(delta_encoded(raw@).take(raw@.len() as int) =~= delta_encoded(raw@));
    tokens
}

/// What the editor receives for a document is the delta encoding of the tokens for
/// the highlighted words, in the order of the document. The order of tokens at the
/// same position is left open.
pub open spec fn encodes(
    tokens: Seq<SemanticToken>,
    words: Seq<Option<Seq<char>>>,
    compiled: Seq<bool>,
    whole_word: bool,
    ignore_case: bool,
    content: Seq<char>,
) -> bool {
    let raw = delta_decoded(tokens);
    &&& tokens == delta_encoded(raw)
    &&& in_document_order(raw)
    &&& raw.to_multiset() == all_tokens(
        words,
        compiled,
        whole_word,
        ignore_case,
        text::text_lines(content),
        words.len() as int,
    ).to_multiset()
}

/// The semantic tokens of a document, given the regex for the word in each slot.
pub fn document_tokens(content: &str, regexes: &Vec<Option<Regex>>) -> (tokens: Vec<SemanticToken>)
    requires
        are_word_regexes(regexes@),
    ensures
        forall|words: Seq<Option<Seq<char>>>, whole_word: bool, ignore_case: bool| #[trigger]
            regexes_of(words, whole_word, ignore_case, regexes@) ==> encodes(
                tokens@,
                words,
                compiled_slots(regexes@),
                whole_word,
                ignore_case,
                content@,
            ),
{
    let mut raw = absolute_tokens(content, regexes);
    // Sort by (`line`, `start`).
    sort_by_position(&mut raw);
    proof {
        encoding_can_be_decoded(raw@);
    }
    // Convert absolute positions to the LSP delta encoding.
    encode_tokens(&raw)
}

/// A client that decodes the delta encoding gets back the tokens that were encoded.
pub proof fn encoding_can_be_decoded(raw: Seq<AbsoluteToken>)
    requires
        in_document_order(raw),
    ensures
        delta_decoded(delta_encoded(raw)) == raw,
    decreases raw.len(),
{
    let tokens = delta_encoded(raw);
    if raw.len() > 0 {
        let before = raw.drop_last();
        assert(tokens.drop_last() =~= delta_encoded(before));
        assert(in_document_order(before)) by {
            assert forall|i: int, j: int| 0 <= i <= j < before.len() implies position_le(
                before[i],
                before[j],
            ) by {
                assert(position_le(raw[i], raw[j]));
            }
        }
        encoding_can_be_decoded(before);
        let prev = last_decoded(before);
        assert(position_le(prev, raw.last())) by {
            if before.len() > 0 {
                assert(position_le(raw[raw.len() - 2], raw[raw.len() - 1]));
            }
        }
        assert(tokens.last() == delta(prev, raw.last()));
        assert(delta_decoded(tokens) =~= before.push(raw.last()));
        assert(raw =~= before.push(raw.last()));
    } else {
        assert(delta_decoded(tokens) =~= raw);
    }
}

proof fn lemma_word_tokens_sound(
    word: Seq<char>,
    whole_word: bool,
    ignore_case: bool,
    lines: Seq<Seq<char>>,
    n: int,
    token_type: u32,
    t: AbsoluteToken,
)
    requires
        0 <= n <= lines.len(),
        word_tokens(word, whole_word, ignore_case, lines, n, token_type).contains(t),
    ensures
        exists|l: int, i: int|
            0 <= l < n && #[trigger] matching::match_at(
                word,
                whole_word,
                ignore_case,
                lines[l],
                i,
            ) && t == token_at(lines[l], l, i, word.len() as int, token_type),
    decreases n,
{
    if n > 0 {
        let before = word_tokens(word, whole_word, ignore_case, lines, n - 1, token_type);
        let line = lines[n - 1];
        let starts = matching::word_matches(word, whole_word, ignore_case, line);
        let here = tokens_at(line, n - 1, starts, word.len() as int, token_type);
        let at = choose|at: int| 0 <= at < (before + here).len() && (before + here)[at] == t;
        if at < before.len() {
            assert(before[at] == t);
            lemma_word_tokens_sound(
                word,
                whole_word,
                ignore_case,
                lines,
                n - 1,
                token_type,
                t,
            );
        } else {
            let k = at - before.len();
            assert(here[k] == t);
            matching::matches_are_occurrences(word, whole_word, ignore_case, line, k);
            assert(matching::match_at(word, whole_word, ignore_case, lines[n - 1], starts[k]));
        }
    }
}

proof fn lemma_word_tokens_complete(
    word: Seq<char>,
    whole_word: bool,
    ignore_case: bool,
    lines: Seq<Seq<char>>,
    n: int,
    token_type: u32,
    l: int,
    k: int,
)
    requires
        0 <= l < n <= lines.len(),
        0 <= k < matching::word_matches(word, whole_word, ignore_case, lines[l]).len(),
    ensures
        word_tokens(word, whole_word, ignore_case, lines, n, token_type).contains(
            token_at(
                lines[l],
                l,
                matching::word_matches(word, whole_word, ignore_case, lines[l])[k],
                word.len() as int,
                token_type,
            ),
        ),
    decreases n,
{
    let before = word_tokens(word, whole_word, ignore_case, lines, n - 1, token_type);
    let starts = matching::word_matches(word, whole_word, ignore_case, lines[n - 1]);
    let here = tokens_at(lines[n - 1], n - 1, starts, word.len() as int, token_type);
    let t = token_at(
        lines[l],
        l,
        matching::word_matches(word, whole_word, ignore_case, lines[l])[k],
        word.len() as int,
        token_type,
    );
    if l == n - 1 {
        assert(here[k] == t);
        assert((before + here)[before.len() + k] == t);
    } else {
        lemma_word_tokens_complete(
            word,
            whole_word,
            ignore_case,
            lines,
            n - 1,
            token_type,
            l,
            k,
        );
        let at = choose|at: int| 0 <= at < before.len() && before[at] == t;
        assert((before + here)[at] == t);
    }
}

/// `t` is the token for an occurrence of the word in slot `k`: at index `i` of line
/// `l` of the document, in the color of the slot.
pub open spec fn is_token_of(
    t: AbsoluteToken,
    words: Seq<Option<Seq<char>>>,
    whole_word: bool,
    ignore_case: bool,
    lines: Seq<Seq<char>>,
    k: int,
    l: int,
    i: int,
) -> bool {
    let word = words[k]->0;
    &&& 0 <= l < lines.len()
    &&& matching::match_at(word, whole_word, ignore_case, lines[l], i)
    &&& t == token_at(lines[l], l, i, word.len() as int, slot_color(k))
}

proof fn lemma_all_tokens_sound(
    words: Seq<Option<Seq<char>>>,
    compiled: Seq<bool>,
    whole_word: bool,
    ignore_case: bool,
    lines: Seq<Seq<char>>,
    n: int,
    t: AbsoluteToken,
)
    requires
        all_tokens(words, compiled, whole_word, ignore_case, lines, n).contains(t),
    ensures
        exists|k: int, l: int, i: int|
            0 <= k < n && is_active(words, compiled, k) && #[trigger] is_token_of(
                t,
                words,
                whole_word,
                ignore_case,
                lines,
                k,
                l,
                i,
            ),
    decreases n,
{
    let before = all_tokens(words, compiled, whole_word, ignore_case, lines, n - 1);
    if is_active(words, compiled, n - 1) {
        let word = words[n - 1]->0;
        let all_lines = lines.len() as int;
        let here = word_tokens(
            word,
            whole_word,
            ignore_case,
            lines,
            all_lines,
            slot_color(n - 1),
        );
        let at = choose|at: int| 0 <= at < (before + here).len() && (before + here)[at] == t;
        if at < before.len() {
            assert(before[at] == t);
            lemma_all_tokens_sound(
                words,
                compiled,
                whole_word,
                ignore_case,
                lines,
                n - 1,
                t,
            );
        } else {
            assert(here[at - before.len()] == t);
            lemma_word_tokens_sound(
                word,
                whole_word,
                ignore_case,
                lines,
                all_lines,
                slot_color(n - 1),
                t,
            );
            let (l, i) = choose|l: int, i: int|
                0 <= l < all_lines && #[trigger] matching::match_at(
                    word,
                    whole_word,
                    ignore_case,
                    lines[l],
                    i,
                ) && t == token_at(lines[l], l, i, word.len() as int, slot_color(n - 1));
            assert(is_token_of(t, words, whole_word, ignore_case, lines, n - 1, l, i));
        }
    } else {
        lemma_all_tokens_sound(words, compiled, whole_word, ignore_case, lines, n - 1, t);
    }
}

proof fn lemma_all_tokens_contain(
    words: Seq<Option<Seq<char>>>,
    compiled: Seq<bool>,
    whole_word: bool,
    ignore_case: bool,
    lines: Seq<Seq<char>>,
    n: int,
    k: int,
    t: AbsoluteToken,
)
    requires
        0 <= k < n,
        is_active(words, compiled, k),
        word_tokens(
            words[k]->0,
            whole_word,
            ignore_case,
            lines,
            lines.len() as int,
            slot_color(k),
        ).contains(t),
    ensures
        all_tokens(words, compiled, whole_word, ignore_case, lines, n).contains(t),
    decreases n,
{
    let before = all_tokens(words, compiled, whole_word, ignore_case, lines, n - 1);
    if k < n - 1 {
        lemma_all_tokens_contain(
            words,
            compiled,
            whole_word,
            ignore_case,
            lines,
            n - 1,
            k,
            t,
        );
    }
    if is_active(words, compiled, n - 1) {
        let here = word_tokens(
            words[n - 1]->0,
            whole_word,
            ignore_case,
            lines,
            lines.len() as int,
            slot_color(n - 1),
        );
        if k == n - 1 {
            let at = choose|at: int| 0 <= at < here.len() && here[at] == t;
            assert((before + here)[before.len() + at] == t);
        } else {
            let at = choose|at: int| 0 <= at < before.len() && before[at] == t;
            assert((before + here)[at] == t);
        }
    }
}

/// Only highlighted words are marked: every token of a document stands for an
/// occurrence of a highlighted word, in the color of its slot.
pub proof fn only_occurrences_are_marked(
    tokens: Seq<SemanticToken>,
    words: Seq<Option<Seq<char>>>,
    compiled: Seq<bool>,
    whole_word: bool,
    ignore_case: bool,
    content: Seq<char>,
    n: int,
)
    requires
        encodes(tokens, words, compiled, whole_word, ignore_case, content),
        0 <= n < delta_decoded(tokens).len(),
    ensures
        exists|k: int, l: int, i: int|
            0 <= k < words.len() && is_active(words, compiled, k) && #[trigger] is_token_of(
                delta_decoded(tokens)[n],
                words,
                whole_word,
                ignore_case,
                text::text_lines(content),
                k,
                l,
                i,
            ),
{
    let lines = text::text_lines(content);
    let raw = delta_decoded(tokens);
    let all = all_tokens(
        words,
        compiled,
        whole_word,
        ignore_case,
        lines,
        words.len() as int,
    );
    assert(raw.contains(raw[n]));
    raw.to_multiset_ensures();
    all.to_multiset_ensures();
    assert(raw.to_multiset().contains(raw[n]));
    lemma_all_tokens_sound(
        words,
        compiled,
        whole_word,
        ignore_case,
        lines,
        words.len() as int,
        raw[n],
    );
}

/// Every occurrence of a highlighted word is marked: for each index at which the
/// word matches there is a token, in the color of its slot, for an occurrence that
/// holds the index.
pub proof fn every_occurrence_is_marked(
    tokens: Seq<SemanticToken>,
    words: Seq<Option<Seq<char>>>,
    compiled: Seq<bool>,
    whole_word: bool,
    ignore_case: bool,
    content: Seq<char>,
    k: int,
    l: int,
    i: int,
)
    requires
        encodes(tokens, words, compiled, whole_word, ignore_case, content),
        0 <= k < words.len(),
        is_active(words, compiled, k),
        0 <= l < text::text_lines(content).len(),
        matching::match_at(
            words[k]->0,
            whole_word,
            ignore_case,
            text::text_lines(content)[l],
            i,
        ),
    ensures
        exists|n: int, a: int|
            0 <= n < delta_decoded(tokens).len() && a <= i < a + words[k]->0.len()
                && #[trigger] is_token_of(
                delta_decoded(tokens)[n],
                words,
                whole_word,
                ignore_case,
                text::text_lines(content),
                k,
                l,
                a,
            ),
{
    let lines = text::text_lines(content);
    let raw = delta_decoded(tokens);
    let word = words[k]->0;
    let len = word.len() as int;
    let starts = matching::word_matches(word, whole_word, ignore_case, lines[l]);
    matching::every_occurrence_is_matched(word, whole_word, ignore_case, lines[l], i);
    let m = choose|m: int|
        0 <= m < starts.len() && (#[trigger] starts[m]) <= i < starts[m] + len;
    let a = starts[m];
    matching::matches_are_occurrences(word, whole_word, ignore_case, lines[l], m);
    let t = token_at(lines[l], l, a, len, slot_color(k));
    lemma_word_tokens_complete(
        word,
        whole_word,
        ignore_case,
        lines,
        lines.len() as int,
        slot_color(k),
        l,
        m,
    );
    let all = all_tokens(
        words,
        compiled,
        whole_word,
        ignore_case,
        lines,
        words.len() as int,
    );
    lemma_all_tokens_contain(
        words,
        compiled,
        whole_word,
        ignore_case,
        lines,
        words.len() as int,
        k,
        t,
    );
    raw.to_multiset_ensures();
    all.to_multiset_ensures();
    assert(raw.to_multiset().contains(t));
    let n = choose|n: int| 0 <= n < raw.len() && raw[n] == t;
    assert(is_token_of(raw[n], words, whole_word, ignore_case, lines, k, l, a));
}

/// Without a highlighted word a document has no tokens.
pub proof fn no_words_no_tokens(
    tokens: Seq<SemanticToken>,
    words: Seq<Option<Seq<char>>>,
    compiled: Seq<bool>,
    whole_word: bool,
    ignore_case: bool,
    content: Seq<char>,
)
    requires
        encodes(tokens, words, compiled, whole_word, ignore_case, content),
        forall|k: int| 0 <= k < words.len() ==> !#[trigger] is_active(words, compiled, k),
    ensures
        tokens.len() == 0,
{
    if tokens.len() > 0 {
        assert(delta_decoded(tokens).len() > 0);
        only_occurrences_are_marked(
            tokens,
            words,
            compiled,
            whole_word,
            ignore_case,
            content,
            0,
        );
    }
}

/// A document without text has no tokens.
pub proof fn no_text_no_tokens(
    tokens: Seq<SemanticToken>,
    words: Seq<Option<Seq<char>>>,
    compiled: Seq<bool>,
    whole_word: bool,
    ignore_case: bool,
)
    requires
        encodes(tokens, words, compiled, whole_word, ignore_case, seq![]),
    ensures
        tokens.len() == 0,
{
    if tokens.len() > 0 {
        assert(delta_decoded(tokens).len() > 0);
        only_occurrences_are_marked(
            tokens,
            words,
            compiled,
            whole_word,
            ignore_case,
            seq![],
            0,
        );
    }
}

/// Every word is short.
pub open spec fn all_short(words: Seq<Option<Seq<char>>>) -> bool {
    forall|k: int|
        0 <= k < words.len() ==> (#[trigger] words[k] matches Some(word) ==> matching::is_short(
            word,
        ))
}

/// Which slots have a word that may match.
pub open spec fn matching_slots(words: Seq<Option<Seq<char>>>, whole_word: bool) -> Seq<bool> {
    words.map_values(
        |word: Option<Seq<char>>|
            match word {
                Some(word) => matching::may_match(word, whole_word),
                None => false,
            },
    )
}

/// The tokens for short words in a document, in no particular order.
pub open spec fn marks(
    words: Seq<Option<Seq<char>>>,
    whole_word: bool,
    ignore_case: bool,
    content: Seq<char>,
) -> Multiset<AbsoluteToken> {
    all_tokens(
        words,
        matching_slots(words, whole_word),
        whole_word,
        ignore_case,
        text::text_lines(content),
        words.len() as int,
    ).to_multiset()
}

proof fn lemma_all_tokens_same(
    a: Seq<Option<Seq<char>>>,
    a_compiled: Seq<bool>,
    b: Seq<Option<Seq<char>>>,
    b_compiled: Seq<bool>,
    whole_word: bool,
    ignore_case: bool,
    lines: Seq<Seq<char>>,
    n: int,
)
    requires
        forall|k: int|
            0 <= k < n ==> {
                &&& #[trigger] is_active(a, a_compiled, k) == is_active(b, b_compiled, k)
                &&& is_active(a, a_compiled, k) ==> a[k] == b[k]
            },
    ensures
        all_tokens(a, a_compiled, whole_word, ignore_case, lines, n) == all_tokens(
            b,
            b_compiled,
            whole_word,
            ignore_case,
            lines,
            n,
        ),
    decreases n,
{
    if n > 0 {
        assert(is_active(a, a_compiled, n - 1) == is_active(b, b_compiled, n - 1));
        lemma_all_tokens_same(
            a,
            a_compiled,
            b,
            b_compiled,
            whole_word,
            ignore_case,
            lines,
            n - 1,
        );
    }
}

/// Where all words are short, the tokens of a document depend only on its text, the
/// words, and the matching rules.
pub proof fn tokens_are_determined(
    tokens: Seq<SemanticToken>,
    words: Seq<Option<Seq<char>>>,
    compiled: Seq<bool>,
    whole_word: bool,
    ignore_case: bool,
    content: Seq<char>,
)
    requires
        encodes(tokens, words, compiled, whole_word, ignore_case, content),
        compiled_as_owed(words, whole_word, compiled),
        all_short(words),
    ensures
        delta_decoded(tokens).to_multiset() == marks(words, whole_word, ignore_case, content),
{
    let owed = matching_slots(words, whole_word);
    assert forall|k: int| 0 <= k < words.len() implies {
        &&& #[trigger] is_active(words, compiled, k) == is_active(words, owed, k)
        &&& is_active(words, compiled, k) ==> words[k] == words[k]
    } by {
        if words[k] is Some {
            assert(owed[k] == matching::may_match(words[k]->0, whole_word));
        }
    }
    lemma_all_tokens_same(
        words,
        compiled,
        words,
        owed,
        whole_word,
        ignore_case,
        text::text_lines(content),
        words.len() as int,
    );
}

/// The slots of which all but slot `k` are free.
pub open spec fn alone(words: Seq<Option<Seq<char>>>, k: int) -> Seq<Option<Seq<char>>> {
    Seq::new(
        words.len(),
        |j: int|
            if j == k {
                words[k]
            } else {
                None
            },
    )
}

proof fn lemma_all_tokens_add_up(
    words: Seq<Option<Seq<char>>>,
    compiled: Seq<bool>,
    whole_word: bool,
    ignore_case: bool,
    lines: Seq<Seq<char>>,
    k: int,
    n: int,
)
    requires
        0 <= k < words.len(),
        n <= words.len(),
    ensures
        all_tokens(words, compiled, whole_word, ignore_case, lines, n).to_multiset() == all_tokens(
            words.update(k, None),
            compiled,
            whole_word,
            ignore_case,
            lines,
            n,
        ).to_multiset().add(
            all_tokens(
                alone(words, k),
                compiled,
                whole_word,
                ignore_case,
                lines,
                n,
            ).to_multiset(),
        ),
    decreases n,
{
    broadcast use vstd::multiset::group_multiset_axioms;

    let without = words.update(k, None);
    let only = alone(words, k);
    if n > 0 {
        lemma_all_tokens_add_up(words, compiled, whole_word, ignore_case, lines, k, n - 1);
        let all_before = all_tokens(words, compiled, whole_word, ignore_case, lines, n - 1);
        let without_before = all_tokens(without, compiled, whole_word, ignore_case, lines, n - 1);
        let only_before = all_tokens(only, compiled, whole_word, ignore_case, lines, n - 1);
        if is_active(words, compiled, n - 1) {
            let here = word_tokens(
                words[n - 1]->0,
                whole_word,
                ignore_case,
                lines,
                lines.len() as int,
                slot_color(n - 1),
            );
            vstd::seq_lib::lemma_multiset_commutative(all_before, here);
            if n - 1 == k {
                assert(is_active(only, compiled, k));
                assert(!is_active(without, compiled, k));
                vstd::seq_lib::lemma_multiset_commutative(only_before, here);
            } else {
                assert(!is_active(only, compiled, n - 1));
                assert(is_active(without, compiled, n - 1));
                vstd::seq_lib::lemma_multiset_commutative(without_before, here);
            }
        } else {
            assert(!is_active(only, compiled, n - 1));
            assert(!is_active(without, compiled, n - 1));
        }
        assert(all_tokens(words, compiled, whole_word, ignore_case, lines, n).to_multiset()
            =~= all_tokens(
            without,
            compiled,
            whole_word,
            ignore_case,
            lines,
            n,
        ).to_multiset().add(
            all_tokens(only, compiled, whole_word, ignore_case, lines, n).to_multiset(),
        ));
    } else {
        Seq::<AbsoluteToken>::empty().to_multiset_ensures();
        assert(Seq::<AbsoluteToken>::empty().to_multiset().len() == 0);
        assert(Seq::<AbsoluteToken>::empty().to_multiset() =~= Multiset::empty());
        assert(Multiset::<AbsoluteToken>::empty().add(Multiset::empty()) =~= Multiset::empty());
    }
}

/// The tokens of all words are those of the word in a slot and those of the other words,
/// each in the color of its slot: removing a word removes its own tokens and no others.
pub proof fn tokens_of_words_add_up(
    words: Seq<Option<Seq<char>>>,
    whole_word: bool,
    ignore_case: bool,
    content: Seq<char>,
    k: int,
)
    requires
        0 <= k < words.len(),
    ensures
        marks(words, whole_word, ignore_case, content) == marks(
            words.update(k, None),
            whole_word,
            ignore_case,
            content,
        ).add(marks(alone(words, k), whole_word, ignore_case, content)),
{
    let lines = text::text_lines(content);
    let owed = matching_slots(words, whole_word);
    let n = words.len() as int;
    lemma_all_tokens_add_up(words, owed, whole_word, ignore_case, lines, k, n);
    let without = words.update(k, None);
    let only = alone(words, k);
    lemma_all_tokens_same(
        without,
        matching_slots(without, whole_word),
        without,
        owed,
        whole_word,
        ignore_case,
        lines,
        n,
    );
    lemma_all_tokens_same(
        only,
        matching_slots(only, whole_word),
        only,
        owed,
        whole_word,
        ignore_case,
        lines,
        n,
    );
}

/// With a single highlighted word, of any length, a document has tokens if and only if
/// the word has a regex and matches anywhere in it.
pub proof fn a_compiled_word_has_tokens_iff_it_matches(
    tokens: Seq<SemanticToken>,
    word: Seq<char>,
    compiled: Seq<bool>,
    whole_word: bool,
    ignore_case: bool,
    content: Seq<char>,
)
    requires
        encodes(tokens, seq![Some(word)], compiled, whole_word, ignore_case, content),
        word.len() > 0,
    ensures
        tokens.len() > 0 <==> compiled[0] && matching::content_has_match(
            word,
            whole_word,
            ignore_case,
            content,
        ),
{
    let words = seq![Some(word)];
    let lines = text::text_lines(content);
    if tokens.len() > 0 {
        only_occurrences_are_marked(tokens, words, compiled, whole_word, ignore_case, content, 0);
        let (k, l, i) = choose|k: int, l: int, i: int|
            0 <= k < words.len() && is_active(words, compiled, k) && #[trigger] is_token_of(
                delta_decoded(tokens)[0],
                words,
                whole_word,
                ignore_case,
                lines,
                k,
                l,
                i,
            );
        assert(matching::has_match(word, whole_word, ignore_case, lines[l]));
    }
    if compiled[0] && matching::content_has_match(word, whole_word, ignore_case, content) {
        let l = choose|l: int|
            0 <= l < lines.len() && matching::has_match(
                word,
                whole_word,
                ignore_case,
                #[trigger] lines[l],
            );
        let i = choose|i: int| matching::match_at(word, whole_word, ignore_case, lines[l], i);
        every_occurrence_is_marked(
            tokens,
            words,
            compiled,
            whole_word,
            ignore_case,
            content,
            0,
            l,
            i,
        );
    }
}

/// Two slot lists are searched alike: they hold the same words, of any length, as far as
/// these are not empty and have a regex.
pub open spec fn are_searched_alike(
    a: Seq<Option<Seq<char>>>,
    a_compiled: Seq<bool>,
    b: Seq<Option<Seq<char>>>,
    b_compiled: Seq<bool>,
) -> bool {
    &&& a.len() == b.len()
    &&& forall|k: int|
        0 <= k < a.len() ==> {
            &&& #[trigger] is_active(a, a_compiled, k) == is_active(b, b_compiled, k)
            &&& is_active(a, a_compiled, k) ==> a[k] == b[k]
        }
}

/// Documents with the same text have the same tokens for the same words, of any length,
/// if the same words have a regex.
pub proof fn same_searches_give_the_same_tokens(
    a_tokens: Seq<SemanticToken>,
    a: Seq<Option<Seq<char>>>,
    a_compiled: Seq<bool>,
    b_tokens: Seq<SemanticToken>,
    b: Seq<Option<Seq<char>>>,
    b_compiled: Seq<bool>,
    whole_word: bool,
    ignore_case: bool,
    content: Seq<char>,
)
    requires
        encodes(a_tokens, a, a_compiled, whole_word, ignore_case, content),
        encodes(b_tokens, b, b_compiled, whole_word, ignore_case, content),
        are_searched_alike(a, a_compiled, b, b_compiled),
    ensures
        delta_decoded(a_tokens).to_multiset() == delta_decoded(b_tokens).to_multiset(),
{
    lemma_all_tokens_same(
        a,
        a_compiled,
        b,
        b_compiled,
        whole_word,
        ignore_case,
        text::text_lines(content),
        a.len() as int,
    );
}

/// The regexes of two slot lists agree: a slot that holds a word in both has a regex in
/// both or in neither.
pub open spec fn compiled_alike(
    a: Seq<Option<Seq<char>>>,
    a_compiled: Seq<bool>,
    b: Seq<Option<Seq<char>>>,
    b_compiled: Seq<bool>,
) -> bool {
    forall|k: int|
        0 <= k < a.len() && k < b.len() && (#[trigger] a[k]) is Some && b[k] is Some
            ==> a_compiled[k] == b_compiled[k]
}

/// Removing one word, of any length, removes its own tokens and no others, and changes no
/// color, if the same words have a regex.
pub proof fn removing_a_compiled_word_removes_its_tokens(
    tokens: Seq<SemanticToken>,
    without_tokens: Seq<SemanticToken>,
    only_tokens: Seq<SemanticToken>,
    words: Seq<Option<Seq<char>>>,
    compiled: Seq<bool>,
    without_compiled: Seq<bool>,
    only_compiled: Seq<bool>,
    whole_word: bool,
    ignore_case: bool,
    content: Seq<char>,
    k: int,
)
    requires
        0 <= k < words.len(),
        encodes(tokens, words, compiled, whole_word, ignore_case, content),
        encodes(
            without_tokens,
            words.update(k, None),
            without_compiled,
            whole_word,
            ignore_case,
            content,
        ),
        encodes(only_tokens, alone(words, k), only_compiled, whole_word, ignore_case, content),
        compiled_alike(words, compiled, words.update(k, None), without_compiled),
        compiled_alike(words, compiled, alone(words, k), only_compiled),
    ensures
        delta_decoded(tokens).to_multiset() == delta_decoded(without_tokens).to_multiset().add(
            delta_decoded(only_tokens).to_multiset(),
        ),
{
    let lines = text::text_lines(content);
    let n = words.len() as int;
    let without = words.update(k, None);
    let only = alone(words, k);
    lemma_all_tokens_add_up(words, compiled, whole_word, ignore_case, lines, k, n);
    assert forall|j: int| 0 <= j < n implies #[trigger] is_active(without, without_compiled, j)
        == is_active(without, compiled, j) by {
        assert(without[j] is Some ==> words[j] is Some);
    }
    lemma_all_tokens_same(
        without,
        without_compiled,
        without,
        compiled,
        whole_word,
        ignore_case,
        lines,
        n,
    );
    assert forall|j: int| 0 <= j < n implies #[trigger] is_active(only, only_compiled, j)
        == is_active(only, compiled, j) by {
        assert(only[j] is Some ==> words[j] is Some);
    }
    lemma_all_tokens_same(
        only,
        only_compiled,
        only,
        compiled,
        whole_word,
        ignore_case,
        lines,
        n,
    );
}

/// Highlighting one more word, of any length, that has a regex and matches in a document
/// keeps all tokens and adds at least one, if the same other words have a regex.
pub proof fn adding_a_compiled_word_adds_tokens(
    before_tokens: Seq<SemanticToken>,
    after_tokens: Seq<SemanticToken>,
    before: Seq<Option<Seq<char>>>,
    after: Seq<Option<Seq<char>>>,
    before_compiled: Seq<bool>,
    after_compiled: Seq<bool>,
    whole_word: bool,
    ignore_case: bool,
    content: Seq<char>,
    k: int,
)
    requires
        encodes(before_tokens, before, before_compiled, whole_word, ignore_case, content),
        encodes(after_tokens, after, after_compiled, whole_word, ignore_case, content),
        compiled_alike(before, before_compiled, after, after_compiled),
        0 <= k < after.len(),
        before.len() <= after.len(),
        forall|j: int|
            0 <= j < after.len() && j != k ==> j < before.len() && (#[trigger] after[j])
                == before[j],
        k < before.len() ==> before[k] is None,
        is_active(after, after_compiled, k),
        matching::content_has_match(after[k]->0, whole_word, ignore_case, content),
    ensures
        delta_decoded(before_tokens).to_multiset().subset_of(
            delta_decoded(after_tokens).to_multiset(),
        ),
        before_tokens.len() < after_tokens.len(),
{
    broadcast use vstd::multiset::group_multiset_axioms;

    let lines = text::text_lines(content);
    let n = after.len() as int;
    let without = after.update(k, None);
    let only = alone(after, k);
    lemma_all_tokens_add_up(after, after_compiled, whole_word, ignore_case, lines, k, n);
    let rest = all_tokens(without, after_compiled, whole_word, ignore_case, lines, n);
    let added = all_tokens(only, after_compiled, whole_word, ignore_case, lines, n);
    // Without the new word, the slots are searched as before.
    let m = before.len() as int;
    assert forall|j: int| 0 <= j < m implies {
        &&& #[trigger] is_active(without, after_compiled, j) == is_active(
            before,
            before_compiled,
            j,
        )
        &&& is_active(without, after_compiled, j) ==> without[j] == before[j]
    } by {
        if j != k {
            assert(after[j] == before[j]);
            assert(before[j] is Some && after[j] is Some ==> before_compiled[j]
                == after_compiled[j]);
        }
    }
    lemma_all_tokens_same(
        without,
        after_compiled,
        before,
        before_compiled,
        whole_word,
        ignore_case,
        lines,
        m,
    );
    if m < n {
        assert(k == n - 1) by {
            if k != n - 1 {
                assert(after[n - 1] == before[n - 1]);
            }
        }
        assert(m == n - 1) by {
            if m < n - 1 {
                assert(after[n - 2] == before[n - 2]);
            }
        }
        assert(!is_active(without, after_compiled, n - 1));
    }
    // The new word has a token.
    let word = after[k]->0;
    let l = choose|l: int|
        0 <= l < lines.len() && matching::has_match(
            word,
            whole_word,
            ignore_case,
            #[trigger] lines[l],
        );
    matching::a_match_is_visible(word, whole_word, ignore_case, lines[l]);
    let t = token_at(
        lines[l],
        l,
        matching::word_matches(word, whole_word, ignore_case, lines[l])[0],
        word.len() as int,
        slot_color(k),
    );
    lemma_word_tokens_complete(
        word,
        whole_word,
        ignore_case,
        lines,
        lines.len() as int,
        slot_color(k),
        l,
        0,
    );
    assert(is_active(only, after_compiled, k));
    lemma_all_tokens_contain(
        only,
        after_compiled,
        whole_word,
        ignore_case,
        lines,
        n,
        k,
        t,
    );
    added.to_multiset_ensures();
    delta_decoded(before_tokens).to_multiset_ensures();
    delta_decoded(after_tokens).to_multiset_ensures();
}

/// Free slots have no tokens: slots that differ only in free slots at the end have the
/// same tokens.
pub proof fn free_slots_have_no_tokens(
    words: Seq<Option<Seq<char>>>,
    whole_word: bool,
    ignore_case: bool,
    content: Seq<char>,
)
    ensures
        marks(words.push(None), whole_word, ignore_case, content) == marks(
            words,
            whole_word,
            ignore_case,
            content,
        ),
{
    let more = words.push(None);
    let n = words.len() as int;
    assert(!is_active(more, matching_slots(more, whole_word), n));
    lemma_all_tokens_same(
        more,
        matching_slots(more, whole_word),
        words,
        matching_slots(words, whole_word),
        whole_word,
        ignore_case,
        text::text_lines(content),
        n,
    );
}

/// A word that is not empty and matches in a document has a token there.
pub proof fn a_matching_word_has_tokens(
    words: Seq<Option<Seq<char>>>,
    whole_word: bool,
    ignore_case: bool,
    content: Seq<char>,
    k: int,
)
    requires
        0 <= k < words.len(),
        words[k] is Some,
        words[k]->0.len() > 0,
        matching::matches_content(words[k]->0, whole_word, ignore_case, content),
    ensures
        marks(words, whole_word, ignore_case, content).len() > 0,
{
    let word = words[k]->0;
    let lines = text::text_lines(content);
    let owed = matching_slots(words, whole_word);
    let l = choose|l: int|
        0 <= l < lines.len() && matching::has_match(
            word,
            whole_word,
            ignore_case,
            #[trigger] lines[l],
        );
    matching::a_match_is_visible(word, whole_word, ignore_case, lines[l]);
    let t = token_at(
        lines[l],
        l,
        matching::word_matches(word, whole_word, ignore_case, lines[l])[0],
        word.len() as int,
        slot_color(k),
    );
    lemma_word_tokens_complete(
        word,
        whole_word,
        ignore_case,
        lines,
        lines.len() as int,
        slot_color(k),
        l,
        0,
    );
    assert(is_active(words, owed, k));
    lemma_all_tokens_contain(
        words,
        owed,
        whole_word,
        ignore_case,
        lines,
        words.len() as int,
        k,
        t,
    );
    let all = all_tokens(
        words,
        owed,
        whole_word,
        ignore_case,
        lines,
        words.len() as int,
    );
    all.to_multiset_ensures();
}

/// The colors of slots repeat after [`NUM_COLORS`] slots, and only then.
pub proof fn colors_wrap_around(a: int, b: int)
    requires
        0 <= a,
        0 <= b,
    ensures
        slot_color(a) < NUM_COLORS,
        slot_color(a) == slot_color(b) <==> (a - b) % (NUM_COLORS as int) == 0,
{
}

/// The offsets of a token, which are in UTF-16 code units, lead back to the characters
/// that it marks.
pub proof fn token_offsets_lead_back(
    line: Seq<char>,
    l: int,
    i: int,
    len: int,
    token_type: u32,
)
    requires
        0 <= i <= i + len <= line.len(),
        text::utf16_count(line) <= u32::MAX,
    ensures
        ({
            let t = token_at(line, l, i, len, token_type);
            &&& text::utf16_index(line, t.start as int) == Some(i)
            &&& text::utf16_index(line, t.start + t.length) == Some(i + len)
        }),
{
    text::lemma_utf16_subrange(line, i, i + len);
    let start = text::utf16_count(line.take(i)) as int;
    let length = text::utf16_count(line.subrange(i, i + len)) as int;
    assert(text::at_utf16(line, start, i));
    assert(text::at_utf16(line, start + length, i + len));
    text::utf16_index_is_unique(line, start, i);
    text::utf16_index_is_unique(line, start + length, i + len);
}

/// The color of a slot is its number, counted over and over from zero up to the last of
/// the colors.
pub proof fn colors_count_up(slot: int)
    requires
        0 <= slot,
    ensures
        slot_color(slot) == slot % 8,
{
}

proof fn lemma_decoded_prefix(tokens: Seq<SemanticToken>, n: int)
    requires
        0 <= n <= tokens.len(),
    ensures
        delta_decoded(tokens).len() == tokens.len(),
        delta_decoded(tokens.take(n)) == delta_decoded(tokens).take(n),
    decreases tokens.len(),
{
    if tokens.len() > 0 {
        let before = tokens.drop_last();
        lemma_decoded_prefix(before, if n < tokens.len() {
            n
        } else {
            0
        });
        if n < tokens.len() {
            assert(before.take(n) =~= tokens.take(n));
            assert(delta_decoded(tokens).take(n) =~= delta_decoded(before).take(n));
        } else {
            assert(tokens.take(n) =~= tokens);
            assert(delta_decoded(tokens).take(n) =~= delta_decoded(tokens));
        }
    } else {
        assert(tokens.take(n) =~= tokens);
        assert(delta_decoded(tokens).take(n) =~= delta_decoded(tokens));
    }
}

/// What the editor receives places each token relative to the one before it: the lines
/// add up, and so do the offsets within a line; in a new line the offset counts from its
/// start. The first token counts from the start of the document. The tokens are in the
/// order of the document.
pub proof fn positions_add_up(
    tokens: Seq<SemanticToken>,
    words: Seq<Option<Seq<char>>>,
    compiled: Seq<bool>,
    whole_word: bool,
    ignore_case: bool,
    content: Seq<char>,
    n: int,
)
    requires
        encodes(tokens, words, compiled, whole_word, ignore_case, content),
        0 <= n < tokens.len(),
    ensures
        delta_decoded(tokens).len() == tokens.len(),
        ({
            let at = delta_decoded(tokens);
            let (line, start) = if n == 0 {
                (0int, 0int)
            } else {
                (at[n - 1].line as int, at[n - 1].start as int)
            };
            &&& at[n].line == line + tokens[n].delta_line
            &&& at[n].start == (if tokens[n].delta_line == 0 {
                start + tokens[n].delta_start
            } else {
                tokens[n].delta_start as int
            })
            &&& at[n].length == tokens[n].length
            &&& at[n].token_type == tokens[n].token_type
            &&& tokens[n].token_modifiers_bitset == 0
            &&& line <= at[n].line
            &&& line == at[n].line ==> start <= at[n].start
        }),
{
    let raw = delta_decoded(tokens);
    lemma_decoded_prefix(tokens, n);
    assert(tokens[n] == delta_encoded(raw)[n]);
    if n > 0 {
        assert(position_le(raw[n - 1], raw[n]));
    }
}

/// Token `a` ends before token `b` starts.
pub open spec fn ends_before(a: AbsoluteToken, b: AbsoluteToken) -> bool {
    a.line < b.line || (a.line == b.line && a.start + a.length <= b.start)
}

/// The document is small enough for its lines and offsets to be told in 32 bits.
pub open spec fn fits(lines: Seq<Seq<char>>) -> bool {
    &&& lines.len() <= 0x1_0000_0000
    &&& forall|l: int| 0 <= l < lines.len() ==> text::utf16_count(#[trigger] lines[l]) <= u32::MAX
}

proof fn lemma_token_fields(line: Seq<char>, l: int, i: int, len: int, token_type: u32)
    requires
        0 <= l <= u32::MAX,
        0 <= i <= i + len <= line.len(),
        text::utf16_count(line) <= u32::MAX,
    ensures
        ({
            let t = token_at(line, l, i, len, token_type);
            &&& t.line == l
            &&& t.start == text::utf16_count(line.take(i))
            &&& t.length == text::utf16_count(line.subrange(i, i + len))
            &&& t.token_type == token_type
            &&& len > 0 ==> t.length > 0
        }),
{
    text::lemma_utf16_subrange(line, i, i + len);
    if len > 0 {
        let part = line.subrange(i, i + len);
        assert(text::utf16_count(part) == text::utf16_count(part.drop_last()) + text::utf16_units(
            part.last(),
        ));
    }
}

proof fn lemma_word_tokens_ordered(
    word: Seq<char>,
    whole_word: bool,
    ignore_case: bool,
    lines: Seq<Seq<char>>,
    n: int,
    token_type: u32,
    p: int,
    q: int,
)
    requires
        fits(lines),
        0 <= n <= lines.len(),
        word.len() > 0,
        0 <= p < q < word_tokens(word, whole_word, ignore_case, lines, n, token_type).len(),
    ensures
        ends_before(
            word_tokens(word, whole_word, ignore_case, lines, n, token_type)[p],
            word_tokens(word, whole_word, ignore_case, lines, n, token_type)[q],
        ),
        word_tokens(word, whole_word, ignore_case, lines, n, token_type)[p].length > 0,
        word_tokens(word, whole_word, ignore_case, lines, n, token_type)[q].length > 0,
    decreases n,
{
    let all = word_tokens(word, whole_word, ignore_case, lines, n, token_type);
    let before = word_tokens(word, whole_word, ignore_case, lines, n - 1, token_type);
    let line = lines[n - 1];
    let len = word.len() as int;
    let starts = matching::word_matches(word, whole_word, ignore_case, line);
    let here = tokens_at(line, n - 1, starts, len, token_type);
    assert(all == before + here);
    if q < before.len() {
        lemma_word_tokens_ordered(
            word,
            whole_word,
            ignore_case,
            lines,
            n - 1,
            token_type,
            p,
            q,
        );
    } else {
        let y = q - before.len();
        matching::matches_are_occurrences(word, whole_word, ignore_case, line, y);
        lemma_token_fields(line, n - 1, starts[y], len, token_type);
        assert(all[q] == token_at(line, n - 1, starts[y], len, token_type));
        if p < before.len() {
            assert(before.contains(before[p]));
            lemma_word_tokens_sound(
                word,
                whole_word,
                ignore_case,
                lines,
                n - 1,
                token_type,
                before[p],
            );
            let (l, i) = choose|l: int, i: int|
                0 <= l < n - 1 && #[trigger] matching::match_at(
                    word,
                    whole_word,
                    ignore_case,
                    lines[l],
                    i,
                ) && before[p] == token_at(lines[l], l, i, word.len() as int, token_type);
            lemma_token_fields(lines[l], l, i, len, token_type);
        } else {
            let x = p - before.len();
            matching::matches_are_occurrences(word, whole_word, ignore_case, line, x);
            lemma_token_fields(line, n - 1, starts[x], len, token_type);
            matching::matches_do_not_overlap(word, whole_word, ignore_case, line, x, y);
            text::lemma_utf16_subrange(line, starts[x], starts[x] + len);
            text::lemma_utf16_subrange(line, starts[x] + len, starts[y]);
            assert(all[p] == token_at(line, n - 1, starts[x], len, token_type));
        }
    }
}

proof fn lemma_only_slot(
    words: Seq<Option<Seq<char>>>,
    compiled: Seq<bool>,
    whole_word: bool,
    ignore_case: bool,
    lines: Seq<Seq<char>>,
    k: int,
    n: int,
)
    requires
        0 <= k < words.len(),
        n <= words.len(),
        forall|j: int| 0 <= j < words.len() && j != k ==> (#[trigger] words[j]) is None,
    ensures
        all_tokens(words, compiled, whole_word, ignore_case, lines, n) == (if k < n && is_active(
            words,
            compiled,
            k,
        ) {
            word_tokens(
                words[k]->0,
                whole_word,
                ignore_case,
                lines,
                lines.len() as int,
                slot_color(k),
            )
        } else {
            seq![]
        }),
    decreases n,
{
    if n > 0 {
        lemma_only_slot(words, compiled, whole_word, ignore_case, lines, k, n - 1);
        if n - 1 != k {
            assert(words[n - 1] is None);
        } else if is_active(words, compiled, k) {
            let here = word_tokens(
                words[k]->0,
                whole_word,
                ignore_case,
                lines,
                lines.len() as int,
                slot_color(k),
            );
            assert(Seq::<AbsoluteToken>::empty() + here =~= here);
        }
    }
}

/// The tokens of a single word do not overlap, and none is sent twice: each ends before
/// the next one starts.
pub proof fn tokens_of_a_word_do_not_overlap(
    tokens: Seq<SemanticToken>,
    words: Seq<Option<Seq<char>>>,
    compiled: Seq<bool>,
    whole_word: bool,
    ignore_case: bool,
    content: Seq<char>,
    k: int,
    m: int,
    n: int,
)
    requires
        encodes(tokens, words, compiled, whole_word, ignore_case, content),
        fits(text::text_lines(content)),
        0 <= k < words.len(),
        forall|j: int| 0 <= j < words.len() && j != k ==> (#[trigger] words[j]) is None,
        0 <= m < n < tokens.len(),
    ensures
        ends_before(delta_decoded(tokens)[m], delta_decoded(tokens)[n]),
{
    let lines = text::text_lines(content);
    let raw = delta_decoded(tokens);
    let all = all_tokens(
        words,
        compiled,
        whole_word,
        ignore_case,
        lines,
        words.len() as int,
    );
    lemma_decoded_prefix(tokens, 0);
    lemma_only_slot(words, compiled, whole_word, ignore_case, lines, k, words.len() as int);
    raw.to_multiset_ensures();
    all.to_multiset_ensures();
    assert(all.len() == raw.len());
    let word = words[k]->0;
    let count = lines.len() as int;
    assert forall|p: int, q: int| 0 <= p < q < all.len() implies ends_before(
        #[trigger] all[p],
        #[trigger] all[q],
    ) && all[p].length > 0 && all[q].length > 0 by {
        lemma_word_tokens_ordered(
            word,
            whole_word,
            ignore_case,
            lines,
            count,
            slot_color(k),
            p,
            q,
        );
    }
    assert(all.no_duplicates());
    all.lemma_multiset_has_no_duplicates();
    assert(raw.to_multiset() == all.to_multiset());
    raw.lemma_multiset_has_no_duplicates_conv();
    assert(raw[m] != raw[n]);
    assert(raw.to_multiset().count(raw[m]) > 0);
    assert(raw.to_multiset().count(raw[n]) > 0);
    let p = choose|p: int| 0 <= p < all.len() && all[p] == raw[m];
    let q = choose|q: int| 0 <= q < all.len() && all[q] == raw[n];
    assert(position_le(raw[m], raw[n]));
    if p < q {
        assert(ends_before(all[p], all[q]));
    } else {
        assert(ends_before(all[q], all[p]));
    }
}

/// Each token names the line it is on, and the offset and length of the text that it
/// marks: that line, from that offset on, holds the characters of a highlighted word.
pub proof fn every_token_stands_where_it_says(
    tokens: Seq<SemanticToken>,
    words: Seq<Option<Seq<char>>>,
    compiled: Seq<bool>,
    whole_word: bool,
    ignore_case: bool,
    content: Seq<char>,
    n: int,
)
    requires
        encodes(tokens, words, compiled, whole_word, ignore_case, content),
        fits(text::text_lines(content)),
        0 <= n < tokens.len(),
    ensures
        ({
            let lines = text::text_lines(content);
            let t = delta_decoded(tokens)[n];
            &&& t.line < lines.len()
            &&& exists|k: int, i: int|
                {
                    let word = words[k]->0;
                    &&& 0 <= k < words.len() && words[k] is Some && compiled[k]
                    &&& t.token_type == k % 8
                    &&& word.len() > 0
                    &&& #[trigger] matching::stands_at(
                        words[k]->0,
                        whole_word,
                        ignore_case,
                        lines[t.line as int],
                        i,
                    )
                    &&& text::utf16_count(lines[t.line as int].take(i)) == t.start
                    &&& text::utf16_count(lines[t.line as int].subrange(i, i + word.len()))
                        == t.length
                }
        }),
{
    let lines = text::text_lines(content);
    lemma_decoded_prefix(tokens, 0);
    only_occurrences_are_marked(tokens, words, compiled, whole_word, ignore_case, content, n);
    let t = delta_decoded(tokens)[n];
    let (k, l, i) = choose|k: int, l: int, i: int|
        0 <= k < words.len() && is_active(words, compiled, k) && #[trigger] is_token_of(
            t,
            words,
            whole_word,
            ignore_case,
            lines,
            k,
            l,
            i,
        );
    let word = words[k]->0;
    lemma_token_fields(lines[l], l, i, word.len() as int, slot_color(k));
    matching::a_word_matches_where_its_text_stands(word, whole_word, ignore_case, lines[l], i);
    assert(matching::stands_at(
        words[k]->0,
        whole_word,
        ignore_case,
        lines[t.line as int],
        i,
    ));
}

/// Every place where the characters of a highlighted word stand is marked: a token on that
/// line, in the color of the word's slot, covers it.
pub proof fn every_place_of_a_word_is_marked(
    tokens: Seq<SemanticToken>,
    words: Seq<Option<Seq<char>>>,
    compiled: Seq<bool>,
    whole_word: bool,
    ignore_case: bool,
    content: Seq<char>,
    k: int,
    l: int,
    i: int,
)
    requires
        encodes(tokens, words, compiled, whole_word, ignore_case, content),
        fits(text::text_lines(content)),
        0 <= k < words.len(),
        words[k] is Some,
        words[k]->0.len() > 0,
        compiled[k],
        0 <= l < text::text_lines(content).len(),
        matching::stands_at(
            words[k]->0,
            whole_word,
            ignore_case,
            text::text_lines(content)[l],
            i,
        ),
    ensures
        ({
            let line = text::text_lines(content)[l];
            let word = words[k]->0;
            exists|n: int, a: int|
                {
                    &&& 0 <= n < tokens.len()
                    &&& a <= i < a + word.len()
                    &&& #[trigger] matching::stands_at(words[k]->0, whole_word, ignore_case, line, a)
                    &&& (#[trigger] delta_decoded(tokens)[n]).line == l
                    &&& delta_decoded(tokens)[n].start == text::utf16_count(line.take(a))
                    &&& delta_decoded(tokens)[n].length == text::utf16_count(
                        line.subrange(a, a + word.len()),
                    )
                    &&& delta_decoded(tokens)[n].token_type == k % 8
                }
        }),
{
    let lines = text::text_lines(content);
    let line = lines[l];
    let word = words[k]->0;
    lemma_decoded_prefix(tokens, 0);
    matching::a_word_matches_where_its_text_stands(word, whole_word, ignore_case, line, i);
    every_occurrence_is_marked(
        tokens,
        words,
        compiled,
        whole_word,
        ignore_case,
        content,
        k,
        l,
        i,
    );
    let (n, a) = choose|n: int, a: int|
        0 <= n < delta_decoded(tokens).len() && a <= i < a + words[k]->0.len()
            && #[trigger] is_token_of(
            delta_decoded(tokens)[n],
            words,
            whole_word,
            ignore_case,
            lines,
            k,
            l,
            a,
        );
    lemma_token_fields(line, l, a, word.len() as int, slot_color(k));
    matching::a_word_matches_where_its_text_stands(word, whole_word, ignore_case, line, a);
    assert(matching::stands_at(words[k]->0, whole_word, ignore_case, line, a));
    assert(delta_decoded(tokens)[n].line == l);
}

/// The regexes stand slot by slot for the words: only a word that is not empty has one,
/// which is its own, and every such word of ordinary length that may match has one.
pub proof fn regexes_stand_for_their_words(
    words: Seq<Option<Seq<char>>>,
    whole_word: bool,
    ignore_case: bool,
    regexes: Seq<Option<Regex>>,
    k: int,
)
    requires
        regexes_of(words, whole_word, ignore_case, regexes),
        compiled_as_owed(words, whole_word, compiled_slots(regexes)),
        0 <= k < words.len(),
    ensures
        regexes.len() == words.len(),
        regexes[k] matches Some(re) ==> {
            &&& words[k] is Some
            &&& words[k]->0.len() > 0
            &&& matching::regex_pattern(re) == matching::word_pattern(words[k]->0, whole_word)
            &&& matching::regex_ignores_case(re) == ignore_case
        },
        words[k] is Some && 0 < words[k]->0.len() <= 10000 && (whole_word
            ==> words::highlightable(words[k]->0, true)) ==> regexes[k] is Some,
{
}

/// The delta encoding tells of each token how many lines it is below the one before it,
/// and how far behind that one it starts, or in another line how far behind the start of
/// the line. The first token counts from the start of the document.
pub proof fn deltas_are_distances(raw: Seq<AbsoluteToken>, n: int)
    requires
        in_document_order(raw),
        0 <= n < raw.len(),
    ensures
        delta_encoded(raw).len() == raw.len(),
        ({
            let t = delta_encoded(raw)[n];
            let (line, start) = if n == 0 {
                (0int, 0int)
            } else {
                (raw[n - 1].line as int, raw[n - 1].start as int)
            };
            &&& line + t.delta_line == raw[n].line
            &&& t.delta_line == 0 ==> start + t.delta_start == raw[n].start
            &&& t.delta_line > 0 ==> t.delta_start == raw[n].start
            &&& t.length == raw[n].length
            &&& t.token_type == raw[n].token_type
            &&& t.token_modifiers_bitset == 0
        }),
        n > 0 ==> raw[n - 1].line < raw[n].line || (raw[n - 1].line == raw[n].line && raw[n
            - 1].start <= raw[n].start),
{
    if n > 0 {
        assert(position_le(raw[n - 1], raw[n]));
    }
}

/// Before they are sorted, the tokens come slot by slot, those of a slot in the order of
/// the document.
pub proof fn unsorted_tokens_come_slot_by_slot(
    words: Seq<Option<Seq<char>>>,
    compiled: Seq<bool>,
    whole_word: bool,
    ignore_case: bool,
    lines: Seq<Seq<char>>,
    k: int,
    p: int,
    q: int,
)
    requires
        0 <= k < words.len(),
    ensures
        all_tokens(words, compiled, whole_word, ignore_case, lines, 0) == Seq::<
            AbsoluteToken,
        >::empty(),
        all_tokens(words, compiled, whole_word, ignore_case, lines, k + 1) == all_tokens(
            words,
            compiled,
            whole_word,
            ignore_case,
            lines,
            k,
        ) + all_tokens(
            alone(words, k),
            compiled,
            whole_word,
            ignore_case,
            lines,
            words.len() as int,
        ),
        ({
            let of_slot = all_tokens(
                alone(words, k),
                compiled,
                whole_word,
                ignore_case,
                lines,
                words.len() as int,
            );
            fits(lines) && 0 <= p < q < of_slot.len() ==> ends_before(of_slot[p], of_slot[q])
        }),
{
    let only = alone(words, k);
    let n = words.len() as int;
    lemma_only_slot(only, compiled, whole_word, ignore_case, lines, k, n);
    let before = all_tokens(words, compiled, whole_word, ignore_case, lines, k);
    assert(is_active(only, compiled, k) == is_active(words, compiled, k));
    if !is_active(words, compiled, k) {
        assert(before + Seq::<AbsoluteToken>::empty() =~= before);
    }
    let of_slot = all_tokens(only, compiled, whole_word, ignore_case, lines, n);
    if fits(lines) && 0 <= p < q < of_slot.len() {
        lemma_word_tokens_ordered(
            words[k]->0,
            whole_word,
            ignore_case,
            lines,
            lines.len() as int,
            slot_color(k),
            p,
            q,
        );
    }
}

} // verus!
