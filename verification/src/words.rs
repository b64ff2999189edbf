//! Which text of a document the user is acting on, and whether it can be
//! highlighted.

use vstd::prelude::*;
use vstd::utf8::*;

use crate::text;
use crate::text::{lines, split_before, trim, utf16_to_byte};

verus! {

broadcast use {vstd::seq::group_seq_axioms, vstd::string::group_string_axioms};

/// A position in a document: a line, and an offset in UTF-16 code units in it.
#[derive(Clone, Copy, Debug, PartialEq, Eq, Structural)]
pub struct Position {
    pub line: u32,
    pub character: u32,
}

/// A range in a document, from `start` up to `end`.
#[derive(Clone, Copy, Debug, PartialEq, Eq, Structural)]
pub struct Range {
    pub start: Position,
    pub end: Position,
}

/// Whether `c` is alphabetic or numeric in the Unicode character database.
pub uninterp spec fn alphanumeric(c: char) -> bool;

/// [`char::is_alphanumeric`] tests for Unicode's alphabetic and numeric
/// characters, a table of the Unicode character database; its value on a character
/// is named [`alphanumeric`]. White space, which is made of control characters and
/// separators, is neither.
pub assume_specification[ char::is_alphanumeric ](c: char) -> (r: bool)
    ensures
        r == alphanumeric(c),
        r ==> !text::white_space(c),
;

/// "Word characters" are alphanumerics plus underscore.
pub open spec fn word_char(c: char) -> bool {
    alphanumeric(c) || c == '_'
}

/// Helper function to check if a character is a "word character" for the purposes of determining word boundaries.
pub fn is_word_char(c: char) -> (r: bool)
    ensures
        r == word_char(c),
        r ==> !text::white_space(c),
{
    c.is_alphanumeric() || c == '_'
}

/// A text can be highlighted if it is not empty and, where only whole words are
/// matched, starts and ends with a word character.
pub open spec fn highlightable(text: Seq<char>, whole_word: bool) -> bool {
    &&& text.len() > 0
    &&& whole_word ==> word_char(text[0]) && word_char(text.last())
}

/// Helper function to check whether a given text can produce visible highlights based on the current matching rules.
///
/// In `whole_word` mode a word only matches when its first and last characters are word characters. Candidates failing
/// this rule would never match, so we use this predicate to filter them out early at the code action layer rather than
/// letting them sit in the word list invisibly.
pub fn is_highlightable(text: &str, whole_word: bool) -> (r: bool)
    ensures
        r == highlightable(text@, whole_word),
{
    if text.is_empty() {
        return false;
    }
    if !whole_word {
        return true;
    }
    let mut seen: bool = false;
    let mut starts_ok: bool = false;
    let mut ends_ok: bool = false;
    for c in it: text.chars()
        invariant
            it.seq() == text@,
            seen == (it.index() > 0),
            it.index() > 0 ==> starts_ok == word_char(text@[0]),
            it.index() > 0 ==> ends_ok == word_char(text@[it.index() - 1]),
    {
        ends_ok = is_word_char(c);
        if !seen {
            seen = true;
            starts_ok = ends_ok;
        }
    }
    starts_ok && ends_ok
}

/// Where the run of word characters that ends before index `pos` starts.
pub open spec fn word_start(line: Seq<char>, pos: int) -> int
    decreases pos,
{
    if pos > 0 && word_char(line[pos - 1]) {
        word_start(line, pos - 1)
    } else {
        pos
    }
}

/// Where the run of word characters that starts at index `pos` ends.
pub open spec fn word_end(line: Seq<char>, pos: int) -> int
    decreases line.len() - pos,
{
    if pos < line.len() && word_char(line[pos]) {
        word_end(line, pos + 1)
    } else {
        pos
    }
}

/// The word under the cursor: the word characters around the one at index `pos`.
/// There is none where that character is no word character, or the line ends there.
pub open spec fn cursor_word(line: Seq<char>, pos: int) -> Option<Seq<char>> {
    if 0 <= pos < line.len() && word_char(line[pos]) {
        Some(line.subrange(word_start(line, pos), word_end(line, pos)))
    } else {
        None
    }
}

/// The text between the characters at indices `s` and `e`, without surrounding
/// white space, or the word under the cursor at `s` if nothing is left of it.
pub open spec fn selected_word(line: Seq<char>, s: int, e: int) -> Option<Seq<char>> {
    if s < e && text::trimmed(line.subrange(s, e)).len() > 0 {
        Some(text::trimmed(line.subrange(s, e)))
    } else {
        cursor_word(line, s)
    }
}

/// Whether the range selects something within a single line.
pub open spec fn is_selection(range: Range) -> bool {
    range.start.line == range.end.line && range.start.character != range.end.character
}

/// The word the user is acting on in a line of text.
pub open spec fn line_word(line: Seq<char>, range: Range) -> Option<Seq<char>> {
    let start = text::utf16_index(line, range.start.character as int);
    let end = text::utf16_index(line, range.end.character as int);
    if is_selection(range) {
        match (start, end) {
            (Some(s), Some(e)) => selected_word(line, s, e),
            _ => None,
        }
    } else {
        match start {
            Some(s) => cursor_word(line, s),
            None => None,
        }
    }
}

/// The word the user is acting on in a document. There is none on a line that the
/// document does not have, or at an offset that the line does not have.
pub open spec fn content_word(content: Seq<char>, range: Range) -> Option<Seq<char>> {
    if range.start.line < text::text_lines(content).len() {
        line_word(text::text_lines(content)[range.start.line as int], range)
    } else {
        None
    }
}

/// Whether the range selects white space alone, within a single line.
pub open spec fn selects_white_space(content: Seq<char>, range: Range) -> bool {
    let line = text::text_lines(content)[range.start.line as int];
    &&& range.start.line < text::text_lines(content).len()
    &&& is_selection(range)
    &&& text::utf16_index(line, range.start.character as int) matches Some(s)
    &&& text::utf16_index(line, range.end.character as int) matches Some(e)
    &&& s < e
    &&& forall|i: int| s <= i < e ==> text::white_space(#[trigger] line[i])
}

proof fn lemma_word_start(line: Seq<char>, pos: int, a: int)
    requires
        0 <= a <= pos <= line.len(),
        forall|i: int| a <= i < pos ==> word_char(line[i]),
        a > 0 ==> !word_char(line[a - 1]),
    ensures
        word_start(line, pos) == a,
    decreases pos,
{
    if a < pos {
        lemma_word_start(line, pos - 1, a);
    }
}

proof fn lemma_word_end(line: Seq<char>, pos: int, b: int)
    requires
        0 <= pos <= b <= line.len(),
        forall|i: int| pos <= i < b ==> word_char(line[i]),
        b < line.len() ==> !word_char(line[b]),
    ensures
        word_end(line, pos) == b,
    decreases b - pos,
{
    if pos < b {
        lemma_word_end(line, pos + 1, b);
    }
}

/// The byte offset in `before` of the run of word characters at its end.
fn trailing_word(before: &str) -> (start: usize)
    ensures
        0 <= word_start(before@, before@.len() as int) <= before@.len(),
        start == text::byte_offset(before@, word_start(before@, before@.len() as int)),
{
    let mut pos: usize = 0;
    let mut start: usize = 0;
    let ghost mut a: int = 0;
    let len: usize = before.as_bytes().len();
    for c in it: before.chars()
        invariant
            it.seq() == before@,
            len == encode_utf8(before@).len(),
            pos == text::byte_offset(before@, it.index()),
            pos <= len,
            0 <= a <= it.index(),
            start == text::byte_offset(before@, a),
            forall|i: int| a <= i < it.index() ==> word_char(before@[i]),
            a > 0 ==> !word_char(before@[a - 1]),
    {
        proof {
            text::lemma_byte_offset_step(before@, it.index());
        }
        pos = pos + c.len_utf8();
        if !is_word_char(c) {
            start = pos;
            proof {
                a = it.index() + 1;
            }
        }
    }
    proof {
        lemma_word_start(before@, before@.len() as int, a);
    }
    start
}

/// The length in bytes of the run of word characters at the start of `after`.
fn leading_word(after: &str) -> (end: usize)
    ensures
        0 <= word_end(after@, 0) <= after@.len(),
        end == text::byte_offset(after@, word_end(after@, 0)),
        after@.len() > 0 && text::white_space(after@[0]) ==> word_end(after@, 0) == 0,
{
    let mut pos: usize = 0;
    let len: usize = after.as_bytes().len();
    for c in it: after.chars()
        invariant
            it.seq() == after@,
            len == encode_utf8(after@).len(),
            pos == text::byte_offset(after@, it.index()),
            pos <= len,
            forall|i: int| 0 <= i < it.index() ==> word_char(after@[i]),
            it.index() > 0 ==> !text::white_space(after@[0]),
    {
        if !is_word_char(c) {
            proof {
                lemma_word_end(after@, 0, it.index());
            }
            return pos;
        }
        proof {
            text::lemma_byte_offset_step(after@, it.index());
        }
        pos = pos + c.len_utf8();
    }
    proof {
        lemma_word_end(after@, 0, after@.len() as int);
    }
    pos
}

proof fn lemma_word_runs(line: Seq<char>, pos: int)
    requires
        0 <= pos <= line.len(),
    ensures
        word_start(line, pos) == word_start(line.take(pos), pos),
        word_end(line, pos) == pos + word_end(line.skip(pos), 0),
        0 <= word_start(line, pos) <= pos <= word_end(line, pos) <= line.len(),
        word_end(line, pos) == pos <==> !(pos < line.len() && word_char(line[pos])),
        forall|i: int| word_start(line, pos) <= i < word_end(line, pos) ==> word_char(line[i]),
        word_start(line, pos) > 0 ==> !word_char(line[word_start(line, pos) - 1]),
        word_end(line, pos) < line.len() ==> !word_char(line[word_end(line, pos)]),
{
    lemma_word_start_run(line, pos);
    lemma_word_end_run(line, pos);
    let a = word_start(line, pos);
    lemma_word_start(line.take(pos), pos, a);
    let b = word_end(line, pos);
    let rest = line.skip(pos);
    assert forall|i: int| 0 <= i < b - pos implies word_char(rest[i]) by {
        assert(rest[i] == line[pos + i]);
    }
    lemma_word_end(rest, 0, b - pos);
}

proof fn lemma_word_start_run(line: Seq<char>, pos: int)
    requires
        0 <= pos <= line.len(),
    ensures
        0 <= word_start(line, pos) <= pos,
        forall|i: int| word_start(line, pos) <= i < pos ==> word_char(line[i]),
        word_start(line, pos) > 0 ==> !word_char(line[word_start(line, pos) - 1]),
    decreases pos,
{
    if pos > 0 && word_char(line[pos - 1]) {
        lemma_word_start_run(line, pos - 1);
    }
}

proof fn lemma_word_end_run(line: Seq<char>, pos: int)
    requires
        0 <= pos <= line.len(),
    ensures
        pos <= word_end(line, pos) <= line.len(),
        forall|i: int| pos <= i < word_end(line, pos) ==> word_char(line[i]),
        word_end(line, pos) < line.len() ==> !word_char(line[word_end(line, pos)]),
    decreases line.len() - pos,
{
    if pos < line.len() && word_char(line[pos]) {
        lemma_word_end_run(line, pos + 1);
    }
}

/// The word under the cursor at byte `byte_pos` of a line, where the character at
/// index `pos` starts.
fn word_under_cursor(line: &str, byte_pos: usize, Ghost(pos): Ghost<int>) -> (r: Option<String>)
    requires
        0 <= pos <= line@.len(),
        byte_pos == text::byte_offset(line@, pos),
    ensures
        match r {
            Some(word) => cursor_word(line@, pos) == Some(word@),
            None => cursor_word(line@, pos) is None,
        },
        pos < line@.len() && text::white_space(line@[pos]) ==> r is None,
{
    let (before, after) = split_before(line, byte_pos, Ghost(pos));
    // Scan right from the cursor position to find the end of the word.
    let end: usize = leading_word(after);
    let ghost b = word_end(after@, 0);
    proof {
        lemma_word_runs(line@, pos);
        if b > 0 {
            text::lemma_byte_offset_monotone(after@, 0, b);
        }
        assert(after@.take(0) =~= Seq::<char>::empty());
    }
    // If the cursor is on a non-word character, there's nothing to highlight (cursor is on a space or punctuation).
    if end == 0 {
        return None;
    }
    // Scan left from the cursor position to find the start of the word.
    let start: usize = trailing_word(before);
    let ghost a = word_start(before@, before@.len() as int);
    let left = split_before(before, start, Ghost(a)).1;
    let right = split_before(after, end, Ghost(b)).0;
    let mut word = left.to_owned();
    word.append(right);
    proof {
        assert(word@ =~= line@.subrange(a, pos + b));
    }
    Some(word)
}

/// Helper function to return the word the user is acting on, given the cursor range from a code action request.
///
/// Two cases:
/// 1. Non-empty single-line selection: use the selected text directly.
/// 2. Cursor (empty range, or multi-line): find the word under the cursor by scanning backwards and forwards.
///
/// "Word characters" are alphanumerics plus underscore, matching `\w` in most regex flavors and covering the common
/// case of identifiers in source code.
pub fn word_at(content: &str, range: Range) -> (r: Option<String>)
    ensures
        match r {
            Some(word) => content_word(content@, range) == Some(word@),
            None => content_word(content@, range) is None,
        },
        // Selecting only white space gives nothing.
        selects_white_space(content@, range) ==> r is None,
{
    // Get the line where the cursor is. If the line is missing (shouldn't happen with valid LSP data), return None.
    let all = lines(content);
    let row: usize = range.start.line as usize;
    if row >= all.len() {
        return None;
    }
    let line = all[row];
    let byte_pos = match utf16_to_byte(line, range.start.character as usize) {
        Some(byte) => byte,
        None => return None,
    };
    let ghost pos = text::utf16_index(line@, range.start.character as int)->0;
    // Case 1: Use the non-empty single-line selection directly (multi-line selections fall through to case 2).
    if range.start.line == range.end.line && range.start.character != range.end.character {
        let byte_end = match utf16_to_byte(line, range.end.character as usize) {
            Some(byte) => byte,
            None => return None,
        };
        let ghost end = text::utf16_index(line@, range.end.character as int)->0;
        proof {
            if pos <= end {
                text::lemma_byte_offset_monotone(line@, pos, end);
            } else {
                text::lemma_byte_offset_monotone(line@, end, pos);
            }
        }
        if byte_pos < byte_end {
            let head = split_before(line, byte_end, Ghost(end)).0;
            assert(head@.take(pos) =~= line@.take(pos));
            let selection = trim(split_before(head, byte_pos, Ghost(pos)).1);
            assert(head@.skip(pos) =~= line@.subrange(pos, end));
            proof {
                if selects_white_space(content@, range) {
                    text::lemma_white_space_is_trimmed(line@.subrange(pos, end));
                }
            }
            if !selection.is_empty() {
                return Some(selection.to_owned());
            }
        }
    }
    // Case 2: Find the word under the cursor.
    word_under_cursor(line, byte_pos, Ghost(pos))
}

/// The word under the cursor is made of word characters, holds the one at the
/// cursor, and cannot be extended to either side.
pub proof fn cursor_word_is_maximal(line: Seq<char>, pos: int)
    requires
        cursor_word(line, pos) is Some,
    ensures
        0 <= word_start(line, pos) <= pos < word_end(line, pos) <= line.len(),
        forall|i: int| word_start(line, pos) <= i < word_end(line, pos) ==> word_char(line[i]),
        word_start(line, pos) > 0 ==> !word_char(line[word_start(line, pos) - 1]),
        word_end(line, pos) < line.len() ==> !word_char(line[word_end(line, pos)]),
{
    lemma_word_runs(line, pos);
}

/// Every position within a word gives the same word.
pub proof fn cursor_word_is_the_same_within_a_word(line: Seq<char>, pos: int, other: int)
    requires
        cursor_word(line, pos) is Some,
        word_start(line, pos) <= other < word_end(line, pos),
    ensures
        cursor_word(line, other) == cursor_word(line, pos),
{
    lemma_word_runs(line, pos);
    lemma_word_start(line, other, word_start(line, pos));
    lemma_word_end(line, other, word_end(line, pos));
}

/// The word under the cursor can always be highlighted.
pub proof fn cursor_word_is_highlightable(line: Seq<char>, pos: int, whole_word: bool)
    requires
        cursor_word(line, pos) is Some,
    ensures
        highlightable(cursor_word(line, pos)->0, whole_word),
{
    lemma_word_runs(line, pos);
}

/// A word character is a letter, a number or an underscore; what can be highlighted is not
/// empty and, where only whole words match, has one at either end.
pub proof fn highlightable_text_ends_in_word_characters(text: Seq<char>, c: char)
    ensures
        word_char(c) <==> alphanumeric(c) || c == '_',
        highlightable(text, false) <==> text.len() > 0,
        highlightable(text, true) <==> {
            &&& text.len() > 0
            &&& alphanumeric(text[0]) || text[0] == '_'
            &&& alphanumeric(text[text.len() - 1]) || text[text.len() - 1] == '_'
        },
{
}

/// The word around the character at an index of a line: the word characters `a..b`, which
/// no word character precedes or follows. There is none around another character.
pub open spec fn is_word_around(line: Seq<char>, pos: int, a: int, b: int) -> bool {
    &&& 0 <= a <= pos < b <= line.len()
    &&& forall|i: int| a <= i < b ==> alphanumeric(#[trigger] line[i]) || line[i] == '_'
    &&& a > 0 ==> !(alphanumeric(line[a - 1]) || line[a - 1] == '_')
    &&& b < line.len() ==> !(alphanumeric(line[b]) || line[b] == '_')
}

/// The word under the cursor is the longest run of word characters around it.
pub proof fn the_cursor_word_is_the_run_around_it(line: Seq<char>, pos: int)
    requires
        0 <= pos <= line.len(),
    ensures
        pos < line.len() && (alphanumeric(line[pos]) || line[pos] == '_') ==> exists|a: int, b: int|
            is_word_around(line, pos, a, b) && cursor_word(line, pos) == Some(
                #[trigger] line.subrange(a, b),
            ),
        !(pos < line.len() && (alphanumeric(line[pos]) || line[pos] == '_')) ==> cursor_word(
            line,
            pos,
        ) is None,
{
    lemma_word_runs(line, pos);
    if pos < line.len() && word_char(line[pos]) {
        let (a, b) = (word_start(line, pos), word_end(line, pos));
        assert forall|i: int| a <= i < b implies alphanumeric(#[trigger] line[i]) || line[i]
            == '_' by {
            assert(word_char(line[i]));
        }
        assert(is_word_around(line, pos, a, b));
        assert(cursor_word(line, pos) == Some(line.subrange(a, b)));
    }
}

/// A selection within one line that holds more than white space is used directly: the
/// word is what was selected, from its first to its last character that is not white
/// space.
pub proof fn a_selection_is_used_directly(content: Seq<char>, range: Range, s: int, e: int, at: int)
    requires
        range.start.line == range.end.line,
        range.start.line < text::text_lines(content).len(),
        0 <= s <= at < e <= text::text_lines(content)[range.start.line as int].len(),
        ({
            let line = text::text_lines(content)[range.start.line as int];
            &&& text::utf16_count(line.take(s)) == range.start.character
            &&& text::utf16_count(line.take(e)) == range.end.character
            &&& !text::white_space(line[at])
        }),
    ensures
        ({
            let line = text::text_lines(content)[range.start.line as int];
            exists|i: int, j: int|
                {
                    &&& s <= i <= at < j <= e
                    &&& content_word(content, range) == Some(#[trigger] line.subrange(i, j))
                    &&& !text::white_space(line[i]) && !text::white_space(line[j - 1])
                    &&& forall|x: int| s <= x < i ==> text::white_space(#[trigger] line[x])
                    &&& forall|x: int| j <= x < e ==> text::white_space(#[trigger] line[x])
                }
        }),
{
    let line = text::text_lines(content)[range.start.line as int];
    text::utf16_offsets_count_what_is_before(line, range.start.character as int, s);
    text::utf16_offsets_count_what_is_before(line, range.end.character as int, e);
    assert(is_selection(range)) by {
        if range.start.character == range.end.character {
            assert(Some(s) == Some(e));
        }
    }
    let i = lemma_first_dark(line, s, at);
    let j = lemma_last_dark(line, at, e);
    let (a, w, b) = (line.subrange(s, i), line.subrange(i, j), line.subrange(j, e));
    assert(line.subrange(s, e) =~= a + w + b);
    assert forall|x: int| 0 <= x < a.len() implies text::white_space(a[x]) by {
        assert(a[x] == line[s + x]);
    }
    assert forall|x: int| 0 <= x < b.len() implies text::white_space(b[x]) by {
        assert(b[x] == line[j + x]);
    }
    text::trimming_removes_surrounding_white_space(a, w, b);
    assert(content_word(content, range) == Some(line.subrange(i, j)));
}

proof fn lemma_first_dark(line: Seq<char>, s: int, at: int) -> (i: int)
    requires
        0 <= s <= at < line.len(),
        !text::white_space(line[at]),
    ensures
        s <= i <= at,
        !text::white_space(line[i]),
        forall|x: int| s <= x < i ==> text::white_space(#[trigger] line[x]),
    decreases at - s,
{
    if !text::white_space(line[s]) {
        s
    } else {
        lemma_first_dark(line, s + 1, at)
    }
}

proof fn lemma_last_dark(line: Seq<char>, at: int, e: int) -> (j: int)
    requires
        0 <= at < e <= line.len(),
        !text::white_space(line[at]),
    ensures
        at < j <= e,
        !text::white_space(line[j - 1]),
        forall|x: int| j <= x < e ==> text::white_space(#[trigger] line[x]),
    decreases e - at,
{
    if !text::white_space(line[e - 1]) {
        e
    } else {
        lemma_last_dark(line, at, e - 1)
    }
}

/// Without a selection within one line, the word is the one around the cursor, which is at
/// the start of the range.
pub proof fn a_cursor_gives_the_word_around_it(content: Seq<char>, range: Range, pos: int)
    requires
        range.start.line < text::text_lines(content).len(),
        range.start.line != range.end.line || range.start.character == range.end.character,
        0 <= pos <= text::text_lines(content)[range.start.line as int].len(),
        text::utf16_count(text::text_lines(content)[range.start.line as int].take(pos))
            == range.start.character,
    ensures
        ({
            let line = text::text_lines(content)[range.start.line as int];
            if pos < line.len() && (alphanumeric(line[pos]) || line[pos] == '_') {
                exists|a: int, b: int|
                    is_word_around(line, pos, a, b) && content_word(content, range) == Some(
                        #[trigger] line.subrange(a, b),
                    )
            } else {
                content_word(content, range) is None
            }
        }),
{
    let line = text::text_lines(content)[range.start.line as int];
    text::utf16_offsets_count_what_is_before(line, range.start.character as int, pos);
    the_cursor_word_is_the_run_around_it(line, pos);
}

/// A selection within one line that runs backwards, or holds white space alone, gives what
/// the cursor at its start gives.
pub proof fn an_unusable_selection_gives_the_cursor_word(
    content: Seq<char>,
    range: Range,
    s: int,
    e: int,
)
    requires
        range.start.line == range.end.line,
        range.start.line < text::text_lines(content).len(),
        ({
            let line = text::text_lines(content)[range.start.line as int];
            &&& 0 <= s <= line.len()
            &&& 0 <= e <= line.len()
            &&& text::utf16_count(line.take(s)) == range.start.character
            &&& text::utf16_count(line.take(e)) == range.end.character
            &&& e <= s || forall|x: int| s <= x < e ==> text::white_space(#[trigger] line[x])
        }),
    ensures
        content_word(content, range) == content_word(
            content,
            Range { start: range.start, end: range.start },
        ),
{
    let line = text::text_lines(content)[range.start.line as int];
    text::utf16_offsets_count_what_is_before(line, range.start.character as int, s);
    text::utf16_offsets_count_what_is_before(line, range.end.character as int, e);
    if s < e {
        let selected = line.subrange(s, e);
        assert forall|x: int| 0 <= x < selected.len() implies text::white_space(selected[x]) by {
            assert(selected[x] == line[s + x]);
        }
        text::lemma_white_space_is_trimmed(selected);
    }
}

/// There is no word on a line that the document does not have, nor where no character
/// starts at the offset of the cursor, or of the end of a selection within one line.
pub proof fn there_is_no_word_outside_the_text(content: Seq<char>, range: Range)
    requires
        range.start.line >= text::text_lines(content).len() || {
            let line = text::text_lines(content)[range.start.line as int];
            ||| forall|k: int|
                0 <= k <= line.len() ==> text::utf16_count(#[trigger] line.take(k))
                    != range.start.character
            ||| range.start.line == range.end.line && forall|k: int|
                0 <= k <= line.len() ==> text::utf16_count(#[trigger] line.take(k))
                    != range.end.character
        },
    ensures
        content_word(content, range) is None,
{
    if range.start.line < text::text_lines(content).len() {
        let line = text::text_lines(content)[range.start.line as int];
        text::utf16_offsets_count_what_is_before(line, range.start.character as int, 0);
        text::utf16_offsets_count_what_is_before(line, range.end.character as int, 0);
    }
}

} // verus!
