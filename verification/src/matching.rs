//! Finding a word in a text, by way of the `regex` crate.

use regex::{Regex, RegexBuilder};
use vstd::prelude::*;

use crate::text;
use crate::text::lines;
use crate::words;
use crate::words::is_highlightable;

verus! {

broadcast use vstd::seq::group_seq_axioms;

/// A compiled regex.
#[verifier::external_type_specification]
#[verifier::external_body]
pub struct ExRegex(Regex);

/// Why a regex could not be built.
#[verifier::external_type_specification]
#[verifier::external_body]
pub struct ExRegexError(regex::Error);

/// The characters that have a meaning of their own in a pattern.
pub open spec fn is_meta(c: char) -> bool {
    ||| c == '\\' || c == '.' || c == '+' || c == '*' || c == '?' || c == '(' || c == ')'
    ||| c == '|' || c == '[' || c == ']' || c == '{' || c == '}' || c == '^' || c == '$'
    ||| c == '#' || c == '&' || c == '-' || c == '~'
}

/// `text` with a backslash before each of its meta characters: the pattern that
/// matches it literally.
pub open spec fn escaped(text: Seq<char>) -> Seq<char>
    decreases text.len(),
{
    if text.len() == 0 {
        seq![]
    } else if is_meta(text.last()) {
        escaped(text.drop_last()) + seq!['\\', text.last()]
    } else {
        escaped(text.drop_last()) + seq![text.last()]
    }
}

/// [`regex::escape`] puts a backslash before each meta character of `pattern`.
pub assume_specification[ regex::escape ](pattern: &str) -> (r: String)
    ensures
        r@ == escaped(pattern@),
;

/// The word boundary assertion.
pub open spec fn boundary_assertion() -> Seq<char> {
    seq!['\\', 'b']
}

/// The pattern for a word: its text, taken literally, between word boundaries
/// where only whole words are to match.
pub open spec fn word_pattern(word: Seq<char>, whole_word: bool) -> Seq<char> {
    if whole_word {
        boundary_assertion() + escaped(word) + boundary_assertion()
    } else {
        escaped(word)
    }
}

/// A pattern that matches nothing: an empty character class.
pub open spec fn empty_class() -> Seq<char> {
    seq!['[', 'a', '&', '&', 'b', ']']
}

/// The pattern that a regex was built from.
pub uninterp spec fn regex_pattern(re: Regex) -> Seq<char>;

/// Whether a regex was built to ignore case.
pub uninterp spec fn regex_ignores_case(re: Regex) -> bool;

/// Whether a regex, built from `pattern` with or without regard to case, matches
/// somewhere in `text`.
pub uninterp spec fn regex_matches(pattern: Seq<char>, ignore_case: bool, text: Seq<char>) -> bool;

/// The regex was built for the given word under the given matching rules.
pub open spec fn is_regex_of(
    re: Regex,
    word: Seq<char>,
    whole_word: bool,
    ignore_case: bool,
) -> bool {
    &&& regex_pattern(re) == word_pattern(word, whole_word)
    &&& regex_ignores_case(re) == ignore_case
}

/// The regex was built to match nothing.
pub open spec fn is_never_regex(re: Regex, ignore_case: bool) -> bool {
    &&& regex_pattern(re) == empty_class()
    &&& regex_ignores_case(re) == ignore_case
}

/// The regex was built for some word that is not empty.
pub open spec fn is_word_regex(re: Regex) -> bool {
    exists|word: Seq<char>, whole_word: bool|
        word.len() > 0 && regex_pattern(re) == #[trigger] word_pattern(word, whole_word)
}

/// Whether `c` belongs to the class of word characters of a pattern, `\w`.
pub open spec fn in_word_class(c: char) -> bool {
    regex_matches(seq!['\\', 'w'], false, seq![c])
}

/// Whether the character `c` of a text stands for the character `a` of a word.
pub open spec fn same_char(a: char, c: char, ignore_case: bool) -> bool {
    a == c || (ignore_case && regex_matches(escaped(seq![a]), true, seq![c]))
}

/// The text of the word stands at index `i` of the line.
pub open spec fn occurs_at(word: Seq<char>, ignore_case: bool, line: Seq<char>, i: int) -> bool {
    &&& 0 <= i
    &&& i + word.len() <= line.len()
    &&& forall|j: int|
        0 <= j < word.len() ==> same_char(#[trigger] word[j], line[i + j], ignore_case)
}

/// Index `i` of the line is a word boundary: there is a word character on exactly
/// one side of it.
pub open spec fn at_boundary(line: Seq<char>, i: int) -> bool {
    (i > 0 && in_word_class(line[i - 1])) != (i < line.len() && in_word_class(line[i]))
}

/// The word matches at index `i` of the line under the given matching rules.
pub open spec fn match_at(
    word: Seq<char>,
    whole_word: bool,
    ignore_case: bool,
    line: Seq<char>,
    i: int,
) -> bool {
    &&& occurs_at(word, ignore_case, line, i)
    &&& whole_word ==> at_boundary(line, i) && at_boundary(line, i + word.len())
}

/// The word matches somewhere in the line.
pub open spec fn has_match(
    word: Seq<char>,
    whole_word: bool,
    ignore_case: bool,
    line: Seq<char>,
) -> bool {
    exists|i: int| match_at(word, whole_word, ignore_case, line, i)
}

/// The first index of the line, from index `from` on, at which the word matches.
pub open spec fn first_match(
    word: Seq<char>,
    whole_word: bool,
    ignore_case: bool,
    line: Seq<char>,
    from: int,
) -> Option<int>
    decreases line.len() + 1 - from,
{
    if from > line.len() {
        None
    } else if match_at(word, whole_word, ignore_case, line, from) {
        Some(from)
    } else {
        first_match(word, whole_word, ignore_case, line, from + 1)
    }
}

/// The indices of the line at which the successive matches of a word start: the
/// first from index `from` on, then the first behind it, and so on.
pub open spec fn matches_from(
    word: Seq<char>,
    whole_word: bool,
    ignore_case: bool,
    line: Seq<char>,
    from: int,
) -> Seq<int>
    decreases line.len() - from,
    via matches_from_decreases
{
    match first_match(word, whole_word, ignore_case, line, from) {
        Some(i) if word.len() > 0 => seq![i] + matches_from(
            word,
            whole_word,
            ignore_case,
            line,
            i + word.len(),
        ),
        _ => seq![],
    }
}

#[via_fn]
proof fn matches_from_decreases(
    word: Seq<char>,
    whole_word: bool,
    ignore_case: bool,
    line: Seq<char>,
    from: int,
) {
    lemma_first_match(word, whole_word, ignore_case, line, from);
}

/// The indices of the line at which the successive matches of a word start.
pub open spec fn word_matches(
    word: Seq<char>,
    whole_word: bool,
    ignore_case: bool,
    line: Seq<char>,
) -> Seq<int> {
    matches_from(word, whole_word, ignore_case, line, 0)
}

proof fn lemma_first_match(
    word: Seq<char>,
    whole_word: bool,
    ignore_case: bool,
    line: Seq<char>,
    from: int,
)
    ensures
        match first_match(word, whole_word, ignore_case, line, from) {
            Some(i) => {
                &&& from <= i
                &&& match_at(word, whole_word, ignore_case, line, i)
                &&& forall|j: int|
                    from <= j < i ==> !match_at(word, whole_word, ignore_case, line, j)
            },
            None => forall|j: int|
                from <= j ==> !match_at(word, whole_word, ignore_case, line, j),
        },
    decreases line.len() + 1 - from,
{
    if from <= line.len() && !match_at(word, whole_word, ignore_case, line, from) {
        lemma_first_match(word, whole_word, ignore_case, line, from + 1);
    }
}

/// The byte offsets at which the matches of a word start and end.
pub open spec fn byte_spans(line: Seq<char>, starts: Seq<int>, len: int) -> Seq<(usize, usize)> {
    starts.map_values(
        |i: int|
            (text::byte_offset(line, i) as usize, text::byte_offset(line, i + len) as usize),
    )
}

/// A word that is short enough for its pattern to be built on any machine.
pub open spec fn is_short(word: Seq<char>) -> bool {
    word.len() <= 10000
}

/// Builds a regex with [`regex::RegexBuilder`]. The regex remembers the pattern
/// and the flag.
///
/// The pattern for a word is always well-formed, so it is refused only if the compiled
/// program is larger than the default size limit of 10 MiB. For a short word that
/// leaves over 1,000 bytes to each character. What a character takes is one state for
/// each byte of its UTF-8 encoding, or, if case is ignored, of that of each of the at
/// most four characters it stands for, and at most two states that join these. A state
/// takes 32 bytes, or 16 on a 32-bit machine, and 8 more for a transition: 18 states and
/// 16 transitions are 704 bytes. So a short word is never refused, nor is the empty class,
/// which is a single state. Whether a longer word or another pattern is refused is left
/// open: that depends on the machine.
#[verifier::external_body]
fn build_regex(pattern: &str, ignore_case: bool) -> (r: Result<Regex, regex::Error>)
    ensures
        r matches Ok(re) ==> regex_pattern(re) == pattern@ && regex_ignores_case(re) == ignore_case,
        forall|word: Seq<char>, whole_word: bool|
            is_short(word) && pattern@ == #[trigger] word_pattern(word, whole_word) ==> r is Ok,
        pattern@ == empty_class() ==> r is Ok,
{
    RegexBuilder::new(pattern).case_insensitive(ignore_case).build()
}

/// [`Regex::is_match`] tells whether there is a match anywhere in the text; its
/// value is named [`regex_matches`]. The pattern for a word matches where the
/// characters of the word stand one after the other, each up to simple case folding
/// if case is ignored, and between two word boundaries if the pattern asks for them. An
/// empty character class matches nothing.
pub assume_specification[ Regex::is_match ](re: &Regex, haystack: &str) -> (r: bool)
    ensures
        r == regex_matches(regex_pattern(*re), regex_ignores_case(*re), haystack@),
        forall|word: Seq<char>, whole_word: bool|
            regex_pattern(*re) == #[trigger] word_pattern(word, whole_word) ==> r == has_match(
                word,
                whole_word,
                regex_ignores_case(*re),
                haystack@,
            ),
        regex_pattern(*re) == empty_class() ==> !r,
;

/// The spans of the matches that [`Regex::find_iter`] yields: the successive
/// non-overlapping matches, each the first one behind the match before it, as byte
/// offsets.
#[verifier::external_body]
pub(crate) fn find_all(re: &Regex, haystack: &str) -> (r: Vec<(usize, usize)>)
    requires
        is_word_regex(*re),
    ensures
        forall|word: Seq<char>, whole_word: bool|
            word.len() > 0 && regex_pattern(*re) == #[trigger] word_pattern(word, whole_word)
                ==> r@ == byte_spans(
                haystack@,
                word_matches(word, whole_word, regex_ignores_case(*re), haystack@),
                word.len() as int,
            ),
{
    re.find_iter(haystack).map(|m| (m.start(), m.end())).collect()
}

/// The pattern for a word: the word is escaped first so that punctuation is treated literally, and put between
/// word-boundary assertions in `whole_word` mode.
pub fn pattern_for(word: &str, whole_word: bool) -> (r: String)
    ensures
        r@ == word_pattern(word@, whole_word),
{
    // Treat the word as a literal string by escaping it.
    let escaped_word = regex::escape(word);
    if whole_word {
        // The word-boundary assertion prevents "for" from matching inside "format".
        proof {
            reveal_strlit("\\b");
            assert("\\b"@ =~= boundary_assertion());
        }
        "\\b".to_owned().concat(escaped_word.as_str()).concat("\\b")
    } else {
        escaped_word
    }
}

/// Whether a word may match at all: where only whole words match, its first and last
/// characters have to be word characters.
pub open spec fn may_match(word: Seq<char>, whole_word: bool) -> bool {
    whole_word && word.len() > 0 ==> words::highlightable(word, true)
}

/// Helper function to compile a regex for a given word, escaping it first so that punctuation is treated literally, and
/// respecting the `whole_word` and `ignore_case` flags.
///
/// In `whole_word` mode a word whose first or last character is not a word character compiles into a regex that never
/// matches.
///
/// Returns `None` if the pattern fails to compile (unlikely for an escaped literal, and only if it is a long one).
pub fn compile_word_regex(word: &str, whole_word: bool, ignore_case: bool) -> (r: Option<Regex>)
    ensures
        r matches Some(re) ==> if may_match(word@, whole_word) {
            is_regex_of(re, word@, whole_word, ignore_case)
        } else {
            is_never_regex(re, ignore_case)
        },
        is_short(word@) || !may_match(word@, whole_word) ==> r is Some,
{
    let pattern = if whole_word && !word.is_empty() && !is_highlightable(word, true) {
        // Between word characters, the word-boundary assertions would also match punctuation.
        proof {
            reveal_strlit("[a&&b]");
            assert("[a&&b]"@ =~= empty_class());
        }
        "[a&&b]".to_owned()
    } else {
        pattern_for(word, whole_word)
    };
    build_regex(pattern.as_str(), ignore_case).ok()
}

/// The word matches in some line of the content.
pub open spec fn content_has_match(
    word: Seq<char>,
    whole_word: bool,
    ignore_case: bool,
    content: Seq<char>,
) -> bool {
    exists|l: int|
        0 <= l < text::text_lines(content).len() && has_match(
            word,
            whole_word,
            ignore_case,
            #[trigger] text::text_lines(content)[l],
        )
}

/// The word produces at least one visible highlight in the content, where it is not
/// empty: it may match, and matches in some line.
pub open spec fn matches_content(
    word: Seq<char>,
    whole_word: bool,
    ignore_case: bool,
    content: Seq<char>,
) -> bool {
    may_match(word, whole_word) && content_has_match(word, whole_word, ignore_case, content)
}

/// `r` tells whether the regex matches in some line of the content. For the regex of a
/// word that is so where the word matches, and for one that never matches it is not.
pub open spec fn tells_line_match(re: Regex, content: Seq<char>, r: bool) -> bool {
    &&& r == exists|l: int|
        0 <= l < text::text_lines(content).len() && regex_matches(
            regex_pattern(re),
            regex_ignores_case(re),
            #[trigger] text::text_lines(content)[l],
        )
    &&& forall|word: Seq<char>, whole_word: bool|
        regex_pattern(re) == #[trigger] word_pattern(word, whole_word) ==> r == content_has_match(
            word,
            whole_word,
            regex_ignores_case(re),
            content,
        )
    &&& regex_pattern(re) == empty_class() ==> !r
}

/// Whether there is a regex and it matches in some line of the content.
pub fn any_line_matches(compiled: &Option<Regex>, content: &str) -> (r: bool)
    ensures
        match *compiled {
            Some(re) => tells_line_match(re, content@, r),
            None => !r,
        },
{
    let re = match compiled {
        Some(re) => re,
        None => return false,
    };
    let all = lines(content);
    let ghost texts = text::text_lines(content@);
    for l in 0..all.len()
        invariant
            texts == text::text_lines(content@),
            all@.len() == texts.len(),
            forall|i: int| 0 <= i < all@.len() ==> (#[trigger] all@[i])@ == texts[i],
            *compiled == Some(*re),
            forall|i: int|
                0 <= i < l ==> !regex_matches(
                    regex_pattern(*re),
                    regex_ignores_case(*re),
                    #[trigger] texts[i],
                ),
            forall|word: Seq<char>, whole_word: bool, i: int|
                0 <= i < l && regex_pattern(*re) == #[trigger] word_pattern(word, whole_word)
                    ==> !has_match(word, whole_word, regex_ignores_case(*re), #[trigger] texts[i]),
    {
        assert(all@[l as int]@ == texts[l as int]);
        if re.is_match(all[l]) {
            assert(tells_line_match(*re, content@, true));
            return true;
        }
    }
    assert(tells_line_match(*re, content@, false));
    false
}

/// Helper function to check whether a given text produces at least one visible highlight in the current document under
/// the current matching rules. We do not match in all open documents.
///
/// This is the strongest predicate we can use to decide if a code action menu entry is worth showing: it asks the
/// exact question whose answer determines whether the user would see anything change after toggling, at a somewhat
/// negligible performance cost.
///
/// A text whose regex fails to compile, which is a long one, matches nowhere.
pub fn matches_anywhere(content: &str, text: &str, whole_word: bool, ignore_case: bool) -> (r: bool)
    ensures
        is_short(text@) ==> r == matches_content(text@, whole_word, ignore_case, content@),
        r ==> matches_content(text@, whole_word, ignore_case, content@),
{
    let compiled = compile_word_regex(text, whole_word, ignore_case);
    any_line_matches(&compiled, content)
}

/// Index `i` lies within one of the matches, of length `len`, that start at the
/// given indices.
pub open spec fn is_covered(starts: Seq<int>, len: int, i: int) -> bool {
    exists|k: int| 0 <= k < starts.len() && (#[trigger] starts[k]) <= i < starts[k] + len
}

proof fn lemma_matches_from_match(
    word: Seq<char>,
    whole_word: bool,
    ignore_case: bool,
    line: Seq<char>,
    from: int,
    k: int,
)
    requires
        0 <= k < matches_from(word, whole_word, ignore_case, line, from).len(),
    ensures
        from <= matches_from(word, whole_word, ignore_case, line, from)[k],
        match_at(
            word,
            whole_word,
            ignore_case,
            line,
            matches_from(word, whole_word, ignore_case, line, from)[k],
        ),
    decreases k,
{
    lemma_first_match(word, whole_word, ignore_case, line, from);
    if k > 0 {
        let f = first_match(word, whole_word, ignore_case, line, from)->0;
        let next = f + word.len() as int;
        lemma_matches_from_match(word, whole_word, ignore_case, line, next, k - 1);
        assert(matches_from(word, whole_word, ignore_case, line, from)[k] == matches_from(
            word,
            whole_word,
            ignore_case,
            line,
            next,
        )[k - 1]);
    }
}

proof fn lemma_matches_from_order(
    word: Seq<char>,
    whole_word: bool,
    ignore_case: bool,
    line: Seq<char>,
    from: int,
    j: int,
    k: int,
)
    requires
        0 <= j < k < matches_from(word, whole_word, ignore_case, line, from).len(),
    ensures
        matches_from(word, whole_word, ignore_case, line, from)[j] + word.len() <= matches_from(
            word,
            whole_word,
            ignore_case,
            line,
            from,
        )[k],
    decreases j,
{
    lemma_first_match(word, whole_word, ignore_case, line, from);
    let m = matches_from(word, whole_word, ignore_case, line, from);
    let f = first_match(word, whole_word, ignore_case, line, from)->0;
    let next = f + word.len() as int;
    let rest = matches_from(word, whole_word, ignore_case, line, next);
    assert(m[k] == rest[k - 1]);
    if j > 0 {
        lemma_matches_from_order(word, whole_word, ignore_case, line, next, j - 1, k - 1);
        assert(m[j] == rest[j - 1]);
    } else {
        lemma_matches_from_match(word, whole_word, ignore_case, line, next, k - 1);
    }
}

proof fn lemma_matches_from_cover(
    word: Seq<char>,
    whole_word: bool,
    ignore_case: bool,
    line: Seq<char>,
    from: int,
    i: int,
)
    requires
        word.len() > 0,
        from <= i,
        match_at(word, whole_word, ignore_case, line, i),
    ensures
        is_covered(
            matches_from(word, whole_word, ignore_case, line, from),
            word.len() as int,
            i,
        ),
    decreases i - from,
{
    lemma_first_match(word, whole_word, ignore_case, line, from);
    let m = matches_from(word, whole_word, ignore_case, line, from);
    let f = first_match(word, whole_word, ignore_case, line, from)->0;
    let next = f + word.len() as int;
    if i < next {
        assert(m[0] <= i < m[0] + word.len());
    } else {
        let rest = matches_from(word, whole_word, ignore_case, line, next);
        lemma_matches_from_cover(word, whole_word, ignore_case, line, next, i);
        let k = choose|k: int|
            0 <= k < rest.len() && (#[trigger] rest[k]) <= i < rest[k] + word.len();
        assert(m[k + 1] == rest[k]);
    }
}

/// A word is matched only where it occurs, under the matching rules.
pub proof fn matches_are_occurrences(
    word: Seq<char>,
    whole_word: bool,
    ignore_case: bool,
    line: Seq<char>,
    k: int,
)
    requires
        0 <= k < word_matches(word, whole_word, ignore_case, line).len(),
    ensures
        match_at(
            word,
            whole_word,
            ignore_case,
            line,
            word_matches(word, whole_word, ignore_case, line)[k],
        ),
{
    lemma_matches_from_match(word, whole_word, ignore_case, line, 0, k);
}

/// The matches of a word in a line are in ascending order and do not overlap.
pub proof fn matches_do_not_overlap(
    word: Seq<char>,
    whole_word: bool,
    ignore_case: bool,
    line: Seq<char>,
    j: int,
    k: int,
)
    requires
        0 <= j < k < word_matches(word, whole_word, ignore_case, line).len(),
    ensures
        word_matches(word, whole_word, ignore_case, line)[j] + word.len() <= word_matches(
            word,
            whole_word,
            ignore_case,
            line,
        )[k],
{
    lemma_matches_from_order(word, whole_word, ignore_case, line, 0, j, k);
}

/// Every occurrence of a word is highlighted: it starts within a match.
pub proof fn every_occurrence_is_matched(
    word: Seq<char>,
    whole_word: bool,
    ignore_case: bool,
    line: Seq<char>,
    i: int,
)
    requires
        word.len() > 0,
        match_at(word, whole_word, ignore_case, line, i),
    ensures
        is_covered(
            word_matches(word, whole_word, ignore_case, line),
            word.len() as int,
            i,
        ),
{
    lemma_matches_from_cover(word, whole_word, ignore_case, line, 0, i);
}

/// A word that is not empty has a match in a line if and only if something in the
/// line is highlighted for it.
pub proof fn a_match_is_visible(
    word: Seq<char>,
    whole_word: bool,
    ignore_case: bool,
    line: Seq<char>,
)
    requires
        word.len() > 0,
    ensures
        has_match(word, whole_word, ignore_case, line) <==> word_matches(
            word,
            whole_word,
            ignore_case,
            line,
        ).len() > 0,
{
    if word_matches(word, whole_word, ignore_case, line).len() > 0 {
        matches_are_occurrences(word, whole_word, ignore_case, line, 0);
    }
    if has_match(word, whole_word, ignore_case, line) {
        let i = choose|i: int| match_at(word, whole_word, ignore_case, line, i);
        every_occurrence_is_matched(word, whole_word, ignore_case, line, i);
    }
}

/// Where only whole words match, a match that starts with a word character has none
/// before it, and one that ends with a word character has none behind it: "for" does
/// not match inside "format".
pub proof fn whole_word_excludes_substrings(
    word: Seq<char>,
    ignore_case: bool,
    line: Seq<char>,
    i: int,
)
    requires
        word.len() > 0,
        match_at(word, true, ignore_case, line, i),
    ensures
        in_word_class(line[i]) && i > 0 ==> !in_word_class(line[i - 1]),
        in_word_class(line[i + word.len() - 1]) && i + word.len() < line.len() ==> !in_word_class(
            line[i + word.len()],
        ),
{
}

/// Where only whole words match, a text whose first or last character is not a word
/// character matches nowhere.
pub proof fn only_highlightable_text_matches(
    word: Seq<char>,
    ignore_case: bool,
    content: Seq<char>,
)
    requires
        word.len() > 0,
        !words::highlightable(word, true),
    ensures
        !matches_content(word, true, ignore_case, content),
{
}

proof fn lemma_lines_of_joined(a: Seq<char>, b: Seq<char>)
    requires
        a.len() > 0 ==> a.last() != '\r',
    ensures
        ({
            let joined = text::text_lines(a + seq!['\n'] + b);
            let lines = text::text_lines(a);
            ||| joined == lines + text::text_lines(b)
            ||| joined == lines + seq![Seq::<char>::empty()] + text::text_lines(b)
        }),
    decreases a.len(),
{
    let whole = a + seq!['\n'] + b;
    let n = text::newline_index(a);
    text::lemma_newline_index(a);
    if n == a.len() {
        text::lemma_newline_index_is(whole, n);
        assert(whole.take(n) =~= a);
        assert(whole.skip(n + 1) =~= b);
        if a.len() == 0 {
            assert(a =~= Seq::<char>::empty());
            assert(text::text_lines(a) =~= Seq::<Seq<char>>::empty());
            assert(seq![a] + text::text_lines(b) =~= text::text_lines(a) + seq![Seq::empty()]
                + text::text_lines(b));
        }
    } else {
        text::lemma_newline_index_is(whole, n);
        let rest = a.skip(n + 1);
        assert(whole.take(n) =~= a.take(n));
        assert(whole.skip(n + 1) =~= rest + seq!['\n'] + b);
        assert(rest.len() > 0 ==> rest.last() == a.last());
        lemma_lines_of_joined(rest, b);
        let first = seq![text::without_carriage_return(a.take(n))];
        assert(text::text_lines(whole) == first + text::text_lines(rest + seq!['\n'] + b));
        assert(first + (text::text_lines(rest) + text::text_lines(b)) =~= text::text_lines(a)
            + text::text_lines(b));
        assert(first + (text::text_lines(rest) + seq![Seq::<char>::empty()] + text::text_lines(b))
            =~= text::text_lines(a) + seq![Seq::<char>::empty()] + text::text_lines(b));
    }
}

/// No match spans lines: a text matches in two texts joined by a line feed if and only
/// if it matches in one of them. A carriage return before the line feed would belong to
/// the line ending.
pub proof fn no_match_spans_lines(
    word: Seq<char>,
    whole_word: bool,
    ignore_case: bool,
    a: Seq<char>,
    b: Seq<char>,
)
    requires
        word.len() > 0,
        a.len() > 0 ==> a.last() != '\r',
    ensures
        matches_content(word, whole_word, ignore_case, a + seq!['\n'] + b) <==> matches_content(
            word,
            whole_word,
            ignore_case,
            a,
        ) || matches_content(word, whole_word, ignore_case, b),
{
    lemma_no_match_spans_lines(word, whole_word, ignore_case, a, b);
}

proof fn lemma_no_match_spans_lines(
    word: Seq<char>,
    whole_word: bool,
    ignore_case: bool,
    a: Seq<char>,
    b: Seq<char>,
)
    requires
        word.len() > 0,
        a.len() > 0 ==> a.last() != '\r',
    ensures
        content_has_match(word, whole_word, ignore_case, a + seq!['\n'] + b)
            <==> content_has_match(word, whole_word, ignore_case, a) || content_has_match(
            word,
            whole_word,
            ignore_case,
            b,
        ),
{
    lemma_lines_of_joined(a, b);
    let joined = text::text_lines(a + seq!['\n'] + b);
    let (la, lb) = (text::text_lines(a), text::text_lines(b));
    let gap: int = if joined == la + lb {
        0
    } else {
        1
    };
    assert(forall|l: int| 0 <= l < la.len() ==> joined[l] == la[l]);
    assert(forall|l: int| 0 <= l < lb.len() ==> joined[la.len() + gap + l] == lb[l]);
    assert(!has_match(word, whole_word, ignore_case, Seq::<char>::empty()));
    if content_has_match(word, whole_word, ignore_case, a + seq!['\n'] + b) {
        let l = choose|l: int|
            0 <= l < joined.len() && has_match(word, whole_word, ignore_case, #[trigger] joined[l]);
        if l < la.len() {
            assert(has_match(word, whole_word, ignore_case, la[l]));
        } else if l >= la.len() + gap {
            assert(has_match(word, whole_word, ignore_case, lb[l - la.len() - gap]));
        }
    }
    if content_has_match(word, whole_word, ignore_case, a) {
        let l = choose|l: int|
            0 <= l < la.len() && has_match(word, whole_word, ignore_case, #[trigger] la[l]);
        assert(has_match(word, whole_word, ignore_case, joined[l]));
    }
    if content_has_match(word, whole_word, ignore_case, b) {
        let l = choose|l: int|
            0 <= l < lb.len() && has_match(word, whole_word, ignore_case, #[trigger] lb[l]);
        assert(has_match(word, whole_word, ignore_case, joined[la.len() + gap + l]));
    }
}

/// No match of a regex for a word spans lines: it matches in two texts joined by a line
/// feed if and only if it matches in one of them, however long the word is. The answers
/// are those of [`any_line_matches`] for the same regex.
pub proof fn no_match_of_a_regex_spans_lines(
    re: Regex,
    a: Seq<char>,
    b: Seq<char>,
    in_joined: bool,
    in_a: bool,
    in_b: bool,
)
    requires
        is_word_regex(re),
        a.len() > 0 ==> a.last() != '\r',
        tells_line_match(re, a + seq!['\n'] + b, in_joined),
        tells_line_match(re, a, in_a),
        tells_line_match(re, b, in_b),
    ensures
        in_joined == (in_a || in_b),
{
    let (word, whole_word) = choose|word: Seq<char>, whole_word: bool|
        word.len() > 0 && regex_pattern(re) == #[trigger] word_pattern(word, whole_word);
    lemma_no_match_spans_lines(word, whole_word, regex_ignores_case(re), a, b);
}

/// Of two regexes for the same word, however long it is, the one for parts of words
/// matches wherever the one for whole words does, and the one without regard to case
/// wherever the one with regard to case does. The answers are those of
/// [`any_line_matches`].
pub proof fn looser_regexes_match_more(
    strict: Regex,
    loose: Regex,
    word: Seq<char>,
    whole_word: bool,
    loose_whole_word: bool,
    ignore_case: bool,
    loose_ignore_case: bool,
    content: Seq<char>,
    in_strict: bool,
    in_loose: bool,
)
    requires
        loose_whole_word ==> whole_word,
        ignore_case ==> loose_ignore_case,
        is_regex_of(strict, word, whole_word, ignore_case),
        is_regex_of(loose, word, loose_whole_word, loose_ignore_case),
        tells_line_match(strict, content, in_strict),
        tells_line_match(loose, content, in_loose),
    ensures
        in_strict ==> in_loose,
{
    assert(in_strict == content_has_match(word, whole_word, ignore_case, content));
    assert(in_loose == content_has_match(word, loose_whole_word, loose_ignore_case, content));
    lemma_looser_rules(word, whole_word, ignore_case, content);
    lemma_looser_rules(word, loose_whole_word, ignore_case, content);
}

/// Each looser rule matches more: a text that matches as a whole word also matches as a
/// part of a word, and one that matches with regard to case also matches without.
pub proof fn looser_rules_match_more(
    word: Seq<char>,
    whole_word: bool,
    ignore_case: bool,
    content: Seq<char>,
)
    ensures
        matches_content(word, true, ignore_case, content) ==> matches_content(
            word,
            false,
            ignore_case,
            content,
        ),
        matches_content(word, whole_word, false, content) ==> matches_content(
            word,
            whole_word,
            true,
            content,
        ),
{
    lemma_looser_rules(word, whole_word, ignore_case, content);
}

proof fn lemma_looser_rules(
    word: Seq<char>,
    whole_word: bool,
    ignore_case: bool,
    content: Seq<char>,
)
    ensures
        content_has_match(word, true, ignore_case, content) ==> content_has_match(
            word,
            false,
            ignore_case,
            content,
        ),
        content_has_match(word, whole_word, false, content) ==> content_has_match(
            word,
            whole_word,
            true,
            content,
        ),
{
    let lines = text::text_lines(content);
    assert forall|l: int| 0 <= l < lines.len() && has_match(
        word,
        true,
        ignore_case,
        #[trigger] lines[l],
    ) implies has_match(word, false, ignore_case, lines[l]) by {
        let i = choose|i: int| match_at(word, true, ignore_case, lines[l], i);
        substrings_match_more(word, ignore_case, lines[l], i);
    }
    assert forall|l: int| 0 <= l < lines.len() && has_match(
        word,
        whole_word,
        false,
        #[trigger] lines[l],
    ) implies has_match(word, whole_word, true, lines[l]) by {
        let i = choose|i: int| match_at(word, whole_word, false, lines[l], i);
        ignoring_case_matches_more(word, whole_word, lines[l], i);
    }
}

/// Without regard to case a word matches wherever it matches with regard to case.
pub proof fn ignoring_case_matches_more(
    word: Seq<char>,
    whole_word: bool,
    line: Seq<char>,
    i: int,
)
    requires
        match_at(word, whole_word, false, line, i),
    ensures
        match_at(word, whole_word, true, line, i),
{
}

/// A whole word matches wherever it matches as such also as a part of a word.
pub proof fn substrings_match_more(word: Seq<char>, ignore_case: bool, line: Seq<char>, i: int)
    requires
        match_at(word, true, ignore_case, line, i),
    ensures
        match_at(word, false, ignore_case, line, i),
{
}

proof fn lemma_escaped_first(a: Seq<char>)
    ensures
        a.len() == 0 ==> escaped(a).len() == 0,
        a.len() > 0 ==> escaped(a).len() > 0,
        a.len() > 0 && escaped(a)[0] == '\\' ==> escaped(a).len() > 1 && is_meta(escaped(a)[1]),
    decreases a.len(),
{
    if a.len() > 0 {
        lemma_escaped_first(a.drop_last());
    }
}

proof fn lemma_escaping_is_injective(a: Seq<char>, b: Seq<char>)
    requires
        escaped(a) == escaped(b),
    ensures
        a == b,
    decreases a.len(),
{
    assert(a.len() > 0 ==> escaped(a).len() > 0 && escaped(a).last() == a.last());
    assert(b.len() > 0 ==> escaped(b).len() > 0 && escaped(b).last() == b.last());
    if a.len() > 0 && b.len() > 0 {
        let e = escaped(a);
        let n: int = if is_meta(a.last()) {
            2
        } else {
            1
        };
        assert(escaped(a.drop_last()) =~= e.take(e.len() - n));
        assert(escaped(b.drop_last()) =~= e.take(e.len() - n));
        lemma_escaping_is_injective(a.drop_last(), b.drop_last());
        assert(a =~= a.drop_last().push(a.last()));
        assert(b =~= b.drop_last().push(b.last()));
    } else {
        assert(a =~= b);
    }
}

/// A pattern tells the word that it is for, and whether only whole words match.
pub proof fn word_pattern_is_injective(
    a: Seq<char>,
    a_whole_word: bool,
    b: Seq<char>,
    b_whole_word: bool,
)
    requires
        word_pattern(a, a_whole_word) == word_pattern(b, b_whole_word),
    ensures
        a == b,
        a_whole_word == b_whole_word,
{
    let (p, q) = (word_pattern(a, a_whole_word), word_pattern(b, b_whole_word));
    assert(a_whole_word ==> p[0] == '\\' && p[1] == 'b');
    assert(b_whole_word ==> q[0] == '\\' && q[1] == 'b');
    lemma_escaped_first(a);
    lemma_escaped_first(b);
    if a_whole_word && b_whole_word {
        assert(escaped(a) =~= p.subrange(2, p.len() - 2));
        assert(escaped(b) =~= q.subrange(2, q.len() - 2));
    }
    lemma_escaping_is_injective(a, b);
}

/// The text stands in the line from index `i` on, character for character or, where case
/// is ignored, with characters that the regex for the single character matches; where only
/// whole words match, each end of it lies between a word character and something else.
pub open spec fn stands_at(
    word: Seq<char>,
    whole_word: bool,
    ignore_case: bool,
    line: Seq<char>,
    i: int,
) -> bool {
    let j = i + word.len();
    &&& 0 <= i && j <= line.len()
    &&& !ignore_case ==> line.subrange(i, j) == word
    &&& forall|x: int|
        0 <= x < word.len() ==> line[i + x] == #[trigger] word[x] || regex_matches(
            escaped(seq![word[x]]),
            true,
            seq![line[i + x]],
        )
    &&& whole_word ==> {
        &&& (i > 0 && in_word_class(line[i - 1])) <==> !(i < line.len() && in_word_class(line[i]))
        &&& (j > 0 && in_word_class(line[j - 1])) <==> !(j < line.len() && in_word_class(line[j]))
    }
}

/// A word matches exactly where its text stands.
pub proof fn a_word_matches_where_its_text_stands(
    word: Seq<char>,
    whole_word: bool,
    ignore_case: bool,
    line: Seq<char>,
    i: int,
)
    ensures
        match_at(word, whole_word, ignore_case, line, i) <==> stands_at(
            word,
            whole_word,
            ignore_case,
            line,
            i,
        ),
{
    let j = i + word.len();
    if match_at(word, whole_word, ignore_case, line, i) && !ignore_case {
        assert forall|x: int| 0 <= x < word.len() implies line.subrange(i, j)[x] == word[x] by {
            assert(same_char(word[x], line[i + x], ignore_case));
        }
        assert(line.subrange(i, j) =~= word);
    }
    if stands_at(word, whole_word, ignore_case, line, i) {
        assert forall|x: int| 0 <= x < word.len() implies same_char(
            #[trigger] word[x],
            line[i + x],
            ignore_case,
        ) by {
            if !ignore_case {
                assert(line.subrange(i, j)[x] == line[i + x]);
            }
        }
    }
}

/// A text produces a visible highlight in a document if and only if it stands in one of
/// its lines and, where only whole words match, starts and ends with a word character. (An
/// empty text stands in every line, and between whole words at their ends.)
pub proof fn a_text_matches_iff_it_stands_in_a_line(
    word: Seq<char>,
    whole_word: bool,
    ignore_case: bool,
    content: Seq<char>,
)
    ensures
        matches_content(word, whole_word, ignore_case, content) <==> {
            &&& whole_word && word.len() > 0 ==> {
                &&& words::alphanumeric(word[0]) || word[0] == '_'
                &&& words::alphanumeric(word.last()) || word.last() == '_'
            }
            &&& exists|l: int, i: int|
                0 <= l < text::text_lines(content).len() && #[trigger] stands_at(
                    word,
                    whole_word,
                    ignore_case,
                    text::text_lines(content)[l],
                    i,
                )
        },
{
    let lines = text::text_lines(content);
    if content_has_match(word, whole_word, ignore_case, content) {
        let l = choose|l: int|
            0 <= l < lines.len() && has_match(word, whole_word, ignore_case, #[trigger] lines[l]);
        let i = choose|i: int| match_at(word, whole_word, ignore_case, lines[l], i);
        a_word_matches_where_its_text_stands(word, whole_word, ignore_case, lines[l], i);
        assert(stands_at(word, whole_word, ignore_case, lines[l], i));
    }
    if exists|l: int, i: int|
        0 <= l < lines.len() && #[trigger] stands_at(word, whole_word, ignore_case, lines[l], i) {
        let (l, i) = choose|l: int, i: int|
            0 <= l < lines.len() && #[trigger] stands_at(
                word,
                whole_word,
                ignore_case,
                lines[l],
                i,
            );
        a_word_matches_where_its_text_stands(word, whole_word, ignore_case, lines[l], i);
        assert(has_match(word, whole_word, ignore_case, lines[l]));
    }
}

/// The answer for the regex of a word tells whether the word's text stands in a line.
pub proof fn a_regex_matches_iff_its_text_stands_in_a_line(
    re: Regex,
    word: Seq<char>,
    whole_word: bool,
    ignore_case: bool,
    content: Seq<char>,
    r: bool,
)
    requires
        is_regex_of(re, word, whole_word, ignore_case),
        tells_line_match(re, content, r),
    ensures
        r <==> exists|l: int, i: int|
            0 <= l < text::text_lines(content).len() && #[trigger] stands_at(
                word,
                whole_word,
                ignore_case,
                text::text_lines(content)[l],
                i,
            ),
{
    let lines = text::text_lines(content);
    assert(r == content_has_match(word, whole_word, ignore_case, content));
    if r {
        let l = choose|l: int|
            0 <= l < lines.len() && has_match(word, whole_word, ignore_case, #[trigger] lines[l]);
        let i = choose|i: int| match_at(word, whole_word, ignore_case, lines[l], i);
        a_word_matches_where_its_text_stands(word, whole_word, ignore_case, lines[l], i);
        assert(stands_at(word, whole_word, ignore_case, lines[l], i));
    }
    if exists|l: int, i: int|
        0 <= l < lines.len() && #[trigger] stands_at(word, whole_word, ignore_case, lines[l], i) {
        let (l, i) = choose|l: int, i: int|
            0 <= l < lines.len() && #[trigger] stands_at(
                word,
                whole_word,
                ignore_case,
                lines[l],
                i,
            );
        a_word_matches_where_its_text_stands(word, whole_word, ignore_case, lines[l], i);
        assert(has_match(word, whole_word, ignore_case, lines[l]));
    }
}

/// Escaping keeps the characters of a text, each with a backslash before it if it has a
/// meaning of its own; a word's pattern is its escaped text, between word boundaries where
/// only whole words match, and its regex heeds case unless it is to be ignored.
pub proof fn patterns_are_spelled_out(
    a: Seq<char>,
    b: Seq<char>,
    c: char,
    re: Regex,
    ignore_case: bool,
)
    ensures
        escaped(Seq::<char>::empty()) == Seq::<char>::empty(),
        escaped(a + b) == escaped(a) + escaped(b),
        escaped(seq![c]) == (if c == '\\' || c == '.' || c == '+' || c == '*' || c == '?' || c == '('
            || c == ')' || c == '|' || c == '[' || c == ']' || c == '{' || c == '}' || c == '^' || c
            == '$' || c == '#' || c == '&' || c == '-' || c == '~' {
            seq!['\\', c]
        } else {
            seq![c]
        }),
        word_pattern(a, false) == escaped(a),
        word_pattern(a, true) == seq!['\\', 'b'] + escaped(a) + seq!['\\', 'b'],
        is_regex_of(re, a, false, ignore_case) <==> regex_pattern(re) == escaped(a)
            && regex_ignores_case(re) == ignore_case,
        is_regex_of(re, a, true, ignore_case) <==> regex_pattern(re) == seq!['\\', 'b'] + escaped(a)
            + seq!['\\', 'b'] && regex_ignores_case(re) == ignore_case,
        is_never_regex(re, ignore_case) <==> regex_pattern(re) == seq!['[', 'a', '&', '&', 'b', ']']
            && regex_ignores_case(re) == ignore_case,
        a.len() <= 10000 ==> is_short(a),
        may_match(a, false),
        a.len() > 0 ==> (may_match(a, true) <==> {
            &&& words::alphanumeric(a[0]) || a[0] == '_'
            &&& words::alphanumeric(a.last()) || a.last() == '_'
        }),
{
    lemma_escaped_concat(a, b);
    assert(seq![c].drop_last() =~= Seq::<char>::empty());
    assert(Seq::<char>::empty() + seq!['\\', c] =~= seq!['\\', c]);
    assert(Seq::<char>::empty() + seq![c] =~= seq![c]);
}

proof fn lemma_escaped_concat(a: Seq<char>, b: Seq<char>)
    ensures
        escaped(a + b) == escaped(a) + escaped(b),
    decreases b.len(),
{
    if b.len() == 0 {
        assert(a + b =~= a);
        assert(escaped(a) + escaped(b) =~= escaped(a));
    } else {
        assert((a + b).drop_last() =~= a + b.drop_last());
        lemma_escaped_concat(a, b.drop_last());
        assert(escaped(a + b) =~= escaped(a) + escaped(b));
    }
}

/// A regex is tried on every line, and one that never matches matches in none.
pub proof fn a_regex_is_tried_on_every_line(re: Regex, content: Seq<char>, r: bool)
    requires
        tells_line_match(re, content, r),
    ensures
        r <==> exists|l: int|
            0 <= l < text::text_lines(content).len() && regex_matches(
                regex_pattern(re),
                regex_ignores_case(re),
                #[trigger] text::text_lines(content)[l],
            ),
        regex_pattern(re) == seq!['[', 'a', '&', '&', 'b', ']'] ==> !r,
{
}

} // verus!
