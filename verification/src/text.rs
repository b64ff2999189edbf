//! Strings as sequences of characters: UTF-8 and UTF-16 offsets, lines, and
//! trimming.

use vstd::prelude::*;
use vstd::utf8::*;

verus! {

broadcast use {vstd::seq::group_seq_axioms, vstd::string::group_string_axioms};

/// [`char::len_utf8`] is the number of bytes of the character's UTF-8 encoding.
pub assume_specification[ char::len_utf8 ](c: char) -> (r: usize)
    ensures
        r == encode_scalar(c as u32).len(),
;

/// The number of UTF-16 code units that encode `c`: one in the basic
/// multilingual plane, two (a surrogate pair) above it.
pub open spec fn utf16_units(c: char) -> nat {
    if c as u32 <= 0xFFFF {
        1
    } else {
        2
    }
}

/// [`char::len_utf16`] is one for the basic multilingual plane and two for the
/// supplementary planes.
pub assume_specification[ char::len_utf16 ](c: char) -> (r: usize)
    ensures
        r == utf16_units(c),
;

/// The byte offset, in the UTF-8 encoding of `s`, of the character at index `k`
/// (of the end of the string, where `k` is the length).
pub open spec fn byte_offset(s: Seq<char>, k: int) -> int {
    encode_utf8(s.take(k)).len() as int
}

proof fn lemma_encode_concat(a: Seq<char>, b: Seq<char>)
    ensures
        encode_utf8(a + b) == encode_utf8(a) + encode_utf8(b),
    decreases a.len(),
{
    if a.len() == 0 {
        assert(a + b =~= b);
        assert(encode_utf8(a) + encode_utf8(b) =~= encode_utf8(b));
    } else {
        assert((a + b).drop_first() =~= a.drop_first() + b);
        lemma_encode_concat(a.drop_first(), b);
        assert(encode_utf8(a + b) =~= encode_utf8(a) + encode_utf8(b));
    }
}

proof fn lemma_encode_boundary(a: Seq<char>, b: Seq<char>)
    ensures
        is_char_boundary(encode_utf8(a + b), encode_utf8(a).len() as int),
    decreases a.len(),
{
    let bytes = encode_utf8(a + b);
    encode_utf8_valid_utf8(a + b);
    if a.len() > 0 {
        assert((a + b).drop_first() =~= a.drop_first() + b);
        encode_utf8_first_scalar(a + b);
        assert(pop_first_scalar(bytes) =~= encode_utf8(a.drop_first() + b));
        lemma_encode_boundary(a.drop_first(), b);
        lemma_encode_concat(a, b);
        encode_utf8_valid_utf8(a.drop_first() + b);
    }
}

/// The characters of a string are determined by its bytes.
pub proof fn lemma_encode_injective(a: Seq<char>, b: Seq<char>)
    requires
        encode_utf8(a) == encode_utf8(b),
    ensures
        a == b,
{
    encode_utf8_decode_utf8(a);
    encode_utf8_decode_utf8(b);
}

pub(crate) proof fn lemma_byte_offset_step(s: Seq<char>, k: int)
    requires
        0 <= k < s.len(),
    ensures
        byte_offset(s, k + 1) == byte_offset(s, k) + encode_scalar(s[k] as u32).len(),
        byte_offset(s, k) < byte_offset(s, k + 1) <= encode_utf8(s).len(),
{
    let one = seq![s[k]];
    assert(s.take(k + 1) =~= s.take(k) + one);
    lemma_encode_concat(s.take(k), one);
    assert(one.drop_first() =~= Seq::<char>::empty());
    assert(encode_utf8(one) =~= encode_scalar(s[k] as u32)) by {
        reveal_with_fuel(encode_utf8, 2);
    }
    assert(s =~= s.take(k + 1) + s.skip(k + 1));
    lemma_encode_concat(s.take(k + 1), s.skip(k + 1));
}

pub(crate) proof fn lemma_byte_offset_monotone(s: Seq<char>, i: int, j: int)
    requires
        0 <= i <= j <= s.len(),
    ensures
        byte_offset(s, i) + (j - i) <= byte_offset(s, j) <= encode_utf8(s).len(),
    decreases j - i,
{
    if i < j {
        lemma_byte_offset_monotone(s, i, j - 1);
        lemma_byte_offset_step(s, j - 1);
    } else {
        assert(s =~= s.take(j) + s.skip(j));
        lemma_encode_concat(s.take(j), s.skip(j));
    }
}

/// Splits `s` before the character at index `k`, which starts at byte `mid`.
pub(crate) fn split_before<'a>(s: &'a str, mid: usize, Ghost(k): Ghost<int>) -> (r: (&'a str, &'a str))
    requires
        0 <= k <= s@.len(),
        mid == byte_offset(s@, k),
    ensures
        r.0@ == s@.take(k),
        r.1@ == s@.skip(k),
{
    proof {
        assert(s@ =~= s@.take(k) + s@.skip(k));
        lemma_encode_concat(s@.take(k), s@.skip(k));
        lemma_encode_boundary(s@.take(k), s@.skip(k));
    }
    let r = s.split_at(mid);
    proof {
        assert(encode_utf8(r.0@) =~= encode_utf8(s@.take(k)));
        assert(encode_utf8(r.1@) =~= encode_utf8(s@.skip(k)));
        lemma_encode_injective(r.0@, s@.take(k));
        lemma_encode_injective(r.1@, s@.skip(k));
    }
    r
}

/// Whether `a` and `b` are the same text.
pub fn same_text(a: &str, b: &str) -> (r: bool)
    ensures
        r == (a@ == b@),
{
    let x = a.as_bytes();
    let y = b.as_bytes();
    if x.len() != y.len() {
        return false;
    }
    let n: usize = x.len();
    for i in 0..n
        invariant
            n == x@.len(),
            n == y@.len(),
            x@ == encode_utf8(a@),
            y@ == encode_utf8(b@),
            forall|j: int| 0 <= j < i ==> x@[j] == y@[j],
    {
        if x[i] != y[i] {
            return false;
        }
    }
    proof {
        assert(x@ =~= y@);
        lemma_encode_injective(a@, b@);
    }
    true
}

/// The number of UTF-16 code units that encode `s`.
pub open spec fn utf16_count(s: Seq<char>) -> nat
    decreases s.len(),
{
    if s.len() == 0 {
        0
    } else {
        utf16_count(s.drop_last()) + utf16_units(s.last())
    }
}

/// The number of UTF-16 code units that encode `s`, in 32 bits: the number itself for
/// any reasonable length, which wraps around above that.
pub open spec fn wrapped_count(s: Seq<char>) -> u32 {
    (utf16_count(s) % 0x1_0000_0000) as u32
}

/// Helper function to count the number of UTF-16 code units in a UTF-8 string slice.
pub fn utf16_len(s: &str) -> (r: u32)
    ensures
        r == wrapped_count(s@),
        utf16_count(s@) <= u32::MAX ==> r == utf16_count(s@),
{
    let mut count: u32 = 0;
    for c in it: s.chars()
        invariant
            it.seq() == s@,
            count == wrapped_count(s@.take(it.index())),
    {
        proof {
            lemma_utf16_step(s@, it.index());
        }
        count = count.wrapping_add(c.len_utf16() as u32);
    }
    assert(s@.take(s@.len() as int) =~= s@);
    count
}

proof fn lemma_utf16_monotone(s: Seq<char>, i: int, j: int)
    requires
        0 <= i <= j <= s.len(),
    ensures
        utf16_count(s.take(i)) + (j - i) <= utf16_count(s.take(j)),
    decreases j - i,
{
    if i < j {
        lemma_utf16_monotone(s, i, j - 1);
        assert(s.take(j).drop_last() =~= s.take(j - 1));
    }
}

proof fn lemma_utf16_step(s: Seq<char>, k: int)
    requires
        0 <= k < s.len(),
    ensures
        utf16_count(s.take(k + 1)) == utf16_count(s.take(k)) + utf16_units(s[k]),
        utf16_count(s.take(k + 1)) <= utf16_count(s),
{
    assert(s.take(k + 1).drop_last() =~= s.take(k));
    lemma_utf16_monotone(s, k + 1, s.len() as int);
    assert(s.take(s.len() as int) =~= s);
}

pub(crate) proof fn lemma_utf16_subrange(s: Seq<char>, i: int, j: int)
    requires
        0 <= i <= j <= s.len(),
    ensures
        utf16_count(s.take(i)) + utf16_count(s.subrange(i, j)) == utf16_count(s.take(j)),
        utf16_count(s.take(j)) <= utf16_count(s),
    decreases j,
{
    lemma_utf16_monotone(s, j, s.len() as int);
    assert(s.take(s.len() as int) =~= s);
    if i < j {
        lemma_utf16_subrange(s, i, j - 1);
        assert(s.subrange(i, j).drop_last() =~= s.subrange(i, j - 1));
        assert(s.take(j).drop_last() =~= s.take(j - 1));
    }
}

/// The character at index `k` of `s` starts at UTF-16 offset `offset` (the string
/// ends there, where `k` is its length).
pub open spec fn at_utf16(s: Seq<char>, offset: int, k: int) -> bool {
    &&& 0 <= k <= s.len()
    &&& utf16_count(s.take(k)) == offset
}

/// The index of the character of `s` that starts at UTF-16 offset `offset`. There
/// is none inside a surrogate pair or past the end of the string.
pub open spec fn utf16_index(s: Seq<char>, offset: int) -> Option<int> {
    if exists|k: int| at_utf16(s, offset, k) {
        Some(choose|k: int| at_utf16(s, offset, k))
    } else {
        None
    }
}

/// At most one character starts at a given UTF-16 offset.
pub proof fn utf16_index_is_unique(s: Seq<char>, offset: int, k: int)
    requires
        at_utf16(s, offset, k),
    ensures
        utf16_index(s, offset) == Some(k),
{
    let j = choose|j: int| at_utf16(s, offset, j);
    if j < k {
        lemma_utf16_monotone(s, j, k);
    } else if k < j {
        lemma_utf16_monotone(s, k, j);
    }
}

/// Helper function to convert a UTF-16 character offset to a byte offset within `s`.
///
/// Returns `None` if no character starts at the offset: it lies past the end of the
/// string or inside a surrogate pair.
pub fn utf16_to_byte(s: &str, utf16_offset: usize) -> (r: Option<usize>)
    ensures
        match r {
            Some(byte) => utf16_index(s@, utf16_offset as int) matches Some(k) && byte
                == byte_offset(s@, k),
            None => utf16_index(s@, utf16_offset as int) is None,
        },
{
    let len: usize = s.as_bytes().len();
    let mut count: usize = 0;
    let mut pos: usize = 0;
    for c in it: s.chars()
        invariant
            it.seq() == s@,
            len == encode_utf8(s@).len(),
            pos == byte_offset(s@, it.index()),
            count == utf16_count(s@.take(it.index())),
            count <= pos <= len,
            forall|j: int| 0 <= j < it.index() ==> !at_utf16(s@, utf16_offset as int, j),
    {
        // Check the offset before counting the current character.
        if count == utf16_offset {
            proof {
                utf16_index_is_unique(s@, utf16_offset as int, it.index());
            }
            return Some(pos);
        }
        proof {
            lemma_utf16_step(s@, it.index());
            lemma_byte_offset_step(s@, it.index());
        }
        count = count + c.len_utf16();
        pos = pos + c.len_utf8();
    }
    assert(s@.take(s@.len() as int) =~= s@);
    if count == utf16_offset {
        proof {
            utf16_index_is_unique(s@, utf16_offset as int, s@.len() as int);
        }
        Some(len)
    } else {
        None
    }
}

/// The index of the first line feed of `s`, or its length if there is none.
pub open spec fn newline_index(s: Seq<char>) -> int
    decreases s.len(),
{
    if s.len() == 0 || s[0] == '\n' {
        0
    } else {
        1 + newline_index(s.drop_first())
    }
}

/// `s` without the carriage return at its end, if it has one.
pub open spec fn without_carriage_return(s: Seq<char>) -> Seq<char> {
    if s.len() > 0 && s.last() == '\r' {
        s.drop_last()
    } else {
        s
    }
}

/// The lines of a text. A line ends at a line feed, or at a carriage return and
/// the line feed behind it; the ending is not part of the line, and the last line
/// needs none.
pub open spec fn text_lines(s: Seq<char>) -> Seq<Seq<char>>
    decreases s.len(),
    via text_lines_decreases
{
    if s.len() == 0 {
        seq![]
    } else if newline_index(s) == s.len() {
        seq![s]
    } else {
        seq![without_carriage_return(s.take(newline_index(s)))] + text_lines(
            s.skip(newline_index(s) + 1),
        )
    }
}

#[via_fn]
proof fn text_lines_decreases(s: Seq<char>) {
    lemma_newline_index(s);
}

pub(crate) proof fn lemma_newline_index(s: Seq<char>)
    ensures
        0 <= newline_index(s) <= s.len(),
        newline_index(s) < s.len() ==> s[newline_index(s)] == '\n',
        forall|i: int| 0 <= i < newline_index(s) ==> s[i] != '\n',
    decreases s.len(),
{
    if s.len() != 0 && s[0] != '\n' {
        let rest = s.drop_first();
        lemma_newline_index(rest);
        assert forall|i: int| 0 <= i < newline_index(s) implies s[i] != '\n' by {
            if i > 0 {
                assert(rest[i - 1] != '\n');
            }
        }
    }
}

pub(crate) proof fn lemma_newline_index_is(s: Seq<char>, k: int)
    requires
        0 <= k <= s.len(),
        k < s.len() ==> s[k] == '\n',
        forall|i: int| 0 <= i < k ==> s[i] != '\n',
    ensures
        newline_index(s) == k,
{
    lemma_newline_index(s);
}

/// Splits the first line off a text that is not empty: the line without its
/// ending, and the text behind the ending.
fn split_line<'a>(s: &'a str) -> (r: (&'a str, &'a str))
    requires
        s@.len() > 0,
    ensures
        text_lines(s@) == seq![r.0@] + text_lines(r.1@),
        r.1@.len() < s@.len(),
{
    let mut pos: usize = 0;
    let mut end: usize = 0;
    let ghost mut last: int = 0;
    let len: usize = s.as_bytes().len();
    for c in it: s.chars()
        invariant
            it.seq() == s@,
            s@.len() > 0,
            len == encode_utf8(s@).len(),
            pos == byte_offset(s@, it.index()),
            pos <= len,
            forall|i: int| 0 <= i < it.index() ==> s@[i] != '\n',
            0 <= last <= it.index(),
            end == byte_offset(s@, last),
            s@.take(last) == without_carriage_return(s@.take(it.index())),
    {
        let ghost k = it.index();
        if c == '\n' {
            proof {
                lemma_newline_index_is(s@, k);
                lemma_byte_offset_step(s@, k);
            }
            let line = split_before(s, end, Ghost(last)).0;
            let rest = split_before(s, pos + 1, Ghost(k + 1)).1;
            return (line, rest);
        }
        proof {
            lemma_byte_offset_step(s@, k);
            assert(s@.take(k + 1).last() == s@[k]);
            assert(s@.take(k + 1).drop_last() =~= s@.take(k));
        }
        if c != '\r' {
            end = pos + c.len_utf8();
            proof {
                last = k + 1;
            }
        } else {
            end = pos;
            proof {
                last = k;
            }
        }
        pos = pos + c.len_utf8();
    }
    proof {
        lemma_newline_index_is(s@, s@.len() as int);
        assert(s@.skip(s@.len() as int) =~= Seq::<char>::empty());
        assert(s@.take(s@.len() as int) =~= s@);
        assert(seq![s@] + text_lines(Seq::<char>::empty()) =~= text_lines(s@));
    }
    split_before(s, pos, Ghost(s@.len() as int))
}

/// The lines of `content`, as slices of it.
pub fn lines<'a>(content: &'a str) -> (r: Vec<&'a str>)
    ensures
        r@.len() == text_lines(content@).len(),
        forall|i: int| 0 <= i < r@.len() ==> (#[trigger] r@[i])@ == text_lines(content@)[i],
{
    let mut r: Vec<&'a str> = Vec::new();
    let mut rest: &'a str = content;
    let ghost all = text_lines(content@);
    assert(all.skip(0) =~= all);
    while !rest.is_empty()
        invariant
            all == text_lines(content@),
            r@.len() <= all.len(),
            forall|i: int| 0 <= i < r@.len() ==> (#[trigger] r@[i])@ == all[i],
            text_lines(rest@) == all.skip(r@.len() as int),
        decreases rest@.len(),
    {
        let (line, next) = split_line(rest);
        proof {
            let old_rest = all.skip(r@.len() as int);
            assert(old_rest[0] == line@);
            assert(text_lines(next@) =~= old_rest.skip(1));
            assert(old_rest.skip(1) =~= all.skip(r@.len() as int + 1));
        }
        r.push(line);
        rest = next;
    }
    assert(all.skip(r@.len() as int).len() == 0);
    r
}

/// Whether `c` has the Unicode property `White_Space`.
pub open spec fn white_space(c: char) -> bool {
    ||| '\t' <= c <= '\r' || c == ' ' || c == '\u{85}' || c == '\u{a0}' || c == '\u{1680}'
    ||| '\u{2000}' <= c <= '\u{200a}' || c == '\u{2028}' || c == '\u{2029}' || c == '\u{202f}'
    ||| c == '\u{205f}' || c == '\u{3000}'
}

/// [`char::is_whitespace`] tests for the property `White_Space`, which 25 characters of
/// the Unicode character database have.
pub assume_specification[ char::is_whitespace ](c: char) -> (r: bool)
    ensures
        r == white_space(c),
;

/// `s` without the white space at its start.
pub open spec fn trim_start(s: Seq<char>) -> Seq<char>
    decreases s.len(),
{
    if s.len() > 0 && white_space(s[0]) {
        trim_start(s.drop_first())
    } else {
        s
    }
}

/// `s` without the white space at its end.
pub open spec fn trim_end(s: Seq<char>) -> Seq<char>
    decreases s.len(),
{
    if s.len() > 0 && white_space(s.last()) {
        trim_end(s.drop_last())
    } else {
        s
    }
}

/// `s` without the white space at either end.
pub open spec fn trimmed(s: Seq<char>) -> Seq<char> {
    trim_end(trim_start(s))
}

proof fn lemma_trim_start(s: Seq<char>, a: int)
    requires
        0 <= a <= s.len(),
        forall|i: int| 0 <= i < a ==> white_space(s[i]),
        a < s.len() ==> !white_space(s[a]),
    ensures
        trim_start(s) == s.skip(a),
    decreases s.len(),
{
    if a > 0 {
        let rest = s.drop_first();
        assert forall|i: int| 0 <= i < a - 1 implies white_space(rest[i]) by {
            assert(rest[i] == s[i + 1]);
        }
        lemma_trim_start(rest, a - 1);
        assert(rest.skip(a - 1) =~= s.skip(a));
    } else {
        assert(s.skip(0) =~= s);
    }
}

proof fn lemma_trim_end(s: Seq<char>, b: int)
    requires
        0 <= b <= s.len(),
        forall|i: int| b <= i < s.len() ==> white_space(s[i]),
        b > 0 ==> !white_space(s[b - 1]),
    ensures
        trim_end(s) == s.take(b),
    decreases s.len(),
{
    if b < s.len() {
        lemma_trim_end(s.drop_last(), b);
        assert(s.drop_last().take(b) =~= s.take(b));
    } else {
        assert(s.take(b) =~= s);
    }
}

pub(crate) proof fn lemma_white_space_is_trimmed(s: Seq<char>)
    requires
        forall|i: int| 0 <= i < s.len() ==> white_space(s[i]),
    ensures
        trimmed(s).len() == 0,
{
    lemma_trim_start(s, s.len() as int);
}

/// `s` without the white space at either end, as a slice of it.
pub fn trim<'a>(s: &'a str) -> (r: &'a str)
    ensures
        r@ == trimmed(s@),
{
    let mut pos: usize = 0;
    // Where the text without surrounding white space starts and ends.
    let mut start: usize = 0;
    let mut end: usize = 0;
    let mut found: bool = false;
    let ghost mut a: int = 0;
    let ghost mut b: int = 0;
    let len: usize = s.as_bytes().len();
    for c in it: s.chars()
        invariant
            it.seq() == s@,
            len == encode_utf8(s@).len(),
            pos == byte_offset(s@, it.index()),
            pos <= len,
            0 <= a <= b <= it.index(),
            start == byte_offset(s@, a),
            end == byte_offset(s@, b),
            forall|i: int| 0 <= i < a ==> white_space(s@[i]),
            forall|i: int| b <= i < it.index() ==> white_space(s@[i]),
            found ==> a < b && !white_space(s@[a]) && !white_space(s@[b - 1]),
            !found ==> a == b == it.index(),
    {
        let ghost k = it.index();
        proof {
            lemma_byte_offset_step(s@, k);
        }
        let next: usize = pos + c.len_utf8();
        if !c.is_whitespace() {
            if !found {
                found = true;
                start = pos;
                proof {
                    a = k;
                }
            }
            end = next;
            proof {
                b = k + 1;
            }
        } else if !found {
            start = next;
            end = next;
            proof {
                a = k + 1;
                b = k + 1;
            }
        }
        pos = next;
    }
    let head = split_before(s, end, Ghost(b)).0;
    proof {
        assert(head@.take(a) =~= s@.take(a));
        lemma_trim_start(s@, a);
        let rest = s@.skip(a);
        assert forall|i: int| b - a <= i < rest.len() implies white_space(rest[i]) by {
            assert(rest[i] == s@[a + i]);
        }
        lemma_trim_end(rest, b - a);
        assert(head@.skip(a) =~= rest.take(b - a));
    }
    split_before(head, start, Ghost(a)).1
}

/// UTF-16 lengths add up, and a character takes one unit in the basic multilingual plane
/// and two above it.
pub proof fn utf16_lengths_add_up(a: Seq<char>, b: Seq<char>, c: char)
    ensures
        utf16_count(Seq::<char>::empty()) == 0,
        utf16_count(seq![c]) == (if c as u32 <= 0xFFFF {
            1nat
        } else {
            2nat
        }),
        utf16_count(a + b) == utf16_count(a) + utf16_count(b),
        utf16_count(a) <= u32::MAX ==> wrapped_count(a) == utf16_count(a),
{
    let n = a.len() as int;
    lemma_utf16_subrange(a + b, n, (a + b).len() as int);
    assert((a + b).take(n) =~= a);
    assert((a + b).subrange(n, (a + b).len() as int) =~= b);
    assert((a + b).take((a + b).len() as int) =~= a + b);
    let one = seq![c];
    assert(one.drop_last() =~= Seq::<char>::empty());
    assert(one.last() == c);
    assert(utf16_count(one.drop_last()) == 0);
    assert(utf16_count(one) == utf16_count(one.drop_last()) + utf16_units(one.last()));
}

/// The character that starts at a UTF-16 offset is the one with that many units before
/// it, and there is none if no character has.
pub proof fn utf16_offsets_count_what_is_before(s: Seq<char>, offset: int, k: int)
    ensures
        utf16_index(s, offset) == Some(k) <==> 0 <= k <= s.len() && utf16_count(s.take(k))
            == offset,
        utf16_index(s, offset) is None <==> forall|j: int|
            0 <= j <= s.len() ==> utf16_count(#[trigger] s.take(j)) != offset,
{
    if at_utf16(s, offset, k) {
        utf16_index_is_unique(s, offset, k);
    }
    if utf16_index(s, offset) is None {
        assert forall|j: int| 0 <= j <= s.len() implies utf16_count(#[trigger] s.take(j))
            != offset by {
            assert(!at_utf16(s, offset, j));
        }
    } else {
        let j = utf16_index(s, offset)->0;
        assert(at_utf16(s, offset, j));
        assert(utf16_count(s.take(j)) == offset);
    }
}

/// The byte offset of a character is the length of the UTF-8 encoding of what is before
/// it.
pub proof fn byte_offsets_count_what_is_before(s: Seq<char>, k: int)
    ensures
        byte_offset(s, k) == encode_utf8(s.take(k)).len(),
{
}

/// A text without a line feed is a single line, or none if it is empty; a line feed, and
/// a carriage return before it, ends a line.
pub proof fn lines_end_at_line_feeds(a: Seq<char>, b: Seq<char>)
    requires
        !a.contains('\n'),
    ensures
        text_lines(a) == (if a.len() == 0 {
            seq![]
        } else {
            seq![a]
        }),
        text_lines(a + seq!['\n'] + b) == seq![
            if a.len() > 0 && a.last() == '\r' {
                a.drop_last()
            } else {
                a
            },
        ] + text_lines(b),
{
    let n = a.len() as int;
    let whole = a + seq!['\n'] + b;
    assert forall|i: int| 0 <= i < n implies a[i] != '\n' && whole[i] != '\n' by {
        assert(a.contains(a[i]));
    }
    lemma_newline_index_is(a, n);
    lemma_newline_index_is(whole, n);
    assert(whole.take(n) =~= a);
    assert(whole.skip(n + 1) =~= b);
}

/// Trimming removes the white space at either end of a text, and nothing else.
pub proof fn trimming_removes_surrounding_white_space(a: Seq<char>, w: Seq<char>, b: Seq<char>)
    requires
        forall|i: int| 0 <= i < a.len() ==> white_space(a[i]),
        forall|i: int| 0 <= i < b.len() ==> white_space(b[i]),
        w.len() > 0 ==> !white_space(w[0]) && !white_space(w.last()),
    ensures
        trimmed(a + w + b) == w,
{
    let s = a + w + b;
    if w.len() == 0 {
        assert forall|i: int| 0 <= i < s.len() implies white_space(s[i]) by {
            if i >= a.len() {
                assert(s[i] == b[i - a.len()]);
            }
        }
        lemma_white_space_is_trimmed(s);
        assert(trimmed(s) =~= w);
    } else {
        lemma_trim_start(s, a.len() as int);
        let rest = s.skip(a.len() as int);
        assert(rest =~= w + b);
        lemma_trim_end(rest, w.len() as int);
        assert(rest.take(w.len() as int) =~= w);
    }
}

/// The white space characters, by their code points.
pub proof fn white_space_has_these_code_points(c: char)
    ensures
        white_space(c) <==> {
            let n = c as u32;
            ||| 0x9 <= n <= 0xD
            ||| n == 0x20
            ||| n == 0x85
            ||| n == 0xA0
            ||| n == 0x1680
            ||| 0x2000 <= n <= 0x200A
            ||| n == 0x2028
            ||| n == 0x2029
            ||| n == 0x202F
            ||| n == 0x205F
            ||| n == 0x3000
        },
{
}

} // verus!
