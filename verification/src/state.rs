//! The server's internal state: the highlighted words and the open documents.

use vstd::hash_map::StringHashMap;
use vstd::prelude::*;

use crate::text::same_text;

verus! {

broadcast use vstd::seq::group_seq_axioms;

/// LSP server's internal state.
///
/// We track the list of highlighted words and the full text of every open document so we can scan for token positions
/// on demand. We also track the user's settings for whole-word and case-insensitive matching. All state is kept in
/// memory and shared across all documents and tabs, so highlighting a word in one file highlights it in all files.
pub struct State {
    /// The list of currently highlighted words. A removed slot becomes `None` and subsequent entries are not shifted.
    pub words: Vec<Option<String>>,
    /// Full text of every open document, keyed by URI.
    pub docs: StringHashMap<String>,
    /// Whether to only match whole words (e.g., "for" doesn't match inside "format").
    pub whole_word: bool,
    /// Whether to ignore case when matching (e.g., "Foo" matches "foo").
    pub ignore_case: bool,
}

/// The lower-case form of a text, by the mappings of the Unicode character database.
pub uninterp spec fn lowercase(s: Seq<char>) -> Seq<char>;

/// [`str::to_lowercase`] maps a text to lower case by the tables of the Unicode
/// character database; its value on a text is named [`lowercase`].
pub assume_specification[ str::to_lowercase ](s: &str) -> (r: String)
    ensures
        r@ == lowercase(s@),
;

/// Whether `a` and `b` are the same word.
pub open spec fn same_word(a: Seq<char>, b: Seq<char>, ignore_case: bool) -> bool {
    if ignore_case {
        lowercase(a) == lowercase(b)
    } else {
        a == b
    }
}

/// The text of the word in a slot, if there is one.
pub open spec fn slot_text(slot: Option<String>) -> Option<Seq<char>> {
    match slot {
        Some(word) => Some(word@),
        None => None,
    }
}

/// The texts of the words in the slots.
pub open spec fn slot_texts(words: Seq<Option<String>>) -> Seq<Option<Seq<char>>> {
    words.map_values(|slot: Option<String>| slot_text(slot))
}

/// Whether a slot holds the given word.
pub open spec fn holds(slot: Option<Seq<char>>, word: Seq<char>, ignore_case: bool) -> bool {
    slot matches Some(w) && same_word(w, word, ignore_case)
}

/// The index of the first element that `p` accepts, or the length if there is none.
pub open spec fn first_where<T>(s: Seq<T>, p: spec_fn(T) -> bool) -> int
    decreases s.len(),
{
    if s.len() == 0 || p(s[0]) {
        0
    } else {
        1 + first_where(s.drop_first(), p)
    }
}

/// The first slot that holds the given word.
pub open spec fn slot_of(slots: Seq<Option<Seq<char>>>, word: Seq<char>, ignore_case: bool) -> int {
    first_where(slots, |slot: Option<Seq<char>>| holds(slot, word, ignore_case))
}

/// The first free slot.
pub open spec fn free_slot(slots: Seq<Option<Seq<char>>>) -> int {
    first_where(slots, |slot: Option<Seq<char>>| slot is None)
}

/// The slots after a word has been toggled: the slot that held it is free, or else the
/// first free slot, or a new one at the end, holds it.
pub open spec fn toggled(
    slots: Seq<Option<Seq<char>>>,
    word: Seq<char>,
    ignore_case: bool,
) -> Seq<Option<Seq<char>>> {
    if slot_of(slots, word, ignore_case) < slots.len() {
        slots.update(slot_of(slots, word, ignore_case), None)
    } else if free_slot(slots) < slots.len() {
        slots.update(free_slot(slots), Some(word))
    } else {
        slots.push(Some(word))
    }
}

/// Whether a word is highlighted.
pub open spec fn is_highlighted(
    slots: Seq<Option<Seq<char>>>,
    word: Seq<char>,
    ignore_case: bool,
) -> bool {
    exists|k: int| 0 <= k < slots.len() && holds(#[trigger] slots[k], word, ignore_case)
}

/// No two slots hold the same word.
pub open spec fn are_distinct(slots: Seq<Option<Seq<char>>>, ignore_case: bool) -> bool {
    forall|j: int, k: int|
        0 <= j < k < slots.len() && (#[trigger] slots[k]) is Some ==> !holds(
            #[trigger] slots[j],
            slots[k]->0,
            ignore_case,
        )
}

impl State {
    /// The texts of the words in the slots.
    pub open spec fn slots(&self) -> Seq<Option<Seq<char>>> {
        slot_texts(self.words@)
    }

    /// The text of an open document.
    pub open spec fn doc(&self, uri: Seq<char>) -> Option<Seq<char>> {
        if self.docs@.contains_key(uri) {
            Some(self.docs@[uri]@)
        } else {
            None
        }
    }

    /// At least one word is highlighted.
    pub open spec fn any_highlighted(&self) -> bool {
        exists|k: int| 0 <= k < self.words@.len() && (#[trigger] self.words@[k]) is Some
    }

    /// No two slots hold the same word.
    pub open spec fn wf(&self) -> bool {
        are_distinct(self.slots(), self.ignore_case)
    }

    /// Constructs a new instance of the server's internal state.
    ///
    /// By default, [`State::whole_word`] matching is set to true, while the [`State::ignore_case`] flag defaults to
    /// false. This should be a sensible default behavior, and we can consider making these flags configurable later.
    pub fn new() -> (state: State)
        ensures
            state.words@.len() == 0,
            state.docs@ == Map::<Seq<char>, String>::empty(),
            state.whole_word,
            !state.ignore_case,
            state.wf(),
    {
        State {
            words: Vec::new(),
            docs: StringHashMap::new(),
            whole_word: true,
            ignore_case: false,
        }
    }

    /// Toggles a word in/out of the highlight list.
    ///
    /// Three cases:
    /// 1. Word is already in the list: soft-delete it preserving the slot (set its slot to `None`).
    /// 2. Word is new and there's a `None` slot: reuse the first free slot so we reclaim the color index.
    /// 3. Word is new and there are no free slots: grow the list appending a new `Some(word)`.
    pub fn toggle(&mut self, word: &str)
        ensures
            final(self).slots() == toggled(old(self).slots(), word@, old(self).ignore_case),
            final(self).docs == old(self).docs,
            final(self).whole_word == old(self).whole_word,
            final(self).ignore_case == old(self).ignore_case,
            old(self).wf() ==> final(self).wf(),
    {
        let ghost slots = self.slots();
        let ghost ignore_case = self.ignore_case;
        proof {
            if self.wf() {
                toggling_keeps_words_distinct(slots, word@, ignore_case);
            }
        }
        let found: usize = self.position_of(word);
        if found < self.words.len() {
            // Case 1: Word is already in the list: soft-delete it preserving the slot (set its slot to `None`).
            self.words[found] = None;
            assert(self.slots() =~= slots.update(found as int, None));
            return;
        }
        let free: usize = self.position_of_free();
        if free < self.words.len() {
            // Case 2: Word is new and there's a `None` slot: reuse the first free slot so we reclaim the color index.
            self.words[free] = Some(word.to_owned());
            assert(self.slots() =~= slots.update(free as int, Some(word@)));
        } else {
            // Case 3: Word is new and there are no free slots: grow the list appending a new `Some(word)`.
            self.words.push(Some(word.to_owned()));
            assert(self.slots() =~= slots.push(Some(word@)));
        }
    }

    /// The first slot that holds the word, or the number of slots.
    fn position_of(&self, word: &str) -> (r: usize)
        ensures
            r == slot_of(self.slots(), word@, self.ignore_case),
            r <= self.words@.len(),
    {
        let ghost p = |slot: Option<Seq<char>>| holds(slot, word@, self.ignore_case);
        for k in 0..self.words.len()
            invariant
                p == |slot: Option<Seq<char>>| holds(slot, word@, self.ignore_case),
                forall|j: int| 0 <= j < k ==> !p(#[trigger] self.slots()[j]),
        {
            assert(self.slots()[k as int] == slot_text(self.words@[k as int]));
            if let Some(w) = &self.words[k] {
                if self.words_eq(w.as_str(), word) {
                    proof {
                        lemma_first_where_is(self.slots(), p, k as int);
                    }
                    return k;
                }
            }
        }
        proof {
            lemma_first_where_is(self.slots(), p, self.slots().len() as int);
        }
        self.words.len()
    }

    /// The first free slot, or the number of slots.
    fn position_of_free(&self) -> (r: usize)
        ensures
            r == free_slot(self.slots()),
            r <= self.words@.len(),
    {
        let ghost p = |slot: Option<Seq<char>>| slot is None;
        for k in 0..self.words.len()
            invariant
                p == |slot: Option<Seq<char>>| slot is None,
                forall|j: int| 0 <= j < k ==> !p(#[trigger] self.slots()[j]),
        {
            assert(self.slots()[k as int] == slot_text(self.words@[k as int]));
            if self.words[k].is_none() {
                proof {
                    lemma_first_where_is(self.slots(), p, k as int);
                }
                return k;
            }
        }
        proof {
            lemma_first_where_is(self.slots(), p, self.slots().len() as int);
        }
        self.words.len()
    }

    /// Checks whether at least one word is currently highlighted.
    pub fn has_any(&self) -> (r: bool)
        ensures
            r == self.any_highlighted(),
    {
        for k in 0..self.words.len()
            invariant
                forall|j: int| 0 <= j < k ==> (#[trigger] self.words@[j]) is None,
        {
            if self.words[k].is_some() {
                return true;
            }
        }
        false
    }

    /// Clears all highlighted words.
    pub fn words_clear(&mut self)
        ensures
            final(self).words@.len() == 0,
            !final(self).any_highlighted(),
            final(self).docs == old(self).docs,
            final(self).whole_word == old(self).whole_word,
            final(self).ignore_case == old(self).ignore_case,
            final(self).wf(),
    {
        self.words.clear();
    }

    /// Helper function to compare two words for equality, respecting the [`State::ignore_case`] flag.
    pub fn words_eq(&self, a: &str, b: &str) -> (r: bool)
        ensures
            r == same_word(a@, b@, self.ignore_case),
    {
        if self.ignore_case {
            a.to_lowercase() == b.to_lowercase()
        } else {
            same_text(a, b)
        }
    }
}

proof fn lemma_first_where<T>(s: Seq<T>, p: spec_fn(T) -> bool)
    ensures
        0 <= first_where(s, p) <= s.len(),
        first_where(s, p) < s.len() ==> p(s[first_where(s, p)]),
        forall|i: int| 0 <= i < first_where(s, p) ==> !p(#[trigger] s[i]),
    decreases s.len(),
{
    if s.len() != 0 && !p(s[0]) {
        let rest = s.drop_first();
        lemma_first_where(rest, p);
        assert forall|i: int| 0 <= i < first_where(s, p) implies !p(#[trigger] s[i]) by {
            if i > 0 {
                assert(rest[i - 1] == s[i]);
            }
        }
    }
}

proof fn lemma_first_where_is<T>(s: Seq<T>, p: spec_fn(T) -> bool, k: int)
    requires
        0 <= k <= s.len(),
        k < s.len() ==> p(s[k]),
        forall|i: int| 0 <= i < k ==> !p(#[trigger] s[i]),
    ensures
        first_where(s, p) == k,
{
    lemma_first_where(s, p);
    if first_where(s, p) < k {
        assert(!p(s[first_where(s, p)]));
    }
}

pub(crate) proof fn lemma_slot_of(slots: Seq<Option<Seq<char>>>, word: Seq<char>, ignore_case: bool)
    ensures
        ({
            let at = slot_of(slots, word, ignore_case);
            &&& 0 <= at <= slots.len()
            &&& at < slots.len() <==> is_highlighted(slots, word, ignore_case)
            &&& at < slots.len() ==> holds(slots[at], word, ignore_case)
            &&& forall|k: int| 0 <= k < at ==> !holds(#[trigger] slots[k], word, ignore_case)
        }),
{
    lemma_first_where(slots, |slot: Option<Seq<char>>| holds(slot, word, ignore_case));
}

pub(crate) proof fn lemma_free_slot(slots: Seq<Option<Seq<char>>>)
    ensures
        0 <= free_slot(slots) <= slots.len(),
        free_slot(slots) < slots.len() ==> slots[free_slot(slots)] is None,
        forall|k: int| 0 <= k < free_slot(slots) ==> (#[trigger] slots[k]) is Some,
{
    lemma_first_where(slots, |slot: Option<Seq<char>>| slot is None);
}

/// Toggling keeps the words in the list distinct.
pub proof fn toggling_keeps_words_distinct(
    slots: Seq<Option<Seq<char>>>,
    word: Seq<char>,
    ignore_case: bool,
)
    requires
        are_distinct(slots, ignore_case),
    ensures
        are_distinct(toggled(slots, word, ignore_case), ignore_case),
{
    lemma_slot_of(slots, word, ignore_case);
    lemma_free_slot(slots);
    let after = toggled(slots, word, ignore_case);
    assert forall|j: int, k: int|
        0 <= j < k < after.len() && (#[trigger] after[k]) is Some implies !holds(
        #[trigger] after[j],
        after[k]->0,
        ignore_case,
    ) by {
        if k < slots.len() && after[k] == slots[k] && after[j] == slots[j] {
            assert(slots[k] is Some);
        } else if j < slots.len() && after[j] == slots[j] {
            assert(!holds(slots[j], word, ignore_case));
        } else if k < slots.len() {
            assert(!holds(slots[k], word, ignore_case));
        }
    }
}

/// Toggling a word highlights it if it was not highlighted, removes it if it was, and
/// leaves every other word as it was.
pub proof fn toggling_flips_one_word(
    slots: Seq<Option<Seq<char>>>,
    word: Seq<char>,
    other: Seq<char>,
    ignore_case: bool,
)
    requires
        are_distinct(slots, ignore_case),
    ensures
        is_highlighted(toggled(slots, word, ignore_case), other, ignore_case) == (if same_word(
            other,
            word,
            ignore_case,
        ) {
            !is_highlighted(slots, other, ignore_case)
        } else {
            is_highlighted(slots, other, ignore_case)
        }),
{
    lemma_slot_of(slots, word, ignore_case);
    lemma_free_slot(slots);
    let after = toggled(slots, word, ignore_case);
    let at = slot_of(slots, word, ignore_case);
    let same = same_word(other, word, ignore_case);
    if same {
        assert(forall|slot: Option<Seq<char>>|
            holds(slot, other, ignore_case) == holds(slot, word, ignore_case));
        assert(is_highlighted(slots, other, ignore_case) == is_highlighted(
            slots,
            word,
            ignore_case,
        ));
    }
    if at < slots.len() {
        if same {
            assert forall|k: int| 0 <= k < after.len() implies !holds(
                #[trigger] after[k],
                other,
                ignore_case,
            ) by {
                if k > at && after[k] is Some {
                    assert(!holds(slots[at], slots[k]->0, ignore_case));
                }
            }
        } else {
            if is_highlighted(slots, other, ignore_case) {
                let k = choose|k: int|
                    0 <= k < slots.len() && holds(#[trigger] slots[k], other, ignore_case);
                assert(holds(after[k], other, ignore_case));
            }
            if is_highlighted(after, other, ignore_case) {
                let k = choose|k: int|
                    0 <= k < after.len() && holds(#[trigger] after[k], other, ignore_case);
                assert(holds(slots[k], other, ignore_case));
            }
        }
    } else {
        let free = free_slot(slots);
        assert(after[free] == Some(word));
        if same {
            assert(holds(after[free], other, ignore_case));
        } else {
            if is_highlighted(slots, other, ignore_case) {
                let k = choose|k: int|
                    0 <= k < slots.len() && holds(#[trigger] slots[k], other, ignore_case);
                assert(holds(after[k], other, ignore_case));
            }
            if is_highlighted(after, other, ignore_case) {
                let k = choose|k: int|
                    0 <= k < after.len() && holds(#[trigger] after[k], other, ignore_case);
                assert(k != free);
                assert(holds(slots[k], other, ignore_case));
            }
        }
    }
}

/// Toggling a word twice leaves the same words highlighted.
pub proof fn toggling_twice_restores(
    slots: Seq<Option<Seq<char>>>,
    word: Seq<char>,
    other: Seq<char>,
    ignore_case: bool,
)
    requires
        are_distinct(slots, ignore_case),
    ensures
        is_highlighted(
            toggled(toggled(slots, word, ignore_case), word, ignore_case),
            other,
            ignore_case,
        ) == is_highlighted(slots, other, ignore_case),
{
    toggling_keeps_words_distinct(slots, word, ignore_case);
    toggling_flips_one_word(slots, word, other, ignore_case);
    toggling_flips_one_word(toggled(slots, word, ignore_case), word, other, ignore_case);
}

/// Toggling a word leaves every other word in its slot, so that it keeps its color.
pub proof fn toggling_keeps_other_slots(
    slots: Seq<Option<Seq<char>>>,
    word: Seq<char>,
    ignore_case: bool,
    k: int,
)
    requires
        0 <= k < slots.len(),
        slots[k] is Some,
        !holds(slots[k], word, ignore_case),
    ensures
        toggled(slots, word, ignore_case)[k] == slots[k],
{
    lemma_slot_of(slots, word, ignore_case);
    lemma_free_slot(slots);
}

/// A new word takes the slot, and with it the color, of a word that has just been
/// removed, if no slot before it is free.
pub proof fn a_freed_slot_is_reused(
    slots: Seq<Option<Seq<char>>>,
    removed: Seq<char>,
    added: Seq<char>,
    ignore_case: bool,
)
    requires
        is_highlighted(slots, removed, ignore_case),
        !is_highlighted(slots, added, ignore_case),
        slot_of(slots, removed, ignore_case) <= free_slot(slots),
    ensures
        toggled(toggled(slots, removed, ignore_case), added, ignore_case) == slots.update(
            slot_of(slots, removed, ignore_case),
            Some(added),
        ),
{
    lemma_slot_of(slots, removed, ignore_case);
    lemma_free_slot(slots);
    let at = slot_of(slots, removed, ignore_case);
    let after = toggled(slots, removed, ignore_case);
    lemma_slot_of(after, added, ignore_case);
    if is_highlighted(after, added, ignore_case) {
        let k = choose|k: int| 0 <= k < after.len() && holds(#[trigger] after[k], added, ignore_case);
        assert(holds(slots[k], added, ignore_case));
    }
    lemma_free_slot(after);
    if free_slot(after) < at {
        assert(after[free_slot(after)] == slots[free_slot(after)]);
    } else if free_slot(after) > at {
        assert(after[at] is Some);
    }
    assert(toggled(after, added, ignore_case) =~= slots.update(at, Some(added)));
}

/// The list of words grows only if no slot is free.
pub proof fn the_list_grows_only_when_full(
    slots: Seq<Option<Seq<char>>>,
    word: Seq<char>,
    ignore_case: bool,
    k: int,
)
    requires
        0 <= k < slots.len(),
        slots[k] is None,
    ensures
        toggled(slots, word, ignore_case).len() == slots.len(),
{
    lemma_slot_of(slots, word, ignore_case);
    lemma_free_slot(slots);
}

/// Two words are the same if they have the same characters or, where case is ignored, the
/// same characters in lower case. The slots hold the texts of the words.
pub proof fn words_are_told_apart_by_all_their_characters(
    a: Seq<char>,
    b: Seq<char>,
    words: Seq<Option<String>>,
    k: int,
)
    ensures
        same_word(a, b, false) <==> a == b,
        same_word(a, b, true) <==> lowercase(a) == lowercase(b),
        slot_texts(words).len() == words.len(),
        0 <= k < words.len() ==> (match words[k] {
            Some(word) => slot_texts(words)[k] == Some(word@),
            None => slot_texts(words)[k] is None,
        }),
{
}

/// Toggling a word that no slot holds, character for character, highlights it with exactly
/// these characters, and every word that was in a slot stays there as it was.
pub proof fn toggling_a_new_word_adds_exactly_that_word(
    slots: Seq<Option<Seq<char>>>,
    word: Seq<char>,
)
    requires
        forall|k: int| 0 <= k < slots.len() ==> (#[trigger] slots[k]) != Some(word),
    ensures
        exists|k: int|
            0 <= k < toggled(slots, word, false).len() && (#[trigger] toggled(
                slots,
                word,
                false,
            )[k]) == Some(word),
        forall|k: int|
            0 <= k < slots.len() && (#[trigger] slots[k]) is Some ==> toggled(slots, word, false)[k]
                == slots[k],
        forall|k: int|
            0 <= k < toggled(slots, word, false).len() && (#[trigger] toggled(
                slots,
                word,
                false,
            )[k]) is Some ==> toggled(slots, word, false)[k] == Some(word) || (k < slots.len()
                && toggled(slots, word, false)[k] == slots[k]),
        slots.len() <= toggled(slots, word, false).len() <= slots.len() + 1,
        toggled(slots, word, false).len() == slots.len() + 1 <==> forall|k: int|
            0 <= k < slots.len() ==> (#[trigger] slots[k]) is Some,
{
    lemma_slot_of(slots, word, false);
    lemma_free_slot(slots);
    let after = toggled(slots, word, false);
    if is_highlighted(slots, word, false) {
        let k = choose|k: int| 0 <= k < slots.len() && holds(#[trigger] slots[k], word, false);
        assert(slots[k] == Some(word));
    }
    let free = free_slot(slots);
    assert(after[free] == Some(word));
    if free < slots.len() {
        assert(slots[free] is None);
    }
}

/// Toggling a word that a slot holds, character for character, frees the first such slot
/// and changes no other.
pub proof fn toggling_a_held_word_frees_its_slot(
    slots: Seq<Option<Seq<char>>>,
    word: Seq<char>,
    k: int,
)
    requires
        0 <= k < slots.len(),
        slots[k] == Some(word),
        forall|j: int| 0 <= j < k ==> (#[trigger] slots[j]) != Some(word),
    ensures
        toggled(slots, word, false).len() == slots.len(),
        toggled(slots, word, false)[k] is None,
        forall|j: int|
            0 <= j < slots.len() && j != k ==> (#[trigger] toggled(slots, word, false)[j])
                == slots[j],
{
    lemma_slot_of(slots, word, false);
    assert(holds(slots[k], word, false));
    let at = slot_of(slots, word, false);
    if at < k {
        assert(slots[at] == Some(word));
    }
    assert(at == k);
}

/// Where case is ignored, toggling frees the first slot that holds the word in lower case,
/// if there is one, and otherwise adds the word as it is spelled.
pub proof fn toggling_ignores_case_when_asked_to(
    slots: Seq<Option<Seq<char>>>,
    word: Seq<char>,
    k: int,
)
    requires
        0 <= k <= slots.len(),
        k < slots.len() ==> slots[k] is Some && lowercase(slots[k]->0) == lowercase(word),
        forall|j: int|
            0 <= j < k && (#[trigger] slots[j]) is Some ==> lowercase(slots[j]->0) != lowercase(word),
    ensures
        k < slots.len() ==> toggled(slots, word, true) == slots.update(k, None),
        k == slots.len() ==> {
            &&& exists|j: int|
                0 <= j < toggled(slots, word, true).len() && (#[trigger] toggled(
                    slots,
                    word,
                    true,
                )[j]) == Some(word)
            &&& forall|j: int|
                0 <= j < slots.len() && (#[trigger] slots[j]) is Some ==> toggled(
                    slots,
                    word,
                    true,
                )[j] == slots[j]
        },
{
    lemma_slot_of(slots, word, true);
    lemma_free_slot(slots);
    let at = slot_of(slots, word, true);
    if k < slots.len() {
        assert(holds(slots[k], word, true));
        if at < k {
            assert(lowercase(slots[at]->0) == lowercase(word));
        }
        assert(at == k);
    } else {
        if at < slots.len() {
            assert(lowercase(slots[at]->0) == lowercase(word));
        }
        assert(toggled(slots, word, true)[free_slot(slots)] == Some(word));
    }
}

/// A new word takes the first free slot, whose color is reclaimed, or a new one behind the
/// others if none is free; all other slots stay as they were.
pub proof fn a_new_word_takes_the_first_free_slot(
    slots: Seq<Option<Seq<char>>>,
    word: Seq<char>,
    ignore_case: bool,
    k: int,
)
    requires
        forall|j: int|
            0 <= j < slots.len() && (#[trigger] slots[j]) is Some ==> if ignore_case {
                lowercase(slots[j]->0) != lowercase(word)
            } else {
                slots[j]->0 != word
            },
        0 <= k <= slots.len(),
        k < slots.len() ==> slots[k] is None,
        forall|j: int| 0 <= j < k ==> (#[trigger] slots[j]) is Some,
    ensures
        k < slots.len() ==> toggled(slots, word, ignore_case) == slots.update(k, Some(word)),
        k == slots.len() ==> toggled(slots, word, ignore_case) == slots.push(Some(word)),
{
    lemma_slot_of(slots, word, ignore_case);
    lemma_free_slot(slots);
    if is_highlighted(slots, word, ignore_case) {
        let j = choose|j: int|
            0 <= j < slots.len() && holds(#[trigger] slots[j], word, ignore_case);
        assert(slots[j] is Some);
    }
    assert(free_slot(slots) == k);
}

/// The slots of a state are its words, one for one; the documents are those of its map;
/// and a word is highlighted if some slot is taken.
pub proof fn a_state_shows_its_words_and_documents(state: State, uri: Seq<char>, k: int)
    ensures
        state.slots().len() == state.words@.len(),
        0 <= k < state.words@.len() ==> (match state.words@[k] {
            Some(word) => state.slots()[k] == Some(word@),
            None => state.slots()[k] is None,
        }),
        match state.doc(uri) {
            Some(text) => state.docs@.contains_key(uri) && text == state.docs@[uri]@,
            None => !state.docs@.contains_key(uri),
        },
        0 <= k < state.words@.len() && state.words@[k] is Some ==> state.any_highlighted(),
        (forall|j: int| 0 <= j < state.words@.len() ==> (#[trigger] state.words@[j]) is None)
            ==> !state.any_highlighted(),
{
}

} // verus!
