//! The highlighted words.

use zed_highlight::state::State;

// Test `State::new`.

#[test]
fn state_new_has_empty_word_list() {
    let s = State::new();
    assert!(s.words.is_empty());
}

#[test]
fn state_new_has_empty_docs() {
    let s = State::new();
    assert!(s.docs.is_empty());
}

#[test]
fn state_new_defaults_whole_word_true() {
    let s = State::new();
    assert!(s.whole_word);
}

#[test]
fn state_new_defaults_ignore_case_false() {
    let s = State::new();
    assert!(!s.ignore_case);
}

// Test `State::toggle`.

#[test]
fn state_toggle_adds_new_word() {
    let mut s = State::new();
    s.toggle("foo");
    assert_eq!(s.words, vec![Some("foo".to_owned())]);
}

#[test]
fn state_toggle_removes_existing_word_leaving_none_slot() {
    let mut s = State::new();
    s.toggle("foo");
    s.toggle("foo");
    assert_eq!(s.words, vec![None]);
}

#[test]
fn state_toggle_reuses_first_none_slot_for_new_word() {
    let mut s = State::new();
    s.toggle("foo"); // slot 0 = Some("foo")
    s.toggle("foo"); // slot 0 = None
    s.toggle("bar"); // should reuse slot 0, not grow
    assert_eq!(s.words, vec![Some("bar".to_owned())]);
}

#[test]
fn state_toggle_grows_list_when_no_free_slots() {
    let mut s = State::new();
    s.toggle("a");
    s.toggle("b");
    assert_eq!(s.words.len(), 2);
    assert!(s.words.iter().all(Option::is_some));
}

#[test]
fn state_toggle_leaves_other_words_in_place_after_removal() {
    let mut s = State::new();
    s.toggle("a");
    s.toggle("b");
    s.toggle("a"); // soft-delete "a"
    assert!(s.words[0].is_none(), "removed slot must be `None`");
    assert_eq!(s.words[1], Some("b".to_owned()));
}

#[test]
fn state_toggle_respects_ignore_case_for_deduplication() {
    let mut s = State::new();
    s.ignore_case = true;
    s.toggle("Foo");
    s.toggle("foo"); // should match "Foo" and remove it
    assert!(
        !s.has_any(),
        "case-insensitive toggle of the same word must leave no highlights"
    );
}

// Test `State::has_any`.

#[test]
fn state_has_any_false_when_empty() {
    assert!(!State::new().has_any());
}

#[test]
fn state_has_any_false_when_all_slots_are_none() {
    let mut s = State::new();
    s.toggle("a");
    s.toggle("a");
    assert!(!s.has_any());
}

#[test]
fn state_has_any_true_when_at_least_one_word_present() {
    let mut s = State::new();
    s.toggle("a");
    assert!(s.has_any());
}

#[test]
fn state_has_any_true_with_mixed_none_and_some() {
    let mut s = State::new();
    s.toggle("a");
    s.toggle("b");
    s.toggle("a"); // remove "a", keep "b"
    assert!(s.has_any());
}

// Test `State::words_clear`.

#[test]
fn state_words_clear_empties_list() {
    let mut s = State::new();
    s.toggle("a");
    s.toggle("b");
    s.words_clear();
    assert!(s.words.is_empty());
}

#[test]
fn state_words_clear_results_in_has_any_false() {
    let mut s = State::new();
    s.toggle("a");
    s.words_clear();
    assert!(!s.has_any());
}

// Test `State::words_eq`.

#[test]
fn state_words_eq_identical_strings() {
    let s = State::new();
    assert!(s.words_eq("hello", "hello"));
}

#[test]
fn state_words_eq_case_sensitive_by_default() {
    let s = State::new();
    assert!(!s.words_eq("Foo", "foo"));
}

#[test]
fn state_words_eq_case_insensitive_when_flag_set() {
    let mut s = State::new();
    s.ignore_case = true;
    assert!(s.words_eq("Foo", "foo"));
    assert!(s.words_eq("FOO", "foo"));
}

#[test]
fn state_words_eq_different_words_always_false() {
    let mut s = State::new();
    assert!(!s.words_eq("foo", "bar"));
    s.ignore_case = true;
    assert!(!s.words_eq("foo", "bar"));
}

// Further tests.

#[test]
fn toggling_twice_keeps_the_other_words() {
    let mut s = State::new();
    s.toggle("a");
    s.toggle("b");
    s.toggle("c");
    s.toggle("b");
    s.toggle("b");
    assert_eq!(
        s.words,
        vec![
            Some("a".to_owned()),
            Some("b".to_owned()),
            Some("c".to_owned())
        ]
    );
}

#[test]
fn the_first_of_several_free_slots_is_reused() {
    let mut s = State::new();
    for w in ["a", "b", "c"] {
        s.toggle(w);
    }
    s.toggle("c");
    s.toggle("a");
    s.toggle("d");
    assert_eq!(
        s.words,
        vec![Some("d".to_owned()), Some("b".to_owned()), None]
    );
}

#[test]
fn lower_case_mapping_is_that_of_unicode() {
    let mut s = State::new();
    s.ignore_case = true;
    assert!(s.words_eq("\u{c9}T\u{c9}", "\u{e9}t\u{e9}"));
    assert!(!s.words_eq("\u{c9}", "e"));
}
