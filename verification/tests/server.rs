//! Requests and notifications of the editor.

use zed_highlight::server::{
    semantic_tokens, Argument, Backend, CodeAction, Command, InitializeResult, RefreshPlan,
    CLEAR_COMMAND, DEBOUNCE_DELAY_MS, TOGGLE_COMMAND,
};
use zed_highlight::words::{Position, Range};

/// Stable document URI reused by all tests.
const URI: &str = "file:///test.txt";

/// A second stable document URI for multi-document tests.
const URI2: &str = "file:///test2.txt";

// Helper functions.

/// Registers a document.
fn open(svc: &mut Backend, uri: &str, text: &str) -> Option<RefreshPlan> {
    svc.did_open(uri.to_owned(), text.to_owned())
}

/// Replaces a document's full text.
fn change(svc: &mut Backend, uri: &str, text: &str) -> Option<RefreshPlan> {
    svc.did_change(uri.to_owned(), vec![text.to_owned()])
}

/// Evicts a document.
fn close(svc: &mut Backend, uri: &str) {
    svc.did_close(uri);
}

/// Toggles a word on/off.
fn toggle(svc: &mut Backend, word: &str) -> Option<RefreshPlan> {
    svc.execute_command(TOGGLE_COMMAND, &vec![Argument::Text(word.to_owned())])
}

/// Removes all highlighted words.
fn clear(svc: &mut Backend) -> Option<RefreshPlan> {
    svc.execute_command(CLEAR_COMMAND, &vec![])
}

/// Requests code actions for a given selection range and returns their titles in order.
fn code_action_range(
    svc: &Backend,
    uri: &str,
    start_line: u32,
    start_char: u32,
    end_line: u32,
    end_char: u32,
) -> Vec<String> {
    let range = Range {
        start: Position {
            line: start_line,
            character: start_char,
        },
        end: Position {
            line: end_line,
            character: end_char,
        },
    };
    svc.code_action(uri, range)
        .unwrap_or_default()
        .into_iter()
        .map(|a| a.title)
        .collect()
}

/// Requests code actions at the given cursor position and returns their titles in order.
fn code_action(svc: &Backend, uri: &str, line: u32, character: u32) -> Vec<String> {
    code_action_range(svc, uri, line, character, line, character)
}

/// Requests the full semantic token list for a document and returns the raw flat `data` array. Each token is
/// encoded as 5 consecutive u32s: `delta_line`, `delta_start`, `length`, `token_type`, `token_modifiers`.
fn get_tokens(svc: &Backend, uri: &str) -> Vec<u32> {
    let tokens = svc.semantic_tokens_full(uri);
    assert_eq!(tokens.result_id, None);
    tokens
        .data
        .iter()
        .flat_map(|t| {
            [
                t.delta_line,
                t.delta_start,
                t.length,
                t.token_type,
                t.token_modifiers_bitset,
            ]
        })
        .collect()
}

/// Converts the flat token array into (`delta_line`, `delta_start`, `length`, `token_type`) 4-tuples,
/// dropping the always-zero `token_modifiers_bitset` field.
fn decode_tokens(data: &[u32]) -> Vec<(u32, u32, u32, u32)> {
    data.chunks_exact(5)
        .map(|c| (c[0], c[1], c[2], c[3]))
        .collect()
}

// Tests.

/// Baseline: no highlighted words -> no tokens emitted.
#[test]
fn tokens_empty_without_highlighted_words() {
    let mut svc = Backend::new();
    open(&mut svc, URI, "hello world");
    let data = get_tokens(&svc, URI);
    assert!(data.is_empty(), "no tokens when no words are highlighted");
}

/// End-to-end smoke test: one word toggled, one occurrence in document -> verify exact 5-tuple encoding.
#[test]
fn tokens_single_word_single_occurrence() {
    let mut svc = Backend::new();
    open(&mut svc, URI, "hello world");
    toggle(&mut svc, "hello");
    let data = get_tokens(&svc, URI);
    assert_eq!(
        data,
        [0, 0, 5, 0, 0],
        "one token: delta_line=0, delta_start=0, len=5, type=0, mods=0"
    );
}

/// When two tokens share a line, the second token's `delta_start` is relative to the first token's start column.
#[test]
fn tokens_same_line_delta_encoding() {
    let mut svc = Backend::new();
    open(&mut svc, URI, "foo foo");
    toggle(&mut svc, "foo");
    let data = get_tokens(&svc, URI);
    assert_eq!(
        data,
        [0, 0, 3, 0, 0, 0, 4, 3, 0, 0],
        "second token delta_start is relative to first (4 chars apart on same line)"
    );
}

/// When a token is on a different line than the previous one, `delta_start` resets to the absolute column rather
/// than being relative to the previous token. This is mandated by the protocol.
#[test]
fn tokens_cross_line_delta_encoding() {
    let mut svc = Backend::new();
    open(&mut svc, URI, "foo\nfoo");
    toggle(&mut svc, "foo");
    let data = get_tokens(&svc, URI);
    assert_eq!(
        data,
        [0, 0, 3, 0, 0, 1, 0, 3, 0, 0],
        "cross-line token resets delta_start to absolute column"
    );
}

/// Each word occupies its own slot in `state.words`; the slot index maps to a distinct token type, which Zed
/// resolves to a different highlight color via `semantic_token_rules`.
#[test]
fn tokens_two_words_get_distinct_types() {
    let mut svc = Backend::new();
    open(&mut svc, URI, "foo bar");
    toggle(&mut svc, "foo");
    toggle(&mut svc, "bar");
    let data = get_tokens(&svc, URI);
    let decoded = decode_tokens(&data);
    assert_eq!(
        decoded,
        [(0, 0, 3, 0), (0, 4, 3, 1)],
        "first toggled word gets type 0, second gets type 1"
    );
}

/// A second toggle on the same word soft-deletes it (sets its slot to `None`); `build_tokens` skips `None` slots.
#[test]
fn tokens_toggled_off_word_produces_no_tokens() {
    let mut svc = Backend::new();
    open(&mut svc, URI, "hello world");
    toggle(&mut svc, "hello");
    toggle(&mut svc, "hello");
    let data = get_tokens(&svc, URI);
    assert!(data.is_empty(), "toggled-off word must produce no tokens");
}

/// `zed-highlight.clear` calls `words_clear`, which drops all slots at once.
#[test]
fn tokens_clear_removes_all() {
    let mut svc = Backend::new();
    open(&mut svc, URI, "hello world");
    toggle(&mut svc, "hello");
    toggle(&mut svc, "world");
    clear(&mut svc);
    let data = get_tokens(&svc, URI);
    assert!(data.is_empty(), "clear must remove all highlighted words");
}

/// `token type = slot_index % NUM_COLORS` (8), so the 9th word wraps back to type 0 and shares a color with the
/// first word.
#[test]
fn tokens_color_wraps_past_num_colors() {
    let mut svc = Backend::new();
    open(&mut svc, URI, "w0 w1 w2 w3 w4 w5 w6 w7 w8");
    for w in ["w0", "w1", "w2", "w3", "w4", "w5", "w6", "w7", "w8"] {
        toggle(&mut svc, w);
    }
    let data = get_tokens(&svc, URI);
    assert_eq!(data.len(), 9 * 5, "nine tokens, each with 5 fields");
    assert_eq!(data[3], 0, "first word (w0) gets token type 0");
    assert_eq!(data[43], 0, "ninth word (w8) wraps back to token type 0");
}

/// Default whole-word mode wraps the pattern in `\b...\b`, so "foo" does not match inside "foobar".
#[test]
fn tokens_whole_word_excludes_substrings() {
    let mut svc = Backend::new();
    open(&mut svc, URI, "foobar foo");
    toggle(&mut svc, "foo");
    let data = get_tokens(&svc, URI);
    assert_eq!(
        data,
        [0, 7, 3, 0, 0],
        "whole-word mode must not match `foo` inside `foobar`; only standalone `foo` at col 7"
    );
}

/// `textDocument/didChange` replaces the stored document text, so `build_tokens` sees the new content on the very
/// next `semanticTokens/full` request.
#[test]
fn tokens_did_change_updates_document() {
    let mut svc = Backend::new();
    open(&mut svc, URI, "hello world");
    toggle(&mut svc, "foo");
    let data1 = get_tokens(&svc, URI);
    assert!(
        data1.is_empty(),
        "initially no tokens because document lacks `foo`"
    );
    change(&mut svc, URI, "foo bar");
    let data2 = get_tokens(&svc, URI);
    assert_eq!(
        data2,
        [0, 0, 3, 0, 0],
        "token appears after document is updated with `foo`"
    );
}

/// `textDocument/didClose` removes the document from `state.docs`; `build_tokens` returns an empty list when the
/// document is absent rather than panicking or returning stale data.
#[test]
fn tokens_did_close_evicts_document() {
    let mut svc = Backend::new();
    open(&mut svc, URI, "hello world");
    toggle(&mut svc, "hello");
    let data1 = get_tokens(&svc, URI);
    assert!(!data1.is_empty(), "token present before close");
    close(&mut svc, URI);
    let data2 = get_tokens(&svc, URI);
    assert!(data2.is_empty(), "evicted document returns no tokens");
}

/// The toggle code action must use a stateless title ("Toggle highlight") that stays accurate regardless of when
/// Zed last fetched the response. Zed caches code actions by cursor position and only invalidates that cache on
/// cursor movement or document edits, so a state-dependent title ("Highlight" vs "Remove highlight") would be
/// stale and misleading after a toggle without cursor movement. The stateless title is the server-side workaround
/// for the missing `workspace/codeAction/refresh` support in Zed.
#[test]
fn code_action_title_is_stateless() {
    let mut svc = Backend::new();
    open(&mut svc, URI, "foo bar");

    // Before and after toggling, the code action title must be the same stateless string.
    let actions_before = code_action(&svc, URI, 0, 0);
    toggle(&mut svc, "foo");
    let actions_after = code_action(&svc, URI, 0, 0);
    toggle(&mut svc, "foo");
    let actions_after2 = code_action(&svc, URI, 0, 0);

    let expected = r#"Toggle highlight: "foo""#;
    assert!(
        actions_before.iter().any(|a| a == expected),
        "expected stateless title before any toggle; got: {actions_before:?}"
    );
    assert!(
        actions_after.iter().any(|a| a == expected),
        "expected stateless title after toggle on; got: {actions_after:?}"
    );
    assert!(
        actions_after2.iter().any(|a| a == expected),
        "expected stateless title after toggle off; got: {actions_after2:?}"
    );
}

/// The protocol requires character offsets in UTF-16 code units, not bytes. '中' and '文' are each 1 UTF-16 unit
/// but 3 UTF-8 bytes, so "foo" at UTF-16 offset 3 must not be reported at byte offset 7.
#[test]
fn tokens_utf16_offsets_with_multibyte() {
    let mut svc = Backend::new();
    open(&mut svc, URI, "中文 foo");
    toggle(&mut svc, "foo");
    let data = get_tokens(&svc, URI);
    assert_eq!(
        data,
        [0, 3, 3, 0, 0],
        "delta_start must be UTF-16 offset (3), not byte offset (7)"
    );
}

/// Cursor on a space (non-word character) must produce no code actions when no words are highlighted.
#[test]
fn code_action_no_actions_when_cursor_on_space() {
    let mut svc = Backend::new();
    open(&mut svc, URI, "foo bar");
    // Character 3 is the space between "foo" and "bar".
    let actions = code_action(&svc, URI, 0, 3);
    assert!(actions.is_empty(), "no actions when cursor is on a space");
}

/// The "Clear all highlights" action must not appear when no words are currently highlighted.
#[test]
fn code_action_no_clear_action_when_no_highlights() {
    let mut svc = Backend::new();
    open(&mut svc, URI, "foo");
    let actions = code_action(&svc, URI, 0, 0);
    assert!(
        actions.iter().any(|a| a.contains("Toggle highlight")),
        "toggle action must be present when cursor is on a valid word"
    );
    assert!(
        !actions.iter().any(|a| a.contains("Clear")),
        "clear action must not appear when no words are highlighted"
    );
}

/// After toggling a word on, both the toggle and clear actions must be offered together.
#[test]
fn code_action_both_actions_when_word_highlighted() {
    let mut svc = Backend::new();
    open(&mut svc, URI, "foo bar");
    toggle(&mut svc, "foo");
    let actions = code_action(&svc, URI, 0, 0);
    assert!(
        actions.iter().any(|a| a.contains("Toggle highlight")),
        "toggle action must be present"
    );
    assert!(
        actions.iter().any(|a| a.contains("Clear")),
        "clear action must appear when at least one word is highlighted"
    );
}

/// In whole-word mode (the default), toggling a word that starts or ends with a non-word character
/// must be a no-op: `is_highlightable` rejects it, the words list must not change, and no tokens
/// must be produced.
#[test]
fn toggle_non_highlightable_word_is_no_op() {
    let mut svc = Backend::new();
    open(&mut svc, URI, "foo . bar");
    // "." starts and ends with a non-word character — `is_highlightable(".", true)` is false.
    toggle(&mut svc, ".");
    let data = get_tokens(&svc, URI);
    assert!(
        data.is_empty(),
        "toggling a non-highlightable word must not add it to the highlight list"
    );
}

/// After a word is removed, the next new word reuses the freed slot and therefore inherits its
/// color index rather than being appended at the end with a new index.
#[test]
fn tokens_color_reuse_after_remove() {
    let mut svc = Backend::new();
    open(&mut svc, URI, "baz bar");
    toggle(&mut svc, "foo"); // slot 0 = Some("foo"), color 0
    toggle(&mut svc, "bar"); // slot 1 = Some("bar"), color 1
    toggle(&mut svc, "foo"); // slot 0 = None (soft-delete)
    toggle(&mut svc, "baz"); // slot 0 = Some("baz"), reuses color 0
    let data = get_tokens(&svc, URI);
    let decoded = decode_tokens(&data);
    assert_eq!(
        decoded,
        [(0, 0, 3, 0), (0, 4, 3, 1)],
        "baz must reuse slot 0 (color 0) after foo was removed; bar must keep slot 1 (color 1)"
    );
}

/// Highlights are global across all open documents: toggling a word must produce tokens in every
/// document that contains it, not only the one where the action was invoked.
#[test]
fn tokens_multiple_documents() {
    let mut svc = Backend::new();
    open(&mut svc, URI, "hello world");
    open(&mut svc, URI2, "hello there");
    toggle(&mut svc, "hello");
    let data1 = get_tokens(&svc, URI);
    let data2 = get_tokens(&svc, URI2);
    assert!(
        !data1.is_empty(),
        "first document must have a token for 'hello'"
    );
    assert!(
        !data2.is_empty(),
        "second document must have a token for 'hello'"
    );
    assert_eq!(data1[3], 0, "token type in first document must be 0");
    assert_eq!(data2[3], 0, "token type in second document must be 0");
}

/// An empty document must produce no tokens even when words are highlighted.
#[test]
fn tokens_empty_document_returns_no_tokens() {
    let mut svc = Backend::new();
    open(&mut svc, URI, "");
    toggle(&mut svc, "foo");
    let data = get_tokens(&svc, URI);
    assert!(
        data.is_empty(),
        "empty document must produce no tokens even if words are highlighted"
    );
}

/// Emoji (U+1F600) occupy two UTF-16 code units (a surrogate pair). A token following an emoji
/// must report the correct UTF-16 `delta_start`, not the byte offset.
#[test]
fn tokens_surrogate_pair_utf16_offset() {
    let mut svc = Backend::new();
    // '😀' is U+1F600: 4 UTF-8 bytes but 2 UTF-16 code units.
    // "foo" therefore starts at UTF-16 offset 2, not byte offset 4.
    open(&mut svc, URI, "😀foo");
    toggle(&mut svc, "foo");
    let data = get_tokens(&svc, URI);
    assert_eq!(
        data,
        [0, 2, 3, 0, 0],
        "delta_start must be UTF-16 offset (2), not byte offset (4)"
    );
}

/// A non-empty single-line selection must be used verbatim as the highlight target, bypassing the
/// cursor-to-word-boundary scan. This matters for selections that include non-word characters such
/// as dots that the cursor scan would not span.
#[test]
fn code_action_selection_uses_selected_text() {
    let mut svc = Backend::new();
    // "foo.bar" selected in full (chars 0..7). The dot makes the cursor scan stop at "foo",
    // but the selection path must return the full selected text.
    open(&mut svc, URI, "foo.bar");
    let actions = code_action_range(&svc, URI, 0, 0, 0, 7);
    assert!(
        actions
            .iter()
            .any(|a| a == r#"Toggle highlight: "foo.bar""#),
        "selection must yield a toggle action for the full selected text; got: {actions:?}"
    );
}

// Further tests.

#[test]
fn initialize_announces_capabilities() {
    assert_eq!(
        Backend::new().initialize(),
        InitializeResult {
            full_sync: true,
            token_types: (0..8).map(|i| format!("zed-highlight-{i}")).collect(),
            token_modifiers: vec![],
            full_tokens: true,
            range_tokens: false,
            code_actions: true,
            commands: vec![
                "zed-highlight.toggle".to_owned(),
                "zed-highlight.clear".to_owned()
            ],
            server_name: "zed-highlight-lsp".to_owned(),
            server_version: "0.1.4".to_owned(),
        }
    );
}

#[test]
fn a_new_backend_has_no_tokens_and_no_actions() {
    let svc = Backend::new();
    assert!(get_tokens(&svc, URI).is_empty());
    let range = Range {
        start: Position { line: 0, character: 0 },
        end: Position { line: 0, character: 0 },
    };
    assert_eq!(svc.code_action(URI, range), None);
    assert!(!svc.refresh_scheduled);
}

#[test]
fn both_code_actions_are_complete() {
    let mut svc = Backend::new();
    open(&mut svc, URI, "foo bar");
    toggle(&mut svc, "bar");
    let range = Range {
        start: Position { line: 0, character: 1 },
        end: Position { line: 0, character: 1 },
    };
    assert_eq!(
        svc.code_action(URI, range),
        Some(vec![
            CodeAction {
                title: "Toggle highlight: \"foo\"".to_owned(),
                kind: String::new(),
                command: Command {
                    title: "Toggle Highlight".to_owned(),
                    command: "zed-highlight.toggle".to_owned(),
                    arguments: Some(vec![Argument::Text("foo".to_owned())]),
                },
            },
            CodeAction {
                title: "Clear all highlights".to_owned(),
                kind: String::new(),
                command: Command {
                    title: "Clear All Highlights".to_owned(),
                    command: "zed-highlight.clear".to_owned(),
                    arguments: None,
                },
            },
        ])
    );
}

#[test]
fn an_offered_action_toggles_its_word() {
    let mut svc = Backend::new();
    open(&mut svc, URI, "foo bar");
    let range = Range {
        start: Position { line: 0, character: 5 },
        end: Position { line: 0, character: 5 },
    };
    let actions = svc.code_action(URI, range).unwrap();
    let command = &actions[0].command;
    svc.execute_command(&command.command, command.arguments.as_ref().unwrap());
    assert_eq!(svc.state.words, vec![Some("bar".to_owned())]);
    assert_eq!(get_tokens(&svc, URI), [0, 4, 3, 0, 0]);
}

#[test]
fn a_selection_that_matches_nowhere_is_not_offered() {
    let mut svc = Backend::new();
    open(&mut svc, URI, "foobar foo");
    // "oob" is highlightable, but it is no whole word.
    assert!(code_action_range(&svc, URI, 0, 1, 0, 4).is_empty());
    svc.state.whole_word = false;
    assert_eq!(
        code_action_range(&svc, URI, 0, 1, 0, 4),
        ["Toggle highlight: \"oob\""]
    );
}

#[test]
fn unknown_commands_and_arguments_are_ignored() {
    let mut svc = Backend::new();
    toggle(&mut svc, "foo");
    let words = svc.state.words.clone();
    assert_eq!(svc.execute_command("zed-highlight.other", &vec![]), None);
    assert_eq!(svc.execute_command(TOGGLE_COMMAND, &vec![]), None);
    assert_eq!(
        svc.execute_command(
            TOGGLE_COMMAND,
            &vec![Argument::Other, Argument::Text("bar".to_owned())]
        ),
        None
    );
    assert_eq!(toggle(&mut svc, ""), None);
    assert_eq!(toggle(&mut svc, "foo."), None);
    assert_eq!(svc.state.words, words);
}

#[test]
fn refreshes_are_debounced() {
    let mut svc = Backend::new();
    // Nothing is highlighted: nothing has to be refreshed.
    assert_eq!(open(&mut svc, URI, "foo"), None);
    assert_eq!(change(&mut svc, URI, "foo bar"), None);

    let at_once = |cancel_pending| {
        Some(RefreshPlan {
            cancel_pending,
            delay_ms: None,
        })
    };
    let debounced = |cancel_pending| {
        Some(RefreshPlan {
            cancel_pending,
            delay_ms: Some(250),
        })
    };
    assert_eq!(DEBOUNCE_DELAY_MS, 250);
    assert_eq!(toggle(&mut svc, "foo"), at_once(false));
    assert_eq!(change(&mut svc, URI, "foo"), debounced(false));
    assert_eq!(change(&mut svc, URI, "foo "), debounced(true));
    assert_eq!(open(&mut svc, URI2, ""), debounced(true));
    assert_eq!(toggle(&mut svc, "bar"), at_once(true));
    assert_eq!(clear(&mut svc), at_once(false));
    assert_eq!(change(&mut svc, URI, "bar"), None);
    close(&mut svc, URI);
    assert!(!svc.refresh_scheduled);
}

#[test]
fn the_last_of_several_changes_counts() {
    let mut svc = Backend::new();
    open(&mut svc, URI, "foo");
    toggle(&mut svc, "foo");
    svc.did_change(URI.to_owned(), vec![]);
    assert_eq!(get_tokens(&svc, URI), [0, 0, 3, 0, 0]);
    svc.did_change(URI.to_owned(), vec!["bar".to_owned(), " foo".to_owned()]);
    assert_eq!(get_tokens(&svc, URI), [0, 1, 3, 0, 0]);
}

#[test]
fn tokens_of_several_words_are_in_document_order() {
    let mut svc = Backend::new();
    open(&mut svc, URI, "b a\r\na b\n\nb");
    toggle(&mut svc, "a");
    toggle(&mut svc, "b");
    assert_eq!(
        decode_tokens(&get_tokens(&svc, URI)),
        [
            (0, 0, 1, 1),
            (0, 2, 1, 0),
            (1, 0, 1, 0),
            (0, 2, 1, 1),
            (2, 0, 1, 1)
        ]
    );
}

#[test]
fn tokens_at_the_same_place_are_all_sent() {
    let mut svc = Backend::new();
    svc.state.whole_word = false;
    open(&mut svc, URI, "format");
    toggle(&mut svc, "for");
    toggle(&mut svc, "format");
    let mut tokens = decode_tokens(&get_tokens(&svc, URI));
    tokens.sort_unstable();
    assert_eq!(tokens, [(0, 0, 3, 0), (0, 0, 6, 1)]);
}

#[test]
fn tokens_of_overlapping_occurrences_do_not_overlap() {
    let mut svc = Backend::new();
    svc.state.whole_word = false;
    open(&mut svc, URI, "aaaaa");
    toggle(&mut svc, "aa");
    assert_eq!(
        decode_tokens(&get_tokens(&svc, URI)),
        [(0, 0, 2, 0), (0, 2, 2, 0)]
    );
}

#[test]
fn tokens_ignore_case_when_asked_to() {
    let mut svc = Backend::new();
    open(&mut svc, URI, "Foo \u{c9}t\u{c9} foo");
    svc.state.ignore_case = true;
    toggle(&mut svc, "FOO");
    toggle(&mut svc, "\u{e9}t\u{e9}");
    assert_eq!(
        decode_tokens(&get_tokens(&svc, URI)),
        [(0, 0, 3, 0), (0, 4, 3, 1), (0, 4, 3, 0)]
    );
}

#[test]
fn matches_have_utf16_lengths() {
    let mut svc = Backend::new();
    svc.state.whole_word = false;
    open(&mut svc, URI, "a\u{1f600}\u{1f600}b");
    toggle(&mut svc, "\u{1f600}");
    assert_eq!(
        decode_tokens(&get_tokens(&svc, URI)),
        [(0, 1, 2, 0), (0, 2, 2, 0)]
    );
}

#[test]
fn text_that_is_not_highlightable_is_not_marked() {
    let mut svc = Backend::new();
    open(&mut svc, URI, "x.foo");
    svc.state.words = vec![Some(".foo".to_owned()), Some("x".to_owned())];
    assert_eq!(decode_tokens(&get_tokens(&svc, URI)), [(0, 0, 1, 1)]);
}

#[test]
fn removing_a_word_keeps_the_tokens_of_the_others() {
    let mut svc = Backend::new();
    open(&mut svc, URI, "a b a\nb");
    toggle(&mut svc, "a");
    toggle(&mut svc, "b");
    assert_eq!(
        decode_tokens(&get_tokens(&svc, URI)),
        [(0, 0, 1, 0), (0, 2, 1, 1), (0, 2, 1, 0), (1, 0, 1, 1)]
    );
    toggle(&mut svc, "a");
    assert_eq!(
        decode_tokens(&get_tokens(&svc, URI)),
        [(0, 2, 1, 1), (1, 0, 1, 1)]
    );
}

#[test]
fn reopening_a_document_restores_its_tokens() {
    let mut svc = Backend::new();
    open(&mut svc, URI, "foo foo");
    toggle(&mut svc, "foo");
    let before = get_tokens(&svc, URI);
    close(&mut svc, URI);
    assert!(get_tokens(&svc, URI).is_empty());
    assert!(svc.snapshot(URI).is_none());
    open(&mut svc, URI, "foo foo");
    assert_eq!(get_tokens(&svc, URI), before);
}

#[test]
fn a_snapshot_outlives_a_change() {
    let mut svc = Backend::new();
    open(&mut svc, URI, "foo");
    toggle(&mut svc, "foo");
    let snapshot = svc.snapshot(URI);
    clear(&mut svc);
    close(&mut svc, URI);
    assert_eq!(semantic_tokens(&snapshot).data.len(), 1);
    assert!(semantic_tokens(&None).data.is_empty());
}

#[test]
fn an_offered_toggle_adds_a_token() {
    let mut svc = Backend::new();
    open(&mut svc, URI, "foo bar");
    toggle(&mut svc, "foo");
    assert!(code_action(&svc, URI, 0, 4).contains(&"Toggle highlight: \"bar\"".to_owned()));
    toggle(&mut svc, "bar");
    assert_eq!(
        decode_tokens(&get_tokens(&svc, URI)),
        [(0, 0, 3, 0), (0, 4, 3, 1)]
    );
}
