//! What the language server answers to each request and notification of the editor.

use regex::Regex;
use vstd::prelude::*;

use crate::matching;
use crate::matching::{compile_word_regex, matches_anywhere};
use crate::state;
use crate::state::State;
use crate::text;
use crate::text::same_text;
use crate::tokens;
use crate::tokens::{document_tokens, SemanticToken};
use crate::words;
use crate::words::{is_highlightable, word_at, Range};

verus! {

broadcast use {vstd::seq::group_seq_axioms, vstd::string::group_string_axioms};

/// Package name.
pub const PROGRAM: &'static str = "zed-highlight-lsp";

/// Package version.
pub const VERSION: &'static str = "0.1.4";

/// Delay in milliseconds for the debounced refresh after edits.
pub const DEBOUNCE_DELAY_MS: u64 = 250;

/// The command that toggles the highlight of a word.
pub const TOGGLE_COMMAND: &'static str = "zed-highlight.toggle";

/// The command that clears all highlights.
pub const CLEAR_COMMAND: &'static str = "zed-highlight.clear";

/// An argument of a command: a text, or something that no command takes.
#[derive(Debug, PartialEq, Eq)]
pub enum Argument {
    Text(String),
    Other,
}

/// A command that the editor sends back when the user selects a code action.
#[derive(Debug, PartialEq, Eq)]
pub struct Command {
    pub title: String,
    pub command: String,
    pub arguments: Option<Vec<Argument>>,
}

/// An entry of the code action menu.
#[derive(Debug, PartialEq, Eq)]
pub struct CodeAction {
    pub title: String,
    pub kind: String,
    pub command: Command,
}

/// The answer to a request for the tokens of a document.
#[derive(Debug, PartialEq, Eq)]
pub struct SemanticTokens {
    pub result_id: Option<String>,
    pub data: Vec<SemanticToken>,
}

/// A request to the editor to ask for the tokens again.
#[derive(Clone, Copy, Debug, PartialEq, Eq, Structural)]
pub struct RefreshPlan {
    /// Whether a scheduled request has to be cancelled first.
    pub cancel_pending: bool,
    /// The delay in milliseconds after which the request is sent; without one it is
    /// sent right now.
    pub delay_ms: Option<u64>,
}

/// What the server tells the editor about itself at startup.
#[derive(Debug, PartialEq, Eq)]
pub struct InitializeResult {
    /// On every edit, the editor sends us the complete new document text.
    pub full_sync: bool,
    /// The names of the token types, in the order of their numbers.
    pub token_types: Vec<String>,
    /// The names of the token modifiers.
    pub token_modifiers: Vec<String>,
    /// Whether the tokens of a whole document can be requested.
    pub full_tokens: bool,
    /// Whether the tokens of a range can be requested.
    pub range_tokens: bool,
    /// Whether code actions can be requested.
    pub code_actions: bool,
    /// The commands that the server executes.
    pub commands: Vec<String>,
    pub server_name: String,
    pub server_version: String,
}

/// The names of the token types. The editor looks them up in its settings to map each
/// name to a foreground and a background color.
pub open spec fn token_type_legend() -> Seq<Seq<char>> {
    seq![
        "zed-highlight-0"@,
        "zed-highlight-1"@,
        "zed-highlight-2"@,
        "zed-highlight-3"@,
        "zed-highlight-4"@,
        "zed-highlight-5"@,
        "zed-highlight-6"@,
        "zed-highlight-7"@,
    ]
}

/// The texts of a list of strings.
pub open spec fn texts(strings: Seq<String>) -> Seq<Seq<char>> {
    strings.map_values(|s: String| s@)
}

/// The names of the token types, in the order of their numbers.
pub fn token_type_names() -> (names: Vec<String>)
    ensures
        texts(names@) == token_type_legend(),
        names@.len() == tokens::NUM_COLORS,
{
    let names: Vec<String> = vec![
        "zed-highlight-0".to_owned(),
        "zed-highlight-1".to_owned(),
        "zed-highlight-2".to_owned(),
        "zed-highlight-3".to_owned(),
        "zed-highlight-4".to_owned(),
        "zed-highlight-5".to_owned(),
        "zed-highlight-6".to_owned(),
        "zed-highlight-7".to_owned(),
    ];
    assert(texts(names@) =~= token_type_legend());
    names
}

/// The regexes for the highlighted words, slot by slot. There is none for a free slot
/// or an empty word, nor for a word that never matches, nor for one whose regex fails to
/// compile, which is a long one.
pub fn compile_words(words: &Vec<Option<String>>, whole_word: bool, ignore_case: bool) -> (r: Vec<
    Option<Regex>,
>)
    ensures
        tokens::regexes_of(state::slot_texts(words@), whole_word, ignore_case, r@),
        tokens::compiled_as_owed(
            state::slot_texts(words@),
            whole_word,
            tokens::compiled_slots(r@),
        ),
{
    let mut r: Vec<Option<Regex>> = Vec::new();
    for k in 0..words.len()
        invariant
            r@.len() == k,
            tokens::regexes_of(
                state::slot_texts(words@).take(k as int),
                whole_word,
                ignore_case,
                r@,
            ),
            forall|j: int|
                0 <= j < k ==> (#[trigger] state::slot_texts(words@)[j] matches Some(word) ==> {
                    &&& r@[j] is Some ==> matching::may_match(word, whole_word)
                    &&& word.len() > 0 && matching::is_short(word) && matching::may_match(
                        word,
                        whole_word,
                    ) ==> r@[j] is Some
                }),
    {
        let ghost slots = state::slot_texts(words@);
        assert(slots[k as int] == state::slot_text(words@[k as int]));
        // Skip `None` (soft-deleted) and empty-string slots, and words that never match.
        let compiled = match &words[k] {
            Some(word) => {
                if !is_highlightable(word.as_str(), whole_word) {
                    None
                } else {
                    compile_word_regex(word.as_str(), whole_word, ignore_case)
                }
            },
            None => None,
        };
        let ghost before = r@;
        r.push(compiled);
        proof {
            let now = slots.take(k as int + 1);
            assert forall|j: int| 0 <= j < r@.len() implies (#[trigger] r@[j] matches Some(re) ==> {
                &&& now[j] matches Some(word)
                &&& word.len() > 0
                &&& matching::is_regex_of(re, word, whole_word, ignore_case)
            }) by {
                if j < k {
                    assert(r@[j] == before[j]);
                    assert(now[j] == slots.take(k as int)[j]);
                }
            }
        }
    }
    assert(state::slot_texts(words@).take(words@.len() as int) =~= state::slot_texts(words@));
    r
}

/// The title of the action that toggles a word. It does not depend on whether the word
/// is highlighted.
pub open spec fn toggle_title(word: Seq<char>) -> Seq<char> {
    "Toggle highlight: \""@ + word + "\""@
}

/// The action toggles the highlight of the given word.
pub open spec fn is_toggle_action(action: CodeAction, word: Seq<char>) -> bool {
    &&& action.title@ == toggle_title(word)
    &&& action.kind@ == ""@
    &&& action.command.title@ == "Toggle Highlight"@
    &&& action.command.command@ == TOGGLE_COMMAND@
    &&& action.command.arguments matches Some(arguments)
    &&& arguments@.len() == 1
    &&& arguments@[0] matches Argument::Text(argument)
    &&& argument@ == word
}

/// The action clears all highlights.
pub open spec fn is_clear_action(action: CodeAction) -> bool {
    &&& action.title@ == "Clear all highlights"@
    &&& action.kind@ == ""@
    &&& action.command.title@ == "Clear All Highlights"@
    &&& action.command.command@ == CLEAR_COMMAND@
    &&& action.command.arguments is None
}

/// The actions are: first the toggle action for the word, if there is one; then the
/// clear action, if a word is highlighted.
pub open spec fn are_actions(
    actions: Seq<CodeAction>,
    word: Option<Seq<char>>,
    any_highlighted: bool,
) -> bool {
    let n: int = if word is Some {
        1
    } else {
        0
    };
    &&& actions.len() == n + (if any_highlighted {
        1int
    } else {
        0int
    })
    &&& word matches Some(w) ==> is_toggle_action(actions[0], w)
    &&& any_highlighted ==> is_clear_action(actions[n])
}

/// Builds the list of code actions for the word the user is acting on, if any.
pub fn code_actions(word: Option<String>, any_highlighted: bool) -> (actions: Vec<CodeAction>)
    ensures
        are_actions(actions@, state::slot_text(word), any_highlighted),
{
    let mut actions: Vec<CodeAction> = Vec::new();
    // Highlight toggle action for the current word, if any.
    if let Some(w) = word {
        let title = "Toggle highlight: \"".to_owned().concat(w.as_str()).concat("\"");
        // The word is embedded as the single argument of the command, and passed back when the user selects this item.
        let arguments: Vec<Argument> = vec![Argument::Text(w)];
        actions.push(
            CodeAction {
                title,
                kind: "".to_owned(),
                command: Command {
                    title: "Toggle Highlight".to_owned(),
                    command: TOGGLE_COMMAND.to_owned(),
                    arguments: Some(arguments),
                },
            },
        );
    }
    // Clear all highlights action, only if there are any active highlights.
    if any_highlighted {
        actions.push(
            CodeAction {
                title: "Clear all highlights".to_owned(),
                kind: "".to_owned(),
                command: Command {
                    title: "Clear All Highlights".to_owned(),
                    command: CLEAR_COMMAND.to_owned(),
                    arguments: None,
                },
            },
        );
    }
    actions
}

/// The word the user is acting on, if it can be highlighted.
pub open spec fn candidate(
    content: Seq<char>,
    range: Range,
    whole_word: bool,
) -> Option<Seq<char>> {
    match words::content_word(content, range) {
        Some(word) if words::highlightable(word, whole_word) => Some(word),
        _ => None,
    }
}

/// Finds the highlightable word the user is acting on, if any.
pub fn candidate_at(content: &str, range: Range, whole_word: bool) -> (r: Option<String>)
    ensures
        state::slot_text(r) == candidate(content@, range, whole_word),
{
    match word_at(content, range) {
        Some(word) => {
            if is_highlightable(word.as_str(), whole_word) {
                Some(word)
            } else {
                None
            }
        },
        None => None,
    }
}

/// The word of the toggle action: the candidate, if it has a regex and matches
/// somewhere in the document.
pub open spec fn offered(
    content: Seq<char>,
    range: Range,
    whole_word: bool,
    ignore_case: bool,
    compiled: bool,
) -> Option<Seq<char>> {
    match candidate(content, range, whole_word) {
        Some(word) if compiled && matching::content_has_match(
            word,
            whole_word,
            ignore_case,
            content,
        ) => Some(word),
        _ => None,
    }
}

/// The text that a command was given as its first argument.
pub open spec fn first_text(arguments: Seq<Argument>) -> Option<Seq<char>> {
    if arguments.len() > 0 {
        match arguments[0] {
            Argument::Text(text) => Some(text@),
            Argument::Other => None,
        }
    } else {
        None
    }
}

/// The tokens are those for the words in a document with the given text. Every short
/// word that may match has a regex; which of the longer ones have one is left open.
pub open spec fn are_tokens(
    data: Seq<SemanticToken>,
    words: Seq<Option<Seq<char>>>,
    whole_word: bool,
    ignore_case: bool,
    content: Seq<char>,
) -> bool {
    exists|compiled: Seq<bool>|
        compiled.len() == words.len() && tokens::compiled_as_owed(words, whole_word, compiled)
            && #[trigger] tokens::encodes(data, words, compiled, whole_word, ignore_case, content)
}

/// What the tokens of a document depend on, at the time they were asked for. Scanning
/// the document takes no more than that, so the state can change meanwhile.
#[derive(Debug, PartialEq, Eq)]
pub struct Snapshot {
    pub content: String,
    pub words: Vec<Option<String>>,
    pub whole_word: bool,
    pub ignore_case: bool,
}

impl Snapshot {
    /// The semantic tokens of the document.
    pub fn tokens(&self) -> (tokens: Vec<SemanticToken>)
        ensures
            are_tokens(
                tokens@,
                state::slot_texts(self.words@),
                self.whole_word,
                self.ignore_case,
                self.content@,
            ),
    {
        let regexes = compile_words(&self.words, self.whole_word, self.ignore_case);
        let tokens = document_tokens(self.content.as_str(), &regexes);
        proof {
            let compiled = tokens::compiled_slots(regexes@);
            assert(compiled.len() == self.words@.len());
            assert(tokens::encodes(
                tokens@,
                state::slot_texts(self.words@),
                compiled,
                self.whole_word,
                self.ignore_case,
                self.content@,
            ));
        }
        tokens
    }
}

/// A copy of the list of highlighted words.
fn copy_words(words: &Vec<Option<String>>) -> (r: Vec<Option<String>>)
    ensures
        state::slot_texts(r@) == state::slot_texts(words@),
{
    let mut r: Vec<Option<String>> = Vec::new();
    for k in 0..words.len()
        invariant
            r@.len() == k,
            forall|j: int|
                0 <= j < k ==> state::slot_text(#[trigger] r@[j]) == state::slot_text(words@[j]),
    {
        r.push(
            match &words[k] {
                Some(word) => Some(word.clone()),
                None => None,
            },
        );
    }
    assert(state::slot_texts(r@) =~= state::slot_texts(words@));
    r
}

/// The answer to a request for the tokens of a document, given its snapshot. A document
/// that is not open has no tokens.
///
/// Returns `result_id: None`, meaning delta tokens are not supported.
pub fn semantic_tokens(snapshot: &Option<Snapshot>) -> (r: SemanticTokens)
    ensures
        r.result_id is None,
        match *snapshot {
            Some(snapshot) => are_tokens(
                r.data@,
                state::slot_texts(snapshot.words@),
                snapshot.whole_word,
                snapshot.ignore_case,
                snapshot.content@,
            ),
            None => r.data@.len() == 0,
        },
{
    let data = match snapshot {
        Some(snapshot) => snapshot.tokens(),
        // Document not yet registered: return empty; the debounced refresh will fix it.
        None => Vec::new(),
    };
    SemanticTokens { result_id: None, data }
}

/// LSP server's backend.
///
/// This struct holds the state, and knows whether a refresh is scheduled. Each method corresponds to a particular LSP
/// request/notification that the editor sends us. The main logic is in [`Backend::build_tokens`], which scans the
/// document for matches and encodes the token positions in the format required by the LSP semantic tokens protocol.
pub struct Backend {
    pub state: State,
    /// Whether a debounced refresh has been scheduled and not cancelled.
    pub refresh_scheduled: bool,
}

impl Backend {
    /// The tokens are those of a document under the current matching rules; a document
    /// that is not open has none.
    pub open spec fn answers_tokens(&self, uri: Seq<char>, data: Seq<SemanticToken>) -> bool {
        match self.state.doc(uri) {
            Some(content) => are_tokens(
                data,
                self.state.slots(),
                self.state.whole_word,
                self.state.ignore_case,
                content,
            ),
            None => data.len() == 0,
        }
    }

    /// The actions are those for a range of a document with the given text. A short word
    /// has a regex; whether another word that the user is acting on has one is left open.
    pub open spec fn answers_actions(
        &self,
        content: Seq<char>,
        range: Range,
        actions: Seq<CodeAction>,
    ) -> bool {
        exists|compiled: bool|
            (candidate(content, range, self.state.whole_word) matches Some(word)
                && matching::is_short(word) ==> compiled) && are_actions(
                actions,
                #[trigger] offered(
                    content,
                    range,
                    self.state.whole_word,
                    self.state.ignore_case,
                    compiled,
                ),
                self.state.any_highlighted(),
            )
    }

    /// Constructs a new instance of the server's backend.
    pub fn new() -> (backend: Backend)
        ensures
            backend.state.words@.len() == 0,
            backend.state.docs@ == Map::<Seq<char>, String>::empty(),
            backend.state.whole_word,
            !backend.state.ignore_case,
            backend.state.wf(),
            !backend.refresh_scheduled,
    {
        Backend { state: State::new(), refresh_scheduled: false }
    }

    /// Cancels any pending debounced refresh and sends a `workspace/semanticTokens/refresh` request right now.
    /// Used after user-driven actions (toggle/clear) where we want the highlight change to appear without delay.
    pub fn immediate_refresh(&mut self) -> (plan: RefreshPlan)
        ensures
            plan.delay_ms is None,
            is_refresh(*old(self), plan, *final(self)),
            final(self).state == old(self).state,
    {
        let plan = RefreshPlan { cancel_pending: self.refresh_scheduled, delay_ms: None };
        self.refresh_scheduled = false;
        plan
    }

    /// Schedules a `workspace/semanticTokens/refresh` request after a short idle delay, cancelling any previously
    /// scheduled one. Classic debounce pattern: rapid events (keystrokes) keep resetting the timer; the refresh only
    /// fires once the user pauses.
    pub fn debounced_refresh(&mut self) -> (plan: RefreshPlan)
        ensures
            plan.delay_ms == Some(DEBOUNCE_DELAY_MS),
            is_refresh(*old(self), plan, *final(self)),
            final(self).state == old(self).state,
    {
        let plan = RefreshPlan {
            cancel_pending: self.refresh_scheduled,
            delay_ms: Some(DEBOUNCE_DELAY_MS),
        };
        self.refresh_scheduled = true;
        plan
    }

    /// Builds the full list of [`SemanticToken`]s for a document.
    ///
    /// The LSP semantic tokens protocol requires tokens to be encoded as a flat array in document order, where each
    /// position is expressed as a delta from the previous token (not an absolute position). This lets the client decode
    /// the stream in one pass without random access.
    ///
    /// Character offsets must be in UTF-16 code units because that is what the protocol mandates.
    pub fn build_tokens(&self, uri: &str) -> (tokens: Vec<SemanticToken>)
        ensures
            self.answers_tokens(uri@, tokens@),
    {
        semantic_tokens(&self.snapshot(uri)).data
    }

    /// Snapshots what the tokens of a document depend on, if it is open.
    pub fn snapshot(&self, uri: &str) -> (r: Option<Snapshot>)
        ensures
            match r {
                Some(snapshot) => {
                    &&& self.state.doc(uri@) == Some(snapshot.content@)
                    &&& state::slot_texts(snapshot.words@) == self.state.slots()
                    &&& snapshot.whole_word == self.state.whole_word
                    &&& snapshot.ignore_case == self.state.ignore_case
                },
                None => self.state.doc(uri@) is None,
            },
    {
        match self.state.docs.get(uri) {
            Some(content) => Some(
                Snapshot {
                    content: content.clone(),
                    words: copy_words(&self.state.words),
                    whole_word: self.state.whole_word,
                    ignore_case: self.state.ignore_case,
                },
            ),
            None => None,
        }
    }

    /// Called once at server startup. We respond with our capabilities so the editor knows which features we support.
    pub fn initialize(&self) -> (r: InitializeResult)
        ensures
            r.full_sync,
            texts(r.token_types@) == token_type_legend(),
            r.token_modifiers@.len() == 0,
            r.full_tokens,
            !r.range_tokens,
            r.code_actions,
            texts(r.commands@) == seq![TOGGLE_COMMAND@, CLEAR_COMMAND@],
            r.server_name@ == PROGRAM@,
            r.server_version@ == VERSION@,
    {
        let commands: Vec<String> = vec![TOGGLE_COMMAND.to_owned(), CLEAR_COMMAND.to_owned()];
        assert(texts(commands@) =~= seq![TOGGLE_COMMAND@, CLEAR_COMMAND@]);
        InitializeResult {
            full_sync: true,
            token_types: token_type_names(),
            token_modifiers: Vec::new(),
            full_tokens: true,
            range_tokens: false,
            code_actions: true,
            commands,
            server_name: PROGRAM.to_owned(),
            server_version: VERSION.to_owned(),
        }
    }

    /// Called when the editor opens a document for the first time (not on every tab switch to an already-open file).
    ///
    /// To prevent race conditions, after storing the document we schedule a debounced refresh, which asks the editor to
    /// re-request tokens later, by which time the document is guaranteed to be up to date.
    pub fn did_open(&mut self, uri: String, text: String) -> (plan: Option<RefreshPlan>)
        ensures
            final(self).state.docs@ == old(self).state.docs@.insert(uri@, text),
            final(self).state.doc(uri@) == Some(text@),
            final(self).state.words == old(self).state.words,
            final(self).state.whole_word == old(self).state.whole_word,
            final(self).state.ignore_case == old(self).state.ignore_case,
            plan == refresh_after_edit(old(self).state.any_highlighted(), old(self).refresh_scheduled),
            final(self).refresh_scheduled == (old(self).refresh_scheduled
                || old(self).state.any_highlighted()),
    {
        self.state.docs.insert(uri, text);
        self.refresh_after_change()
    }

    /// Schedules a debounced refresh to update the tokens if there are highlighted words.
    fn refresh_after_change(&mut self) -> (plan: Option<RefreshPlan>)
        ensures
            final(self).state == old(self).state,
            plan == refresh_after_edit(old(self).state.any_highlighted(), old(self).refresh_scheduled),
            final(self).refresh_scheduled == (old(self).refresh_scheduled
                || old(self).state.any_highlighted()),
    {
        if self.state.has_any() {
            Some(self.debounced_refresh())
        } else {
            None
        }
    }

    /// Called on every document edit, with the full texts that replace the document one after the other.
    ///
    /// With full sync, there should always be exactly one content change with the full new text, but we defensively
    /// handle the case where it's missing just in case.
    pub fn did_change(&mut self, uri: String, changes: Vec<String>) -> (plan: Option<RefreshPlan>)
        ensures
            final(self).state.docs@ == (if changes@.len() > 0 {
                old(self).state.docs@.insert(uri@, changes@.last())
            } else {
                old(self).state.docs@
            }),
            changes@.len() > 0 ==> final(self).state.doc(uri@) == Some(changes@.last()@),
            final(self).state.words == old(self).state.words,
            final(self).state.whole_word == old(self).state.whole_word,
            final(self).state.ignore_case == old(self).state.ignore_case,
            plan == refresh_after_edit(old(self).state.any_highlighted(), old(self).refresh_scheduled),
            final(self).refresh_scheduled == (old(self).refresh_scheduled
                || old(self).state.any_highlighted()),
    {
        let mut changes = changes;
        // Update the document text.
        if let Some(text) = changes.pop() {
            self.state.docs.insert(uri, text);
        }
        self.refresh_after_change()
    }

    /// Called when a document is closed.
    ///
    /// We evict the document to reclaim memory; if the file is reopened, `did_open` will re-populate it.
    pub fn did_close(&mut self, uri: &str)
        ensures
            final(self).state.docs@ == old(self).state.docs@.remove(uri@),
            final(self).state.doc(uri@) is None,
            final(self).state.words == old(self).state.words,
            final(self).state.whole_word == old(self).state.whole_word,
            final(self).state.ignore_case == old(self).state.ignore_case,
            final(self).refresh_scheduled == old(self).refresh_scheduled,
    {
        self.state.docs.remove(uri);
    }

    /// Called whenever the editor wants the current highlight tokens for a document, which happens:
    /// - When the document first opens.
    /// - After each [`Backend::did_change`] (the editor's own auto-request).
    /// - In response to our `workspace/semanticTokens/refresh` request.
    ///
    /// Returns `result_id: None`, meaning delta tokens are not supported.
    pub fn semantic_tokens_full(&self, uri: &str) -> (r: SemanticTokens)
        ensures
            r.result_id is None,
            self.answers_tokens(uri@, r.data@),
    {
        // Build the token list for the requested document.
        semantic_tokens(&self.snapshot(uri))
    }

    /// Called whenever the editor opens the "editor: toggle code actions" menu.
    ///
    /// We return up to two actions:
    /// - `Toggle highlight: <word>` (if cursor is on a valid word or selection).
    /// - `Clear all highlights` (only if there are any active highlights).
    ///
    /// The toggle action deliberately uses a stateless title ("Toggle highlight") rather than a state-dependent one
    /// ("Highlight" vs "Remove highlight"). The editor caches code action responses by cursor position and only
    /// invalidates that cache on cursor movement or document edits. A stateless title is therefore always accurate
    /// regardless of when the editor last fetched the response.
    pub fn code_action(&self, uri: &str, range: Range) -> (r: Option<Vec<CodeAction>>)
        ensures
            r is Some <==> self.state.doc(uri@) is Some,
            r matches Some(actions) ==> self.answers_actions(
                self.state.doc(uri@)->0,
                range,
                actions@,
            ),
    {
        let content = match self.state.docs.get(uri) {
            Some(content) => content.as_str(),
            None => return None,
        };
        let any_highlighted = self.state.has_any();
        // Find the highlightable word the user is acting on, if any.
        let mut word = candidate_at(content, range, self.state.whole_word);
        let mut shown: bool = false;
        if let Some(w) = &word {
            shown = matches_anywhere(
                content,
                w.as_str(),
                self.state.whole_word,
                self.state.ignore_case,
            );
        }
        if !shown {
            word = None;
        }
        // A short word that is not shown has a regex all the same.
        let ghost compiled = shown || (candidate(
            content@,
            range,
            self.state.whole_word,
        ) matches Some(w) && matching::is_short(w));
        assert(state::slot_text(word) == offered(
            content@,
            range,
            self.state.whole_word,
            self.state.ignore_case,
            compiled,
        ));
        Some(code_actions(word, any_highlighted))
    }

    /// Called when the user selects a code action in the "editor: toggle code actions" menu.
    ///
    /// We mutate state, then tell the editor to re-request semantic tokens right away. Unknown commands are silently
    /// ignored.
    pub fn execute_command(&mut self, command: &str, arguments: &Vec<Argument>) -> (plan: Option<
        RefreshPlan,
    >)
        ensures
            final(self).state.slots() == slots_after(
                command@,
                arguments@,
                old(self).state.slots(),
                old(self).state.whole_word,
                old(self).state.ignore_case,
            ),
            final(self).state.docs == old(self).state.docs,
            final(self).state.whole_word == old(self).state.whole_word,
            final(self).state.ignore_case == old(self).state.ignore_case,
            plan == (if takes_effect(command@, arguments@, old(self).state.whole_word) {
                Some(RefreshPlan { cancel_pending: old(self).refresh_scheduled, delay_ms: None })
            } else {
                None
            }),
            final(self).refresh_scheduled == (old(self).refresh_scheduled && !takes_effect(
                command@,
                arguments@,
                old(self).state.whole_word,
            )),
            old(self).state.wf() ==> final(self).state.wf(),
    {
        proof {
            reveal_strlit("zed-highlight.toggle");
            reveal_strlit("zed-highlight.clear");
            assert(TOGGLE_COMMAND@.len() != CLEAR_COMMAND@.len());
        }
        if same_text(command, TOGGLE_COMMAND) {
            // Toggle the highlight of the word embedded in the command arguments.
            if arguments.len() > 0 {
                if let Argument::Text(word) = &arguments[0] {
                    // Toggle the word in the highlight list only if it's highlightable.
                    if is_highlightable(word.as_str(), self.state.whole_word) {
                        self.state.toggle(word.as_str());
                        return Some(self.immediate_refresh());
                    }
                }
            }
            None
        } else if same_text(command, CLEAR_COMMAND) {
            // Clear all highlights by clearing the list of highlighted words.
            self.state.words_clear();
            assert(self.state.slots() =~= Seq::<Option<Seq<char>>>::empty());
            Some(self.immediate_refresh())
        } else {
            None
        }
    }
}

/// The plan cancels the refresh that is scheduled, if there is one; afterwards one is
/// scheduled if the plan has a delay.
pub open spec fn is_refresh(before: Backend, plan: RefreshPlan, after: Backend) -> bool {
    &&& plan.cancel_pending == before.refresh_scheduled
    &&& after.refresh_scheduled == (plan.delay_ms is Some)
}

/// The refresh that follows a change of a document: a debounced one, if a word is
/// highlighted, which replaces one that is already scheduled.
pub open spec fn refresh_after_edit(any_highlighted: bool, scheduled: bool) -> Option<RefreshPlan> {
    if any_highlighted {
        Some(RefreshPlan { cancel_pending: scheduled, delay_ms: Some(DEBOUNCE_DELAY_MS) })
    } else {
        None
    }
}

/// Whether a command changes what is highlighted: the toggle command with a text that
/// can be highlighted as its first argument, and the clear command.
pub open spec fn takes_effect(
    command: Seq<char>,
    arguments: Seq<Argument>,
    whole_word: bool,
) -> bool {
    ||| command == TOGGLE_COMMAND@ && (first_text(arguments) matches Some(word)
        && words::highlightable(word, whole_word))
    ||| command == CLEAR_COMMAND@
}

/// The slots after a command.
pub open spec fn slots_after(
    command: Seq<char>,
    arguments: Seq<Argument>,
    slots: Seq<Option<Seq<char>>>,
    whole_word: bool,
    ignore_case: bool,
) -> Seq<Option<Seq<char>>> {
    if !takes_effect(command, arguments, whole_word) {
        slots
    } else if command == TOGGLE_COMMAND@ {
        state::toggled(slots, first_text(arguments)->0, ignore_case)
    } else {
        Seq::empty()
    }
}

/// The toggle action that is offered for a word does what it says: when the editor sends
/// its command back, the word is toggled.
pub proof fn an_offered_action_takes_effect(
    actions: Seq<CodeAction>,
    content: Seq<char>,
    range: Range,
    whole_word: bool,
    ignore_case: bool,
    compiled: bool,
    any_highlighted: bool,
    slots: Seq<Option<Seq<char>>>,
)
    requires
        are_actions(
            actions,
            offered(content, range, whole_word, ignore_case, compiled),
            any_highlighted,
        ),
        offered(content, range, whole_word, ignore_case, compiled) is Some,
    ensures
        ({
            let command = actions[0].command;
            let arguments = command.arguments->0@;
            let word = offered(content, range, whole_word, ignore_case, compiled)->0;
            &&& takes_effect(command.command@, arguments, whole_word)
            &&& slots_after(command.command@, arguments, slots, whole_word, ignore_case)
                == state::toggled(slots, word, ignore_case)
        }),
{
}

/// The clear action leaves no word highlighted.
pub proof fn the_clear_action_removes_all_words(
    action: CodeAction,
    arguments: Seq<Argument>,
    slots: Seq<Option<Seq<char>>>,
    whole_word: bool,
    ignore_case: bool,
)
    requires
        is_clear_action(action),
    ensures
        takes_effect(action.command.command@, arguments, whole_word),
        slots_after(action.command.command@, arguments, slots, whole_word, ignore_case).len() == 0,
{
    reveal_strlit("zed-highlight.toggle");
    reveal_strlit("zed-highlight.clear");
    assert(TOGGLE_COMMAND@.len() != CLEAR_COMMAND@.len());
}

/// The toggle action for a word has the same title, and sends the same command, whether
/// or not the word, or any other, is highlighted.
pub proof fn the_toggle_title_is_stateless(
    before: Seq<CodeAction>,
    after: Seq<CodeAction>,
    word: Seq<char>,
    highlighted_before: bool,
    highlighted_after: bool,
)
    requires
        are_actions(before, Some(word), highlighted_before),
        are_actions(after, Some(word), highlighted_after),
    ensures
        before[0].title@ == after[0].title@,
        before[0].command.command@ == after[0].command.command@,
        first_text(before[0].command.arguments->0@) == first_text(
            after[0].command.arguments->0@,
        ),
{
}

/// Toggling a text that cannot be highlighted does nothing.
pub proof fn toggling_other_text_does_nothing(
    arguments: Seq<Argument>,
    slots: Seq<Option<Seq<char>>>,
    whole_word: bool,
    ignore_case: bool,
)
    requires
        first_text(arguments) matches Some(word) ==> !words::highlightable(word, whole_word),
    ensures
        !takes_effect(TOGGLE_COMMAND@, arguments, whole_word),
        slots_after(TOGGLE_COMMAND@, arguments, slots, whole_word, ignore_case) == slots,
{
    reveal_strlit("zed-highlight.toggle");
    reveal_strlit("zed-highlight.clear");
    assert(TOGGLE_COMMAND@.len() != CLEAR_COMMAND@.len());
}

/// A word that is offered is visible once it is highlighted: the document then has a
/// token for it.
pub proof fn an_offered_word_is_visible(
    data: Seq<SemanticToken>,
    content: Seq<char>,
    range: Range,
    slots: Seq<Option<Seq<char>>>,
    compiled: Seq<bool>,
    whole_word: bool,
    ignore_case: bool,
    k: int,
)
    requires
        0 <= k < slots.len(),
        tokens::is_active(slots, compiled, k),
        slots[k] == offered(content, range, whole_word, ignore_case, true),
        tokens::encodes(data, slots, compiled, whole_word, ignore_case, content),
    ensures
        data.len() > 0,
{
    let word = slots[k]->0;
    let lines = text::text_lines(content);
    let l = choose|l: int|
        0 <= l < lines.len() && matching::has_match(
            word,
            whole_word,
            ignore_case,
            #[trigger] lines[l],
        );
    let i = choose|i: int| matching::match_at(word, whole_word, ignore_case, lines[l], i);
    tokens::every_occurrence_is_marked(
        data,
        slots,
        compiled,
        whole_word,
        ignore_case,
        content,
        k,
        l,
        i,
    );
}

/// Some action toggles the highlight of the given word.
pub open spec fn is_offered(actions: Seq<CodeAction>, word: Seq<char>) -> bool {
    exists|i: int| 0 <= i < actions.len() && is_toggle_action(#[trigger] actions[i], word)
}

proof fn lemma_is_offered(
    actions: Seq<CodeAction>,
    offer: Option<Seq<char>>,
    any_highlighted: bool,
    word: Seq<char>,
)
    requires
        are_actions(actions, offer, any_highlighted),
    ensures
        is_offered(actions, word) <==> offer == Some(word),
{
    reveal_strlit("zed-highlight.toggle");
    reveal_strlit("zed-highlight.clear");
    assert(TOGGLE_COMMAND@.len() != CLEAR_COMMAND@.len());
    if offer == Some(word) {
        assert(is_toggle_action(actions[0], word));
    }
}

/// The toggle action does not depend on which words are highlighted: for the same range
/// of the same text it is offered always or never, first in the menu, with the same
/// title and the same command.
pub proof fn the_toggle_action_is_stateless(
    a: Backend,
    b: Backend,
    content: Seq<char>,
    range: Range,
    a_actions: Seq<CodeAction>,
    b_actions: Seq<CodeAction>,
    word: Seq<char>,
)
    requires
        a.state.whole_word == b.state.whole_word,
        a.state.ignore_case == b.state.ignore_case,
        a.answers_actions(content, range, a_actions),
        b.answers_actions(content, range, b_actions),
        candidate(content, range, a.state.whole_word) matches Some(w) ==> matching::is_short(w),
    ensures
        is_offered(a_actions, word) <==> is_offered(b_actions, word),
        is_offered(a_actions, word) ==> is_toggle_action(a_actions[0], word) && is_toggle_action(
            b_actions[0],
            word,
        ),
{
    let (whole_word, ignore_case) = (a.state.whole_word, a.state.ignore_case);
    let offer = offered(content, range, whole_word, ignore_case, true);
    assert(are_actions(a_actions, offer, a.state.any_highlighted()));
    assert(are_actions(b_actions, offer, b.state.any_highlighted()));
    lemma_is_offered(a_actions, offer, a.state.any_highlighted(), word);
    lemma_is_offered(b_actions, offer, b.state.any_highlighted(), word);
}

/// The toggle action for a word of any length does not depend on which words are
/// highlighted, for one outcome of compiling the word's regex.
pub proof fn the_toggle_action_for_an_outcome_is_stateless(
    a_actions: Seq<CodeAction>,
    b_actions: Seq<CodeAction>,
    content: Seq<char>,
    range: Range,
    whole_word: bool,
    ignore_case: bool,
    compiled: bool,
    a_highlighted: bool,
    b_highlighted: bool,
    word: Seq<char>,
)
    requires
        are_actions(
            a_actions,
            offered(content, range, whole_word, ignore_case, compiled),
            a_highlighted,
        ),
        are_actions(
            b_actions,
            offered(content, range, whole_word, ignore_case, compiled),
            b_highlighted,
        ),
    ensures
        is_offered(a_actions, word) <==> is_offered(b_actions, word),
        is_offered(a_actions, word) ==> is_toggle_action(a_actions[0], word) && is_toggle_action(
            b_actions[0],
            word,
        ),
{
    let offer = offered(content, range, whole_word, ignore_case, compiled);
    lemma_is_offered(a_actions, offer, a_highlighted, word);
    lemma_is_offered(b_actions, offer, b_highlighted, word);
}

/// An offered toggle of a word of any length that was not highlighted keeps all tokens of
/// the document and adds at least one, if the word has a regex and the same other words
/// have one before and after.
pub proof fn an_offered_toggle_of_a_compiled_word_adds_tokens(
    actions: Seq<CodeAction>,
    content: Seq<char>,
    range: Range,
    slots: Seq<Option<Seq<char>>>,
    whole_word: bool,
    ignore_case: bool,
    any_highlighted: bool,
    word: Seq<char>,
    compiled: Seq<bool>,
    compiled_after: Seq<bool>,
    data: Seq<SemanticToken>,
    data_after: Seq<SemanticToken>,
    k: int,
)
    requires
        are_actions(
            actions,
            offered(content, range, whole_word, ignore_case, true),
            any_highlighted,
        ),
        is_offered(actions, word),
        !state::is_highlighted(slots, word, ignore_case),
        ({
            let after = slots_after(
                actions[0].command.command@,
                actions[0].command.arguments->0@,
                slots,
                whole_word,
                ignore_case,
            );
            &&& tokens::encodes(data, slots, compiled, whole_word, ignore_case, content)
            &&& tokens::encodes(
                data_after,
                after,
                compiled_after,
                whole_word,
                ignore_case,
                content,
            )
            &&& tokens::compiled_alike(slots, compiled, after, compiled_after)
            &&& 0 <= k < after.len()
            &&& state::holds(after[k], word, ignore_case)
            &&& compiled_after[k]
        }),
    ensures
        tokens::delta_decoded(data).to_multiset().subset_of(
            tokens::delta_decoded(data_after).to_multiset(),
        ),
        data.len() < data_after.len(),
{
    lemma_is_offered(
        actions,
        offered(content, range, whole_word, ignore_case, true),
        any_highlighted,
        word,
    );
    an_offered_action_takes_effect(
        actions,
        content,
        range,
        whole_word,
        ignore_case,
        true,
        any_highlighted,
        slots,
    );
    state::lemma_slot_of(slots, word, ignore_case);
    state::lemma_free_slot(slots);
    let after = state::toggled(slots, word, ignore_case);
    if k != state::free_slot(slots) {
        assert(state::holds(slots[k], word, ignore_case));
    }
    tokens::adding_a_compiled_word_adds_tokens(
        data,
        data_after,
        slots,
        after,
        compiled,
        compiled_after,
        whole_word,
        ignore_case,
        content,
        k,
    );
}

proof fn lemma_toggled_adds_a_slot(
    slots: Seq<Option<Seq<char>>>,
    word: Seq<char>,
    ignore_case: bool,
    whole_word: bool,
    content: Seq<char>,
) -> (k: int)
    requires
        !state::is_highlighted(slots, word, ignore_case),
    ensures
        0 <= k < state::toggled(slots, word, ignore_case).len(),
        state::toggled(slots, word, ignore_case)[k] == Some(word),
        tokens::marks(
            state::toggled(slots, word, ignore_case).update(k, None),
            whole_word,
            ignore_case,
            content,
        ) == tokens::marks(slots, whole_word, ignore_case, content),
{
    state::lemma_slot_of(slots, word, ignore_case);
    state::lemma_free_slot(slots);
    let after = state::toggled(slots, word, ignore_case);
    let k = state::free_slot(slots);
    if k < slots.len() {
        assert(after.update(k, None) =~= slots);
    } else {
        assert(after.update(k, None) =~= slots.push(None));
        tokens::free_slots_have_no_tokens(slots, whole_word, ignore_case, content);
    }
    k
}

/// An offered toggle is never a no-op: when the editor sends the command of an offered
/// toggle action back, and the word was not highlighted, it is highlighted, and the
/// document keeps all its tokens and gets at least one more.
pub proof fn an_offered_toggle_adds_tokens(
    before: Backend,
    after: Backend,
    uri: Seq<char>,
    range: Range,
    actions: Seq<CodeAction>,
    word: Seq<char>,
    data_before: Seq<SemanticToken>,
    data_after: Seq<SemanticToken>,
)
    requires
        before.state.doc(uri) is Some,
        before.answers_actions(before.state.doc(uri)->0, range, actions),
        is_offered(actions, word),
        !state::is_highlighted(before.state.slots(), word, before.state.ignore_case),
        after.state.slots() == slots_after(
            actions[0].command.command@,
            actions[0].command.arguments->0@,
            before.state.slots(),
            before.state.whole_word,
            before.state.ignore_case,
        ),
        after.state.doc(uri) == before.state.doc(uri),
        after.state.whole_word == before.state.whole_word,
        after.state.ignore_case == before.state.ignore_case,
        before.answers_tokens(uri, data_before),
        after.answers_tokens(uri, data_after),
        tokens::all_short(before.state.slots()),
        matching::is_short(word),
    ensures
        state::is_highlighted(after.state.slots(), word, after.state.ignore_case),
        tokens::delta_decoded(data_before).to_multiset().subset_of(
            tokens::delta_decoded(data_after).to_multiset(),
        ),
        data_before.len() < data_after.len(),
{
    broadcast use vstd::multiset::group_multiset_axioms;

    let content = before.state.doc(uri)->0;
    let (whole_word, ignore_case) = (before.state.whole_word, before.state.ignore_case);
    let slots = before.state.slots();
    let any = before.state.any_highlighted();
    let compiled = choose|compiled: bool|
        are_actions(
            actions,
            #[trigger] offered(content, range, whole_word, ignore_case, compiled),
            any,
        );
    lemma_is_offered(
        actions,
        offered(content, range, whole_word, ignore_case, compiled),
        any,
        word,
    );
    an_offered_action_takes_effect(
        actions,
        content,
        range,
        whole_word,
        ignore_case,
        compiled,
        any,
        slots,
    );
    let now = state::toggled(slots, word, ignore_case);
    let k = lemma_toggled_adds_a_slot(slots, word, ignore_case, whole_word, content);
    assert(state::holds(now[k], word, ignore_case));
    state::lemma_slot_of(slots, word, ignore_case);
    state::lemma_free_slot(slots);
    assert(tokens::all_short(now)) by {
        assert forall|j: int| 0 <= j < now.len() implies (#[trigger] now[j] matches Some(w)
            ==> matching::is_short(w)) by {
            if j < slots.len() {
                assert(slots[j] matches Some(w) ==> matching::is_short(w));
            }
        }
    }
    lemma_tokens_are_marks(data_before, slots, whole_word, ignore_case, content);
    lemma_tokens_are_marks(data_after, now, whole_word, ignore_case, content);
    tokens::tokens_of_words_add_up(now, whole_word, ignore_case, content, k);
    let only = tokens::alone(now, k);
    tokens::a_matching_word_has_tokens(only, whole_word, ignore_case, content, k);
}

proof fn lemma_tokens_are_marks(
    data: Seq<SemanticToken>,
    words: Seq<Option<Seq<char>>>,
    whole_word: bool,
    ignore_case: bool,
    content: Seq<char>,
)
    requires
        are_tokens(data, words, whole_word, ignore_case, content),
        tokens::all_short(words),
    ensures
        tokens::delta_decoded(data).to_multiset() == tokens::marks(
            words,
            whole_word,
            ignore_case,
            content,
        ),
        data.len() == tokens::marks(words, whole_word, ignore_case, content).len(),
{
    let compiled = choose|compiled: Seq<bool>|
        compiled.len() == words.len() && tokens::compiled_as_owed(words, whole_word, compiled)
            && #[trigger] tokens::encodes(data, words, compiled, whole_word, ignore_case, content);
    tokens::tokens_are_determined(data, words, compiled, whole_word, ignore_case, content);
    tokens::delta_decoded(data).to_multiset_ensures();
}

/// With a single highlighted word, a document has tokens if and only if the word matches
/// anywhere in it.
pub proof fn a_word_has_tokens_iff_it_matches(
    backend: Backend,
    uri: Seq<char>,
    word: Seq<char>,
    data: Seq<SemanticToken>,
)
    requires
        backend.state.doc(uri) is Some,
        backend.state.slots() == seq![Some(word)],
        word.len() > 0,
        matching::is_short(word),
        backend.answers_tokens(uri, data),
    ensures
        data.len() > 0 <==> matching::matches_content(
            word,
            backend.state.whole_word,
            backend.state.ignore_case,
            backend.state.doc(uri)->0,
        ),
{
    let content = backend.state.doc(uri)->0;
    let (whole_word, ignore_case) = (backend.state.whole_word, backend.state.ignore_case);
    let slots = backend.state.slots();
    lemma_tokens_are_marks(data, slots, whole_word, ignore_case, content);
    if matching::matches_content(word, whole_word, ignore_case, content) {
        tokens::a_matching_word_has_tokens(slots, whole_word, ignore_case, content, 0);
    }
    if data.len() > 0 {
        only_highlightable_words_are_marked(backend, uri, data, 0);
        let (k, l, i) = choose|k: int, l: int, i: int|
            0 <= k < slots.len() && words::highlightable(slots[k]->0, whole_word)
                && #[trigger] tokens::is_token_of(
                tokens::delta_decoded(data)[0],
                slots,
                whole_word,
                ignore_case,
                text::text_lines(content),
                k,
                l,
                i,
            );
        assert(matching::has_match(word, whole_word, ignore_case, text::text_lines(content)[l]));
    }
}

/// Only text that can be highlighted is marked: every token of a document stands for an
/// occurrence of a highlightable word, whatever the list of words holds.
pub proof fn only_highlightable_words_are_marked(
    backend: Backend,
    uri: Seq<char>,
    data: Seq<SemanticToken>,
    n: int,
)
    requires
        backend.state.doc(uri) is Some,
        backend.answers_tokens(uri, data),
        0 <= n < data.len(),
    ensures
        exists|k: int, l: int, i: int|
            0 <= k < backend.state.slots().len() && backend.state.slots()[k] is Some
                && words::highlightable(backend.state.slots()[k]->0, backend.state.whole_word)
                && #[trigger] tokens::is_token_of(
                tokens::delta_decoded(data)[n],
                backend.state.slots(),
                backend.state.whole_word,
                backend.state.ignore_case,
                text::text_lines(backend.state.doc(uri)->0),
                k,
                l,
                i,
            ),
{
    let content = backend.state.doc(uri)->0;
    let (whole_word, ignore_case) = (backend.state.whole_word, backend.state.ignore_case);
    let slots = backend.state.slots();
    let compiled = choose|compiled: Seq<bool>|
        compiled.len() == slots.len() && tokens::compiled_as_owed(slots, whole_word, compiled)
            && #[trigger] tokens::encodes(data, slots, compiled, whole_word, ignore_case, content);
    tokens::only_occurrences_are_marked(
        data,
        slots,
        compiled,
        whole_word,
        ignore_case,
        content,
        n,
    );
    let (k, l, i) = choose|k: int, l: int, i: int|
        0 <= k < slots.len() && tokens::is_active(slots, compiled, k)
            && #[trigger] tokens::is_token_of(
            tokens::delta_decoded(data)[n],
            slots,
            whole_word,
            ignore_case,
            text::text_lines(content),
            k,
            l,
            i,
        );
    assert(slots[k] is Some);
    assert(tokens::is_token_of(
        tokens::delta_decoded(data)[n],
        slots,
        whole_word,
        ignore_case,
        text::text_lines(content),
        k,
        l,
        i,
    ));
}

/// Removing one word removes its own tokens and no others, and changes no color: the
/// tokens of a document are those without the word and those of the word alone.
pub proof fn removing_a_word_removes_its_tokens(
    all: Backend,
    without: Backend,
    only: Backend,
    uri: Seq<char>,
    k: int,
    all_data: Seq<SemanticToken>,
    without_data: Seq<SemanticToken>,
    only_data: Seq<SemanticToken>,
)
    requires
        0 <= k < all.state.slots().len(),
        without.state.slots() == all.state.slots().update(k, None),
        only.state.slots() == tokens::alone(all.state.slots(), k),
        all.state.doc(uri) is Some,
        without.state.doc(uri) == all.state.doc(uri),
        only.state.doc(uri) == all.state.doc(uri),
        without.state.whole_word == all.state.whole_word,
        only.state.whole_word == all.state.whole_word,
        without.state.ignore_case == all.state.ignore_case,
        only.state.ignore_case == all.state.ignore_case,
        all.answers_tokens(uri, all_data),
        without.answers_tokens(uri, without_data),
        only.answers_tokens(uri, only_data),
        tokens::all_short(all.state.slots()),
    ensures
        tokens::delta_decoded(all_data).to_multiset() == tokens::delta_decoded(
            without_data,
        ).to_multiset().add(tokens::delta_decoded(only_data).to_multiset()),
{
    let content = all.state.doc(uri)->0;
    let (whole_word, ignore_case) = (all.state.whole_word, all.state.ignore_case);
    let slots = all.state.slots();
    assert(tokens::all_short(without.state.slots())) by {
        assert(forall|j: int|
            0 <= j < slots.len() ==> (#[trigger] without.state.slots()[j] is None
                || without.state.slots()[j] == slots[j]));
    }
    lemma_tokens_are_marks(all_data, slots, whole_word, ignore_case, content);
    lemma_tokens_are_marks(
        without_data,
        without.state.slots(),
        whole_word,
        ignore_case,
        content,
    );
    lemma_tokens_are_marks(only_data, only.state.slots(), whole_word, ignore_case, content);
    tokens::tokens_of_words_add_up(slots, whole_word, ignore_case, content, k);
}

/// Highlights are shared by all open documents: documents with the same text have the
/// same tokens.
pub proof fn highlights_are_shared(
    backend: Backend,
    uri: Seq<char>,
    other: Seq<char>,
    data: Seq<SemanticToken>,
    other_data: Seq<SemanticToken>,
)
    requires
        backend.state.doc(uri) is Some,
        backend.state.doc(other) == backend.state.doc(uri),
        backend.answers_tokens(uri, data),
        backend.answers_tokens(other, other_data),
        tokens::all_short(backend.state.slots()),
    ensures
        tokens::delta_decoded(data).to_multiset() == tokens::delta_decoded(
            other_data,
        ).to_multiset(),
{
    let content = backend.state.doc(uri)->0;
    let (whole_word, ignore_case) = (backend.state.whole_word, backend.state.ignore_case);
    let slots = backend.state.slots();
    lemma_tokens_are_marks(data, slots, whole_word, ignore_case, content);
    lemma_tokens_are_marks(other_data, slots, whole_word, ignore_case, content);
}

/// A document that is closed has no tokens and no code actions, and opening it again
/// with the same text restores its tokens.
pub proof fn reopening_restores_tokens(
    before: Backend,
    closed: Backend,
    reopened: Backend,
    uri: Seq<char>,
    text: String,
    data_before: Seq<SemanticToken>,
    data_closed: Seq<SemanticToken>,
    data_reopened: Seq<SemanticToken>,
)
    requires
        before.state.doc(uri) == Some(text@),
        closed.state.docs@ == before.state.docs@.remove(uri),
        reopened.state.docs@ == closed.state.docs@.insert(uri, text),
        reopened.state.words == before.state.words,
        reopened.state.whole_word == before.state.whole_word,
        reopened.state.ignore_case == before.state.ignore_case,
        before.answers_tokens(uri, data_before),
        closed.answers_tokens(uri, data_closed),
        reopened.answers_tokens(uri, data_reopened),
        tokens::all_short(before.state.slots()),
    ensures
        closed.state.doc(uri) is None,
        data_closed.len() == 0,
        tokens::delta_decoded(data_reopened).to_multiset() == tokens::delta_decoded(
            data_before,
        ).to_multiset(),
{
    let (whole_word, ignore_case) = (before.state.whole_word, before.state.ignore_case);
    let slots = before.state.slots();
    lemma_tokens_are_marks(data_before, slots, whole_word, ignore_case, text@);
    lemma_tokens_are_marks(data_reopened, slots, whole_word, ignore_case, text@);
}

/// Opening a closed document again with the same text restores its tokens for words of
/// any length, if the same words have a regex before and after.
pub proof fn reopening_restores_tokens_of_compiled_words(
    before: Backend,
    closed: Backend,
    reopened: Backend,
    uri: Seq<char>,
    text: String,
    compiled: Seq<bool>,
    data_before: Seq<SemanticToken>,
    data_reopened: Seq<SemanticToken>,
)
    requires
        before.state.doc(uri) == Some(text@),
        closed.state.docs@ == before.state.docs@.remove(uri),
        reopened.state.docs@ == closed.state.docs@.insert(uri, text),
        reopened.state.words == before.state.words,
        reopened.state.whole_word == before.state.whole_word,
        reopened.state.ignore_case == before.state.ignore_case,
        tokens::encodes(
            data_before,
            before.state.slots(),
            compiled,
            before.state.whole_word,
            before.state.ignore_case,
            before.state.doc(uri)->0,
        ),
        tokens::encodes(
            data_reopened,
            reopened.state.slots(),
            compiled,
            reopened.state.whole_word,
            reopened.state.ignore_case,
            reopened.state.doc(uri)->0,
        ),
    ensures
        closed.state.doc(uri) is None,
        reopened.state.doc(uri) == before.state.doc(uri),
        tokens::delta_decoded(data_reopened).to_multiset() == tokens::delta_decoded(
            data_before,
        ).to_multiset(),
{
}

/// How many scheduled refreshes are pending after the given plans, if none of them has
/// become due.
pub open spec fn pending_refreshes(plans: Seq<RefreshPlan>, at_first: int) -> int
    decreases plans.len(),
{
    if plans.len() == 0 {
        at_first
    } else {
        let plan = plans.last();
        pending_refreshes(plans.drop_last(), at_first) - (if plan.cancel_pending {
            1int
        } else {
            0int
        }) + (if plan.delay_ms is Some {
            1int
        } else {
            0int
        })
    }
}

/// At any time at most one scheduled refresh is pending, whatever refreshes follow one
/// another.
pub proof fn at_most_one_refresh_is_pending(backends: Seq<Backend>, plans: Seq<RefreshPlan>)
    requires
        backends.len() == plans.len() + 1,
        forall|i: int|
            0 <= i < plans.len() ==> is_refresh(backends[i], #[trigger] plans[i], backends[i + 1]),
    ensures
        pending_refreshes(
            plans,
            if backends[0].refresh_scheduled {
                1
            } else {
                0
            },
        ) == (if backends.last().refresh_scheduled {
            1int
        } else {
            0int
        }),
    decreases plans.len(),
{
    if plans.len() > 0 {
        let n = plans.len() - 1;
        assert(is_refresh(backends[n], plans[n], backends[n + 1]));
        let (earlier, done) = (backends.drop_last(), plans.drop_last());
        assert forall|i: int| 0 <= i < done.len() implies is_refresh(
            earlier[i],
            #[trigger] done[i],
            earlier[i + 1],
        ) by {
            assert(is_refresh(backends[i], plans[i], backends[i + 1]));
        }
        at_most_one_refresh_is_pending(earlier, done);
    }
}

/// When the refresh is due that plan `i` schedules, where the plans are carried out at
/// the given times, in milliseconds.
pub open spec fn due_time(plans: Seq<RefreshPlan>, times: Seq<int>, i: int) -> int {
    times[i] + plans[i].delay_ms->0
}

/// Whether the refresh that plan `i` schedules is sent when it is due: the next plan does
/// not cancel it before.
pub open spec fn is_sent(plans: Seq<RefreshPlan>, times: Seq<int>, i: int) -> bool {
    !(i + 1 < plans.len() && plans[i + 1].cancel_pending && times[i + 1] < due_time(
        plans,
        times,
        i,
    ))
}

/// A burst of debounced refreshes, each within the delay of the one before, cancels what
/// was pending and leads to a single request, which is sent after the delay of the last.
pub proof fn a_burst_sends_one_request(
    backends: Seq<Backend>,
    plans: Seq<RefreshPlan>,
    times: Seq<int>,
)
    requires
        plans.len() > 0,
        backends.len() == plans.len() + 1,
        times.len() == plans.len(),
        forall|i: int|
            0 <= i < plans.len() ==> {
                &&& is_refresh(backends[i], #[trigger] plans[i], backends[i + 1])
                &&& plans[i].delay_ms == Some(DEBOUNCE_DELAY_MS)
            },
        forall|i: int|
            0 <= i < times.len() - 1 ==> (#[trigger] times[i]) <= times[i + 1] < times[i]
                + DEBOUNCE_DELAY_MS,
    ensures
        plans[0].cancel_pending == backends[0].refresh_scheduled,
        forall|i: int| 0 <= i < plans.len() ==> (#[trigger] is_sent(plans, times, i) <==> i
            == plans.len() - 1),
        backends.last().refresh_scheduled,
        due_time(plans, times, plans.len() - 1) == times.last() + DEBOUNCE_DELAY_MS,
{
    assert forall|i: int| 0 <= i < plans.len() implies (#[trigger] is_sent(plans, times, i) <==> i
        == plans.len() - 1) by {
        assert(plans[i].delay_ms == Some(DEBOUNCE_DELAY_MS));
        if i + 1 < plans.len() {
            assert(is_refresh(backends[i], plans[i], backends[i + 1]));
            assert(is_refresh(backends[i + 1], plans[i + 1], backends[i + 2]));
            assert(times[i + 1] < times[i] + DEBOUNCE_DELAY_MS);
        }
    }
    assert(is_refresh(backends[0], plans[0], backends[1]));
    let n = plans.len() - 1;
    assert(is_refresh(backends[n], plans[n], backends[n + 1]));
}

/// Once all highlights are cleared, no document has tokens.
pub proof fn clearing_removes_all_tokens(
    data: Seq<SemanticToken>,
    arguments: Seq<Argument>,
    slots: Seq<Option<Seq<char>>>,
    compiled: Seq<bool>,
    whole_word: bool,
    ignore_case: bool,
    content: Seq<char>,
)
    requires
        tokens::encodes(
            data,
            slots_after(CLEAR_COMMAND@, arguments, slots, whole_word, ignore_case),
            compiled,
            whole_word,
            ignore_case,
            content,
        ),
    ensures
        data.len() == 0,
{
    reveal_strlit("zed-highlight.toggle");
    reveal_strlit("zed-highlight.clear");
    assert(TOGGLE_COMMAND@.len() != CLEAR_COMMAND@.len());
    let none = slots_after(CLEAR_COMMAND@, arguments, slots, whole_word, ignore_case);
    tokens::no_words_no_tokens(data, none, compiled, whole_word, ignore_case, content);
}

/// A word that has been toggled off is no longer marked: every token of a document then
/// stands for an occurrence of another word.
pub proof fn a_removed_word_is_not_marked(
    data: Seq<SemanticToken>,
    slots: Seq<Option<Seq<char>>>,
    word: Seq<char>,
    compiled: Seq<bool>,
    whole_word: bool,
    ignore_case: bool,
    content: Seq<char>,
    n: int,
)
    requires
        state::are_distinct(slots, ignore_case),
        state::is_highlighted(slots, word, ignore_case),
        tokens::encodes(
            data,
            state::toggled(slots, word, ignore_case),
            compiled,
            whole_word,
            ignore_case,
            content,
        ),
        0 <= n < tokens::delta_decoded(data).len(),
    ensures
        exists|k: int, l: int, i: int|
            !state::holds(state::toggled(slots, word, ignore_case)[k], word, ignore_case)
                && tokens::is_active(state::toggled(slots, word, ignore_case), compiled, k)
                && #[trigger] tokens::is_token_of(
                tokens::delta_decoded(data)[n],
                state::toggled(slots, word, ignore_case),
                whole_word,
                ignore_case,
                text::text_lines(content),
                k,
                l,
                i,
            ),
{
    let after = state::toggled(slots, word, ignore_case);
    tokens::only_occurrences_are_marked(
        data,
        after,
        compiled,
        whole_word,
        ignore_case,
        content,
        n,
    );
    state::toggling_flips_one_word(slots, word, word, ignore_case);
    let (k, l, i) = choose|k: int, l: int, i: int|
        0 <= k < after.len() && tokens::is_active(after, compiled, k)
            && #[trigger] tokens::is_token_of(
            tokens::delta_decoded(data)[n],
            after,
            whole_word,
            ignore_case,
            text::text_lines(content),
            k,
            l,
            i,
        );
    assert(!state::holds(after[k], word, ignore_case));
    assert(tokens::is_token_of(
        tokens::delta_decoded(data)[n],
        after,
        whole_word,
        ignore_case,
        text::text_lines(content),
        k,
        l,
        i,
    ));
}

/// A document that is not open, or no longer, has no tokens.
pub proof fn a_closed_document_has_no_tokens(
    backend: Backend,
    uri: Seq<char>,
    data: Seq<SemanticToken>,
)
    requires
        !backend.state.docs@.contains_key(uri),
        backend.answers_tokens(uri, data),
    ensures
        data.len() == 0,
{
}

/// The type of every token is in the legend.
pub proof fn every_token_type_is_in_the_legend(
    data: Seq<SemanticToken>,
    slots: Seq<Option<Seq<char>>>,
    compiled: Seq<bool>,
    whole_word: bool,
    ignore_case: bool,
    content: Seq<char>,
    n: int,
)
    requires
        tokens::encodes(data, slots, compiled, whole_word, ignore_case, content),
        0 <= n < tokens::delta_decoded(data).len(),
    ensures
        tokens::delta_decoded(data)[n].token_type < token_type_legend().len(),
{
    tokens::only_occurrences_are_marked(
        data,
        slots,
        compiled,
        whole_word,
        ignore_case,
        content,
        n,
    );
}

/// Every token that a document is answered with names a line of the document that holds,
/// at the offset and for the length it names, one of the highlighted words, in the color
/// of its slot.
pub proof fn answered_tokens_stand_where_they_say(
    backend: Backend,
    uri: Seq<char>,
    data: Seq<SemanticToken>,
    n: int,
)
    requires
        backend.state.docs@.contains_key(uri),
        backend.answers_tokens(uri, data),
        tokens::fits(text::text_lines(backend.state.docs@[uri]@)),
        0 <= n < data.len(),
    ensures
        ({
            let lines = text::text_lines(backend.state.docs@[uri]@);
            let t = tokens::delta_decoded(data)[n];
            &&& t.line < lines.len()
            &&& exists|k: int, i: int|
                {
                    let word = backend.state.words@[k]->0@;
                    &&& 0 <= k < backend.state.words@.len() && backend.state.words@[k] is Some
                    &&& t.token_type == k % 8
                    &&& word.len() > 0
                    &&& backend.state.whole_word ==> words::highlightable(word, true)
                    &&& #[trigger] matching::stands_at(
                        backend.state.words@[k]->0@,
                        backend.state.whole_word,
                        backend.state.ignore_case,
                        lines[t.line as int],
                        i,
                    )
                    &&& text::utf16_count(lines[t.line as int].take(i)) == t.start
                    &&& text::utf16_count(lines[t.line as int].subrange(i, i + word.len()))
                        == t.length
                }
        }),
{
    let content = backend.state.docs@[uri]@;
    let lines = text::text_lines(content);
    let (whole_word, ignore_case) = (backend.state.whole_word, backend.state.ignore_case);
    let slots = backend.state.slots();
    let compiled = choose|compiled: Seq<bool>|
        compiled.len() == slots.len() && tokens::compiled_as_owed(slots, whole_word, compiled)
            && #[trigger] tokens::encodes(data, slots, compiled, whole_word, ignore_case, content);
    tokens::every_token_stands_where_it_says(
        data,
        slots,
        compiled,
        whole_word,
        ignore_case,
        content,
        n,
    );
    let t = tokens::delta_decoded(data)[n];
    let (k, i) = choose|k: int, i: int|
        {
            let word = slots[k]->0;
            &&& 0 <= k < slots.len() && slots[k] is Some && compiled[k]
            &&& t.token_type == k % 8
            &&& word.len() > 0
            &&& #[trigger] matching::stands_at(
                slots[k]->0,
                whole_word,
                ignore_case,
                lines[t.line as int],
                i,
            )
            &&& text::utf16_count(lines[t.line as int].take(i)) == t.start
            &&& text::utf16_count(lines[t.line as int].subrange(i, i + word.len())) == t.length
        };
    assert(slots[k] == state::slot_text(backend.state.words@[k]));
    assert(matching::may_match(slots[k]->0, whole_word));
    assert(matching::stands_at(
        backend.state.words@[k]->0@,
        whole_word,
        ignore_case,
        lines[t.line as int],
        i,
    ));
}

/// Wherever a highlighted word of ordinary length stands in a document, an answered token
/// on that line covers it, in the color of the word's slot.
pub proof fn places_of_words_are_answered(
    backend: Backend,
    uri: Seq<char>,
    data: Seq<SemanticToken>,
    k: int,
    l: int,
    i: int,
)
    requires
        backend.state.docs@.contains_key(uri),
        backend.answers_tokens(uri, data),
        tokens::fits(text::text_lines(backend.state.docs@[uri]@)),
        0 <= k < backend.state.words@.len(),
        backend.state.words@[k] is Some,
        0 < backend.state.words@[k]->0@.len() <= 10000,
        backend.state.whole_word ==> words::highlightable(backend.state.words@[k]->0@, true),
        0 <= l < text::text_lines(backend.state.docs@[uri]@).len(),
        matching::stands_at(
            backend.state.words@[k]->0@,
            backend.state.whole_word,
            backend.state.ignore_case,
            text::text_lines(backend.state.docs@[uri]@)[l],
            i,
        ),
    ensures
        ({
            let line = text::text_lines(backend.state.docs@[uri]@)[l];
            let word = backend.state.words@[k]->0@;
            exists|n: int, a: int|
                {
                    &&& 0 <= n < data.len()
                    &&& a <= i < a + word.len()
                    &&& #[trigger] matching::stands_at(
                        backend.state.words@[k]->0@,
                        backend.state.whole_word,
                        backend.state.ignore_case,
                        line,
                        a,
                    )
                    &&& (#[trigger] tokens::delta_decoded(data)[n]).line == l
                    &&& tokens::delta_decoded(data)[n].start == text::utf16_count(line.take(a))
                    &&& tokens::delta_decoded(data)[n].length == text::utf16_count(
                        line.subrange(a, a + word.len()),
                    )
                    &&& tokens::delta_decoded(data)[n].token_type == k % 8
                }
        }),
{
    let content = backend.state.docs@[uri]@;
    let (whole_word, ignore_case) = (backend.state.whole_word, backend.state.ignore_case);
    let slots = backend.state.slots();
    let compiled = choose|compiled: Seq<bool>|
        compiled.len() == slots.len() && tokens::compiled_as_owed(slots, whole_word, compiled)
            && #[trigger] tokens::encodes(data, slots, compiled, whole_word, ignore_case, content);
    assert(slots[k] == state::slot_text(backend.state.words@[k]));
    assert(slots[k] == Some(backend.state.words@[k]->0@));
    assert(compiled[k]);
    tokens::every_place_of_a_word_is_marked(
        data,
        slots,
        compiled,
        whole_word,
        ignore_case,
        content,
        k,
        l,
        i,
    );
}

/// The answered tokens come in the order of the document, each placed relative to the one
/// before it.
pub proof fn answered_tokens_are_in_document_order(
    backend: Backend,
    uri: Seq<char>,
    data: Seq<SemanticToken>,
    n: int,
)
    requires
        backend.state.docs@.contains_key(uri),
        backend.answers_tokens(uri, data),
        0 <= n < data.len(),
    ensures
        tokens::delta_decoded(data).len() == data.len(),
        ({
            let at = tokens::delta_decoded(data);
            let (line, start) = if n == 0 {
                (0int, 0int)
            } else {
                (at[n - 1].line as int, at[n - 1].start as int)
            };
            &&& at[n].line == line + data[n].delta_line
            &&& at[n].start == (if data[n].delta_line == 0 {
                start + data[n].delta_start
            } else {
                data[n].delta_start as int
            })
            &&& at[n].length == data[n].length
            &&& at[n].token_type == data[n].token_type
            &&& data[n].token_modifiers_bitset == 0
        }),
{
    let content = backend.state.docs@[uri]@;
    let (whole_word, ignore_case) = (backend.state.whole_word, backend.state.ignore_case);
    let slots = backend.state.slots();
    let compiled = choose|compiled: Seq<bool>|
        compiled.len() == slots.len() && tokens::compiled_as_owed(slots, whole_word, compiled)
            && #[trigger] tokens::encodes(data, slots, compiled, whole_word, ignore_case, content);
    tokens::positions_add_up(data, slots, compiled, whole_word, ignore_case, content, n);
}

/// The answered tokens of a single word do not overlap, and none is sent twice.
pub proof fn answered_tokens_of_a_word_do_not_overlap(
    backend: Backend,
    uri: Seq<char>,
    data: Seq<SemanticToken>,
    k: int,
    m: int,
    n: int,
)
    requires
        backend.state.docs@.contains_key(uri),
        backend.answers_tokens(uri, data),
        tokens::fits(text::text_lines(backend.state.docs@[uri]@)),
        0 <= k < backend.state.words@.len(),
        forall|j: int|
            0 <= j < backend.state.words@.len() && j != k ==> (#[trigger] backend.state.words@[j])
                is None,
        0 <= m < n < data.len(),
    ensures
        ({
            let (a, b) = (tokens::delta_decoded(data)[m], tokens::delta_decoded(data)[n]);
            a.line < b.line || (a.line == b.line && a.start + a.length <= b.start)
        }),
{
    let content = backend.state.docs@[uri]@;
    let (whole_word, ignore_case) = (backend.state.whole_word, backend.state.ignore_case);
    let slots = backend.state.slots();
    let compiled = choose|compiled: Seq<bool>|
        compiled.len() == slots.len() && tokens::compiled_as_owed(slots, whole_word, compiled)
            && #[trigger] tokens::encodes(data, slots, compiled, whole_word, ignore_case, content);
    assert forall|j: int| 0 <= j < slots.len() && j != k implies (#[trigger] slots[j]) is None by {
        assert(slots[j] == state::slot_text(backend.state.words@[j]));
    }
    tokens::tokens_of_a_word_do_not_overlap(
        data,
        slots,
        compiled,
        whole_word,
        ignore_case,
        content,
        k,
        m,
        n,
    );
}

/// Wherever the cursor is, the clear action is offered if and only if some slot holds a
/// word.
pub proof fn the_clear_action_is_offered_iff_a_word_is_highlighted(
    backend: Backend,
    content: Seq<char>,
    range: Range,
    actions: Seq<CodeAction>,
)
    requires
        backend.answers_actions(content, range, actions),
    ensures
        (exists|i: int|
            {
                &&& 0 <= i < actions.len()
                &&& (#[trigger] actions[i]).title@ == "Clear all highlights"@
                &&& actions[i].kind@ == ""@
                &&& actions[i].command.title@ == "Clear All Highlights"@
                &&& actions[i].command.command@ == "zed-highlight.clear"@
                &&& actions[i].command.arguments is None
            }) <==> exists|k: int|
            0 <= k < backend.state.words@.len() && (#[trigger] backend.state.words@[k]) is Some,
{
    reveal_strlit("zed-highlight.toggle");
    reveal_strlit("zed-highlight.clear");
    let (whole_word, ignore_case) = (backend.state.whole_word, backend.state.ignore_case);
    let any = backend.state.any_highlighted();
    let compiled = choose|compiled: bool|
        are_actions(
            actions,
            #[trigger] offered(content, range, whole_word, ignore_case, compiled),
            any,
        );
    let offer = offered(content, range, whole_word, ignore_case, compiled);
    let n: int = if offer is Some {
        1
    } else {
        0
    };
    assert("zed-highlight.toggle"@.len() != "zed-highlight.clear"@.len());
    if any {
        assert(is_clear_action(actions[n]));
    }
}

/// The toggle action is offered for a word if and only if that is the word the user is
/// acting on, it can be highlighted, and it matches in the document; it comes first, and
/// its title and its argument name the whole word. A long word may be left out.
pub proof fn the_toggle_action_is_offered_iff_the_word_is_visible(
    backend: Backend,
    content: Seq<char>,
    range: Range,
    actions: Seq<CodeAction>,
    word: Seq<char>,
)
    requires
        backend.answers_actions(content, range, actions),
    ensures
        is_offered(actions, word) ==> {
            &&& words::content_word(content, range) == Some(word)
            &&& words::highlightable(word, backend.state.whole_word)
            &&& matching::matches_content(
                word,
                backend.state.whole_word,
                backend.state.ignore_case,
                content,
            )
            &&& actions[0].title@ == "Toggle highlight: \""@ + word + "\""@
            &&& actions[0].kind@ == ""@
            &&& actions[0].command.title@ == "Toggle Highlight"@
            &&& actions[0].command.command@ == "zed-highlight.toggle"@
            &&& actions[0].command.arguments is Some
            &&& actions[0].command.arguments->0@.len() == 1
            &&& actions[0].command.arguments->0@[0] matches Argument::Text(text)
            &&& text@ == word
        },
        word.len() <= 10000 && words::content_word(content, range) == Some(word)
            && words::highlightable(word, backend.state.whole_word) && matching::matches_content(
            word,
            backend.state.whole_word,
            backend.state.ignore_case,
            content,
        ) ==> is_offered(actions, word),
        forall|i: int|
            0 <= i < actions.len() ==> {
                ||| (#[trigger] actions[i]).command.command@ == "zed-highlight.clear"@
                ||| i == 0 && actions[i].command.command@ == "zed-highlight.toggle"@
                    && exists|w: Seq<char>| #[trigger] is_offered(actions, w)
            },
        actions.len() <= 2,
{
    let (whole_word, ignore_case) = (backend.state.whole_word, backend.state.ignore_case);
    let any = backend.state.any_highlighted();
    let compiled = choose|compiled: bool|
        (candidate(content, range, whole_word) matches Some(w) && matching::is_short(w)
            ==> compiled) && are_actions(
            actions,
            #[trigger] offered(content, range, whole_word, ignore_case, compiled),
            any,
        );
    let offer = offered(content, range, whole_word, ignore_case, compiled);
    lemma_is_offered(actions, offer, any, word);
    if offer is Some {
        lemma_is_offered(actions, offer, any, offer->0);
        assert(is_offered(actions, offer->0));
    }
}

/// The toggle command toggles its first argument if that is a text that can be highlighted;
/// the clear command leaves no word; every other command, and every other argument, changes
/// nothing.
pub proof fn commands_do_what_they_say(
    command: Seq<char>,
    arguments: Seq<Argument>,
    slots: Seq<Option<Seq<char>>>,
    whole_word: bool,
    ignore_case: bool,
)
    ensures
        command == "zed-highlight.clear"@ ==> takes_effect(command, arguments, whole_word)
            && slots_after(command, arguments, slots, whole_word, ignore_case).len() == 0,
        command == "zed-highlight.toggle"@ ==> if arguments.len() > 0 && (
        arguments[0] matches Argument::Text(text) && words::highlightable(text@, whole_word)) {
            &&& takes_effect(command, arguments, whole_word)
            &&& arguments[0] matches Argument::Text(text)
            &&& slots_after(command, arguments, slots, whole_word, ignore_case) == state::toggled(
                slots,
                text@,
                ignore_case,
            )
        } else {
            &&& !takes_effect(command, arguments, whole_word)
            &&& slots_after(command, arguments, slots, whole_word, ignore_case) == slots
        },
        command != "zed-highlight.toggle"@ && command != "zed-highlight.clear"@ ==> {
            &&& !takes_effect(command, arguments, whole_word)
            &&& slots_after(command, arguments, slots, whole_word, ignore_case) == slots
        },
{
    reveal_strlit("zed-highlight.toggle");
    reveal_strlit("zed-highlight.clear");
    assert("zed-highlight.toggle"@.len() != "zed-highlight.clear"@.len());
}

/// A change of a document is followed by a refresh if and only if a word is highlighted,
/// after a quarter of a second, in place of the one that was scheduled.
pub proof fn changes_are_followed_by_a_debounced_refresh(any_highlighted: bool, scheduled: bool)
    ensures
        match refresh_after_edit(any_highlighted, scheduled) {
            Some(plan) => any_highlighted && plan.delay_ms == Some(250u64) && plan.cancel_pending
                == scheduled,
            None => !any_highlighted,
        },
{
}

/// The legend names the colors in the order of their numbers.
pub proof fn the_legend_names_the_colors(names: Seq<String>, k: int)
    requires
        texts(names) == token_type_legend(),
        0 <= k < 8,
    ensures
        names.len() == 8,
        names[k]@.len() == "zed-highlight-"@.len() + 1,
        names[k]@.take("zed-highlight-"@.len() as int) == "zed-highlight-"@,
        names[k]@.last() as u32 == '0' as u32 + k,
{
    reveal_strlit("zed-highlight-");
    reveal_strlit("zed-highlight-0");
    reveal_strlit("zed-highlight-1");
    reveal_strlit("zed-highlight-2");
    reveal_strlit("zed-highlight-3");
    reveal_strlit("zed-highlight-4");
    reveal_strlit("zed-highlight-5");
    reveal_strlit("zed-highlight-6");
    reveal_strlit("zed-highlight-7");
    assert(texts(names).len() == names.len());
    assert(token_type_legend().len() == 8);
    assert(texts(names)[k] == names[k]@);
    assert(names[k]@.take("zed-highlight-"@.len() as int) =~= "zed-highlight-"@);
}

} // verus!
