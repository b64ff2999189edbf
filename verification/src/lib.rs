//! Highlighting of all occurrences of selected words in an editor.
//!
//! The editor talks to a language server, whose answers [`server`] computes: which
//! stretches of a document are marked, in which of the colors, and which actions the
//! code action menu offers. [`state`] holds the highlighted words and the open
//! documents, [`words`] finds the word that the user is acting on, [`matching`] finds
//! its occurrences, [`tokens`] turns them into semantic tokens, and [`text`] relates
//! characters to bytes, UTF-16 code units and lines. [`extension`] decides how the
//! editor comes by the language server.

pub mod extension;
pub mod matching;
pub mod server;
pub mod state;
pub mod text;
pub mod tokens;
pub mod words;
