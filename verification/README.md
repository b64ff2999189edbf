# zed-highlight

Highlight all occurrences of selected words in the Zed editor, as a verified library
with a thin program around it.

- `src/` is the library, written in Verus: what the language server answers to each
  request, and how the extension finds the language server. Every function has a
  contract, and the properties that span functions are public proof functions.
- `tests/` runs the library on concrete values.
- `app/` is the language server on standard input and output (tower-lsp) and the
  Zed extension that installs it. Both only convert values and perform I/O.

What is believed without proof stands next to its use: the `regex` crate in
`src/matching.rs`, the Unicode tables of the standard library in `src/text.rs`,
`src/words.rs` and `src/state.rs`, and its unstable sort in `src/tokens.rs`.
