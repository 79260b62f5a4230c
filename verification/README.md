# helios

The front end of the Helios programming language, verified with Verus: its
syntax kinds, lexer, parser and lossless syntax trees, source-file
inspection, diagnostics and their reports, and the decisions of its build
command, read-eval-print loop and language server.

- `src/` is the library. Every function in it carries a contract that Verus
  proves. Calls into `rowan`, `unicode-xid`, `colored`, `textwrap`,
  `serde_json` and `lsp-types` go through small trusted wrappers whose
  contracts state what those crates do.
  What is proved of the parser: the grammar functions emit exactly the
  events of a grammar written as spec functions over the kinds of the
  tokens (`root_events` in `src/parser.rs`: declarations, Pratt parsing of
  binary operators by their binding powers, prefix operators, parentheses
  and error recovery); the sink turns those events into a tree whose walk
  (nodes entered with their kinds, tokens with their kinds and texts, nodes
  left) is the walk the events describe; and the tree holds every token of
  the text, trivia included. The parser's messages are those of the error
  sites of the same grammar (`root_sites`), in order: each names what was
  being parsed, the kinds the grammar looked for since the last token, and
  the token that came, at that token's range.
  Where the output is coloured, each part is stated as written plainly or
  between the escape code of its style and the reset code, as far as the
  `colored` crate's source shows them; whether colours are on is up to the
  environment.
- `tests/` runs the library on concrete inputs.
- `app/` is the `helios` command: argument handling, files, the terminal,
  the threads and streams of the language server, and JSON.
