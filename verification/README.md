# csearch-core

A C front end for searching code by structure: it parses C with the
tree-sitter C grammar, lowers the syntax tree to an owned C AST, normalizes
that AST, and folds constants in the e-graph the search runs on. The library
is written in Verus: the functions in `src/` carry contracts that Verus
proves, except for the few `#[verifier::external_body]` wrappers around the
calls into tree-sitter, the e-graph crate's set and `std::str::from_utf8`.
Their contracts are trusted, not proved, and each one's doc comment says what
it claims of the call it makes.

## Layout

- `src/syntax.rs`: the syntax tree lowering reads, and the call into
  tree-sitter that produces it.
- `src/lower.rs`: syntax tree → C AST. Total: what it does not model becomes
  an `Unsupported` node.
- `src/cast.rs`, `src/cast/print.rs`, `src/cast/dump.rs`: the C AST, its
  printer (compilable C, or the list of unmodelled constructs) and its dump
  (an indented tree, with or without spans).
- `src/normalize.rs`, `src/normalize/`: the AST → AST passes.
- `src/analysis.rs`: the constant-folding e-class analysis.
- `src/simplified_ast.rs`: a smaller AST and its partial builder.
- `src/span.rs`, `src/text.rs`: byte ranges, and the string helpers the rest
  shares.
- `tests/`: the test suite.
- `app/`: the command line, the e-graph language and its analysis hooks,
  and the Python module.
