# filament_mat_lsp

A language server for Google Filament material files (`.mat`), with its
logic written in Verus and proved against contracts.

- `src/` is the library, verified but for a few small wrappers whose
  contracts state what the standard library and `regex` give: the lexer and parser of
  `.mat` files, the schema of material properties, validation, completion,
  hover documentation, signature help, shader symbol extraction, document
  positions and edits, the block-level parse cache, semantic tokens,
  formatting, folding, references, rename, selection ranges, outlines,
  document links, code lenses, the search for colour literals (through the
  `regex` crate) and the parsing of `matc` output.
  `src/lexer_spec.rs` says, as spec functions, which tokens the lexer reads
  from any text; `Lexer::tokenize` is proved to return exactly those.
  `src/server.rs` holds the open documents and decides when a cache answers.
- `app/main.rs` is the server around it: the LSP connection, message
  dispatch, the diagnostics timer, running `matc`, reading colour components
  as floating-point numbers, and the conversions between protocol types and the library's.
- `tests/` exercises the library from outside.

The contracts speak of mathematical views (`Seq<char>` for text, `Map` for
documents by URI); the `lemma_*` proof functions state the properties that
hold across calls, such as that a change outside the material block keeps its
cached parse, or that every selection range holds the position it was asked
for.
