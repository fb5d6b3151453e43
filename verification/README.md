# siscript

A verified library for the siscript language tooling: a token-level parser,
name resolution, type inference, a memory-safety checker, and the analyses a
language server answers from (completion, hover, navigation, rename,
signature help, semantic tokens, symbols, diagnostics, the open-document
workspace).

- `src/` holds the library. Its own functions are checked by Verus against
  their `requires`/`ensures`; the wrappers around outside crates and std
  (marked `external_body`) are trusted, and their contracts are stated next
  to them. The memory-safety rules are written as spec
  functions in `src/memory_rules.rs`; `check_memory` reports exactly the
  violations they describe.
- `tests/` holds the tests, run against the compiled library.

Calls into `ropey`, `lsp-types`/`url` and `dashmap` go through those
wrappers.
