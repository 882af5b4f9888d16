# vinyl

Verified core of the Vinyl language toolchain, written in Verus.

- `src/codegen`: target ABI policy, type layout (sizes, alignments, field
  offsets, enum payloads), local-variable modes and the runtime's rendering of
  printed values and captured output.
- `src/syntax`: the lexer, the syntax tree, the grammar as spec functions
  (`grammar.rs`) and the recursive-descent parser, proved to build exactly
  the tree the grammar gives (or its first error).
- `src/formatter`: the layout rules (`rules.rs`), the engine that follows them
  over a syntax tree (`engine.rs`) and the final normalization of line endings
  and trailing whitespace (`normalize.rs`).
- `src/compiler.rs`: entry-file discovery decisions of the compiler driver.
- `src/diagnostics.rs`: rustc-style rendering of diagnostic reports.
- `src/lsp`: the language server's pure logic: document synchronisation,
  positions in UTF-16 columns (over the `line-index` crate), the virtual file
  system and file interner, text queries used by completion, hover and
  imports, and attribute completions.
- `app/main.rs`: the `vinyl` command line (file I/O, argument parsing).

Not part of this crate: the code generator (Cranelift code emission over
the type checker's HIR), the compile driver that parses, resolves and type
checks a program, the language server's request handlers (completion,
hover, definitions, symbols, workspace analysis) and the manifest-mode
module list of `fmt`. All of them work on the syntax trees, module
resolver and typed HIR of the `vinyl_parser`, `vinyl_resolver` and
`vinyl_typecheck` crates, which this repository does not include, or on
Cranelift and `tower-lsp`. The keyword completions need the keyword and
module-prefix tables of the language server, which this repository does
not include either. What those parts decide without that machinery (entry files, layout,
positions, document sync, text queries) is here, verified.
