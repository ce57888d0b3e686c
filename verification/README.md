# rcc support library (verified)

Core data structures of the rcc C compiler, written in Verus and proved
against their contracts:

- `src/source.rs`: source files, byte-offset spans, line/column lookup and
  line extraction, and the source manager.
- `src/ident.rs`: the deduplicating string interner.
- `src/diagnostics.rs`: diagnostics, the diagnostics session, and the
  GCC-style rendering of diagnostics with source context.
- `src/abi.rs`: the System V AMD64 calling convention.
- `src/cli.rs`: the driver's command-line argument parsing.
- `src/text.rs`: UTF-8 boundary facts, string comparison and decimal output.

`app/main.rs` is the `rcc` driver: it reads files, prints usage and version
text, and writes rendered diagnostics to stderr.
