# newfactor

An ANS Forth compiler front end that produces Factor code, written in
Verus: every stage of the pipeline carries a contract proved by the
verifier.

## Layout

- `src/text.rs` — string helpers and the few `std` string operations
  the compiler relies on.
- `src/compiler/` — the pipeline:
  - `lex.rs` tokens, `parse.rs` with `grammar.rs` the parser and the
    grammar it follows, `let_lang/` the LET infix sub-language (its
    grammar in `syntax.rs`);
  - `sema.rs` template expansion and the semantic model, with the
    lowering passes `lower_qdup.rs`, `lower_recurse.rs`,
    `lower_exit.rs`, `lower_classes.rs`, name resolution in
    `resolve.rs` and stack-effect inference in `effect.rs`;
  - `emit.rs` Factor code (float literals through `decimal.rs`),
    `dump.rs` the debugging dumps;
  - `mod.rs` the compile drivers and the session context.
- `src/host.rs` — the host's decisions as plain values: which VM files to
  use, how to open a session, the steps of an evaluation, death messages.
- `tests/` — tests run against the compiled library.
- `app/` — the command-line program.

Embedding the Factor VM (dynamic library loading, threads, the GUI) is
outside this crate.
