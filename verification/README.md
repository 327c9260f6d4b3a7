# minicomp

A small compiler for a toy language of declarations such as

    main = 1 + "text" - 2

into AArch64-style assembly, written in Verus with its behaviour stated in
contracts and proved.

## Layout

- `src/parser.rs`: the grammar, as spec functions on characters, and the parser
  proved to follow them.
- `src/collect_strings.rs`: moves string literals into a numbered table.
- `src/lowerer.rs`: expressions to instructions over virtual registers.
- `src/regalloc.rs`: virtual registers to the machine registers `X8`..`X11`
  (arguments in `X0`, `X1`), with the allocator's state machine as spec.
- `src/semantics.rs`, `src/correctness.rs`: what expressions and instructions
  compute, and the proofs that lowering and allocation keep it, from parsed
  text to machine code.
- `src/types/`: the syntax tree, instructions, functions, units and their text.
- `src/text.rs`, `src/vreg_map.rs`: text helpers and a small map keyed by
  virtual registers.
- `tests/`: executable tests of the library.
- `app/main.rs`: the command-line driver (reads a file, prints the stages).
