# bf_tools

A Brainfuck toolchain whose logic is verified with Verus.

- `src/lobe` — the Brainfuck parser and interpreter, with a step semantics.
- `src/hypothalamus` — the compiler's front end (parsing, normalization, IR
  optimization), its command line, target profiles, LLVM text emission, the
  IR runner and the Game Boy Advance ROM packaging.
- `src/cranium` — the Cranium language: lexer, parser, imports (with the
  bundled `std/gfx.cra`), and lowering to Brainfuck.
- `src/trepan` — lifting Brainfuck back into Cranium.
- `src/occipital` — the console protocol, screen model and headless runner.
- `src/wernicke` — positions, URIs and analysis for the editor protocol.
- `app/` — the programs around the library: argument parsing with clap,
  code generation through Cranelift, the minifb window, the JSON-RPC server,
  and file I/O.

The tests under `tests/` run the library with the outside crates linked.
