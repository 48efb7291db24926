# basalt-plugin-parser-typescript

Tree-sitter TypeScript/TSX parser plugin for Basalt, with its record logic
verified by Verus.

- `src/` is the verified library. `state` holds a parser and its queries
  and runs them over a source; `spans`, `chunks` and `call_sites` turn the
  query matches into fixed-width little-endian records (12, 104 and 68
  bytes); `layout`, `text`, `scope` and `capture` hold what they share;
  `ts` declares the calls into tree-sitter and the TypeScript grammar, with
  handles that record the grammar, query and text each value was made from.
- `app/` holds the WebAssembly exports: the shared memory, the lazily built
  parser states, and the raw-pointer plumbing.
- `tests/` runs the library on concrete matches and on real parses.
