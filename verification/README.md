# qas

A small translator from a subset of C to Rust source text, written in Verus
with its behaviour stated in contracts and proved.

The pipeline, each stage a module of `src/` with a specification of its own:

- `transform::format` picks the source format from the file extension;
- `transform::comment` removes `//` and `/* */` comments;
- `token` splits the text into tokens and merges string literals;
- `transform::c::types` joins two-word type names and holds the table of C
  types with their Rust names;
- `transform::c::preprocessor` expands `#define`d names and resolves
  `#ifdef` / `#ifndef`;
- `transform::c::ops` reads `return` expressions and rewrites them with the
  built-in operators;
- `transform::c` translates functions and `typedef`s.

`transform::start` runs the whole pipeline on the text of a file. The
program in `app/` reads the file and prints the result.
