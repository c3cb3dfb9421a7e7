# cwtools

A library that checks Paradox script files against `.cwt` rules, verified with Verus.

- `src/` is the library. Every function states what it returns over mathematical
  models, and Verus proves it. The laws that relate several functions stand in
  `rules_laws.rs`, `post_process_laws.rs`, `validation_laws.rs` and `string_table.rs`.
- `app/` reads rules directories and offers a string table that threads share.
- `tests/` runs the library on small configurations and scripts.

The library works on parsed trees (`ast.rs`); turning text into trees is the task of a
parser. Numbers with a fraction are kept as text and compared exactly, digit by digit.

What is believed without proof is marked `external_body`, with a comment on each item:
a few functions of `String` and `str`, `FxHashMap` and `FxHashSet` of `rustc-hash`, and
`SmallVec` of `smallvec`.
