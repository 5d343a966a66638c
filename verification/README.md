# cube_core

The logic of a Rubik's cube trainer, written in Verus: the functions in
`src/` carry contracts that Verus proves, except the few wrappers marked
`#[verifier::external_body]` around calls into `kewb`, `miniz_oxide` and
std (`solve.rs`, `table_pack.rs`, `text.rs`), whose contracts Verus takes
on trust; each says in its doc comment what it claims of the call.

- `facelet`, `moves`, `notation`, `geometry`, `turning`, `frames`: the
  54-facelet cube, moves as rotations of sticker positions, move notation,
  whole-cube turns and their laws (inverses, quarter-turn powers, wide and
  slice moves as face moves plus a turn, orientation normalization).
- `cubie`, `cases`, `practice`, `library`: piece locations, case recognition
  keys, the recognizer built from an algorithm library, and practice states.
- `solve`, `cross`, `hints`, `my_way`, `guide`, `resolve`,
  `practice_scramble`: validation, the two-phase solver (through the `kewb`
  crate), the cross micro-solver, hint search, beginner plans, the
  step-by-step guide and its events, scan relabeling and practice
  scrambles.
- `table_pack`, `table_bytes`, `table_shape`: the packed solver table
  format (deflate through `miniz_oxide`), the length-prefix scan of a raw
  table and the table dimensions the solver indexes by.
- `capture`, `training` (timing statistics and the drill session's
  phases), `dump`, `csv`, `lang`, `text`, `rng`, `render`,
  `ui`, `store`: scan capture steps, practice timing, base64, CSV,
  interface languages, text helpers, SplitMix64, render masks and small
  interface rules.

`app/` is the command-line front end (file reading, JSON, camera colour
classification); `tests/` exercises the library.
