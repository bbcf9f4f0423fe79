# ferrite_db

An embedded nearest-neighbour search core whose logic is proved with Verus.

- `src/` — the verified library: Tables and Metadata Schemas, the write path
  (Deltas with Tombstones), the Predicate Tree (including its JSON form),
  candidate selection and top-k ranking, Compaction triggers and merge, the
  Segment byte format with its CRC-32, search admission, the index ladder
  policy, corpus fixture formats and PRNG streams, and the in-memory
  multi-Table session. Functions state what they compute in `ensures`
  clauses; where a result rests on state other threads share (the
  in-flight count, a shared background-build record) the contract says
  what holds of every outcome, and laws spanning several functions are
  public proof functions.
- `app/` — ordinary Rust around the library: Segment files on disk, the
  process-wide admission gate, snapshot publication and background
  Compaction over threads, floating-point distances, corpus generation, and
  the browser binding.
- `tests/` — executable tests of the library.

Vector components and floating-point metadata are carried through the
library as IEEE-754 bit patterns; arithmetic on them happens in `app/`.
