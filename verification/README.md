# sqlite-rs

The core of a SQLite-compatible engine as a verified library: what it computes is stated
in `requires` / `ensures` contracts and proved by Verus.

- `src/parser`: the SQL front end. `tokenizer` and `rules` say as mathematics what the
  tokens of a source and the trees of a token sequence are; `grammar` and `error` compute
  them; `statements` shows how a script splits, and splits again; `printer` prints trees, in
  quotes what would not be read as a name without them; `round_trip` proves that every
  `SELECT`, `INSERT`, `DELETE`, `CREATE TABLE`, `CREATE INDEX`, `DROP TABLE`, `DROP INDEX`,
  `BEGIN`, `COMMIT` and `ROLLBACK` that was read is printed as a text that is read as the same
  tree, but for the places in the source. The one reserve: the smallest integer is printed in
  decimal, one level deeper than its hexadecimal literal, which the limit on nesting can
  refuse.
- `src/record`: values and the record format, with the proof that decoding undoes encoding.
- `src/schema`: what the stored `CREATE` statements say of tables, columns and indexes.
- `src/vdbe`: the virtual machine. Each instruction is a function from state to state; work
  that only the outside can do (b-trees, floating point) is handed out as a `Request` and
  comes back as a `Reply`.
- `src/vfs`: files in memory, pages, and the rules of file locks and of reader marks.
- `src/text`, `src/double`: characters and texts, and floating-point values as bit patterns.
- `src/decimal`, `src/natural`: which double a decimal literal is read as and which decimal a
  double is shown as, computed exactly with natural numbers of any size.
- `tests`: the library from outside.
- `app`: ordinary Rust around the library: the Unix file system, floating point, error types
  with the standard traits, and the loop that serves a machine's requests.

Laws, which relate several functions, are the public proof functions named `law_…`. What the
proofs take on trust are the declared contracts of a few functions of the standard library,
in `src/text.rs` and `src/record/decode.rs`.
