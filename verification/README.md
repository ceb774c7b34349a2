# loot_condition_interpreter

A library for parsing and evaluating LOOT's metadata condition strings, with
its behaviour stated in contracts and proved with Verus.

- `src/condition.rs`: conditions (`and`, `or`, `not`, parentheses), their
  grammar, how they are written, and how an expression is evaluated from the
  results of its functions.
- `src/function/`: the functions (`file`, `active`, `checksum`, `version`,
  ...): their grammar (`parse.rs`), how they are written and compared
  (`mod.rs`), paths and ghosted plugins (`path.rs`), versions and the version
  resources of executables (`version.rs`, `version/pe.rs`), checksums
  (`crc.rs`), plugin headers (`plugin.rs`), evaluation (`eval.rs`) and
  reading written functions back (`round_trip.rs`).
- `src/lib.rs`: the game types and the state that conditions are evaluated
  against; `src/table.rs`: the tables that hold cached checksums and plugin
  versions; `src/text.rs`, `src/pattern.rs`, `src/error.rs`: strings, regular
  expressions and errors.

The library does not touch the file system. Evaluating a function is a
conversation: `Function::eval` either asks a question about the file system
(`Query`) or gives the result, and the caller answers each question
(`Answer`) and calls again. `Expression::eval` likewise names the next
function whose outcome it needs, and stops at the first one that failed.
`src/function/round_trip.rs` proves that the text written for a function
parses back as that function, its regexes anchored as the parser anchors
them. `app/` holds a driver that answers the
questions from the file system.
