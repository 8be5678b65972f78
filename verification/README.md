# pice_core

The configuration core of the PICE evaluation pipeline, written in Verus:
every function in `src/` carries a contract that Verus proves, except five
thin wrappers over std whose contracts are trusted: `text::str_to_chars`
(`str::chars`), `text::chars_to_string` (collecting chars into a `String`),
`workflow::trigger::lex`'s `char_is_alphabetic` / `char_is_numeric`
(`char::is_alphabetic` / `char::is_numeric`), and
`workflow::trigger::parse`'s `debug_quoted` (`str`'s `Debug`). The last
three name their results rather than spell them out, since those follow
Unicode tables; the letter and digit wrappers also state what they give on
ASCII. Whitespace is
the 25-code-point `White_Space` set, written out and proved.

- `workflow::trigger` — lexer, recursive-descent parser (depth-limited) and
  evaluator for gate trigger expressions such as
  `tier >= 3 AND NOT (layer == frontend)`.
- `workflow::merge` — the floor merge of a user workflow over a project
  workflow (a user may tighten, never relax), with every violation collected,
  and the plain overlay used between framework and project.
- `workflow::resolve` — framework, project and user workflows combined.
- `workflow::validate` — schema ranges, trigger syntax, layer
  cross-references, seam boundaries and check ids, model names.
- `seam`, `layers` — seam boundary keys (`A↔B`, `A<->B`), the layer table,
  and what `layers detect` answers (refusals and summaries).
- `strmap` — string-keyed maps kept in key order: a sorted `Vec` of
  entries with a type invariant. With `String` keys, vstd's specification
  of `BTreeMap` did not let Verus prove even the length after one insert
  (it is stated for keys whose view and order it can rely on), so the map
  is written and verified here.
- `decimal` — exact decimal numbers for confidences and amounts.
- `gate` — the effect of a review decision on a gate, the pending gates
  listed in request order, and the decision on a gate as a state machine
  (the daemon does the locking, reading and writing between its steps:
  conflicts, crash recovery from the audit log, expired timeouts, and a
  lost race on the audit insert are decided here).
- `evaluation` — a stack evaluation's refusals before it runs (plan
  missing, unparsable or without a contract, workflow errors, seam floor
  violations, failed metrics writes), and its end: whether the stack
  passed, the exit code, the seam findings recorded once per boundary
  check, and the text report.
- `metrics`, `coverage`, `report` — the metrics
  database's migration plan and rows, lcov line counts, and text shaping for
  reports (cell truncation, commit-message cleanup, CSV quoting).

`app/` reads workflow files from disk with serde_yaml and hands them to the
library, and reads the system clock; `tests/` exercises the library on concrete inputs.
