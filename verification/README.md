# sheets-diff

A structured diff engine for `.xlsx` workbooks, written in Verus. Two
workbooks go in; a typed, deterministic `WorkbookDiff` comes out: per-sheet
change classification, per-cell value and formula changes, diagnostics,
summary counts and metrics, ordered by sheet and then by `(row, col)`.

## Layout

- `src/` — the verified library. Each public function states in its
  `ensures`, over spec functions and views, what it returns and on which
  inputs it fails, up to what caller-supplied closures (the cancellation
  predicate, the progress sink, the float oracle) answer or do; the laws that
  relate several functions are public proof functions.
  - `address` — A1 labels, ranges and their laws.
  - `compare`, `cells`, `diff` — value comparison, cell maps and per-sheet diffs.
  - `align`, `row_order` — row alignment (positional, row key, row
    signature), the longest-common-subsequence match and its order laws.
  - `matcher` — sheet pairing by name, by index, with rename detection.
  - `meta`, `objects` — defined names, sheet metadata and coverage notes.
  - `pipeline`, `verdict` — the whole comparison, limits, cancellation,
    progress events and exit codes.
  - `output` — summary and unified text, and anchor navigation.
  - `grid` — the grid-based comparison with its unified text format.
- `app/` — the command-line program and everything that reads files
  (through `calamine`), serializes JSON (through `serde`) or handles
  floating point.
- `tests/` — tests of the library on concrete values.
