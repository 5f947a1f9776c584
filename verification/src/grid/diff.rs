//! The grid diff: sheets added or removed by name, and, for the sheets both
//! workbooks have, every cell whose value or formula text differs.

use vstd::prelude::*;

use crate::address::spec_a1;
use crate::cells::spec_key_lt;
use crate::grid::utils::cell_pos_to_address;
use crate::meta::{spec_lex_lt, str_less};
use crate::model::{float_eq, spec_float_eq};
use crate::strings::str_equal;

verus! {

/// Which workbook an error refers to.
#[derive(Clone, Copy, PartialEq, Eq, Debug, Structural)]
pub enum WorkbookSide {
    Old,
    New,
}

impl WorkbookSide {
    /// `"old"` or `"new"`.
    pub fn text(&self) -> (r: &'static str)
        ensures
            r@ == (match *self {
                WorkbookSide::Old => "old"@,
                WorkbookSide::New => "new"@,
            }),
    {
        match self {
            WorkbookSide::Old => "old",
            WorkbookSide::New => "new",
        }
    }
}

/// Whether a cell diff concerns the displayed value or the formula.
#[derive(Clone, Copy, PartialEq, Eq, PartialOrd, Ord, Debug, Structural)]
pub enum CellDiffKind {
    Value,
    Formula,
}

/// The text of a cell-diff kind.
pub open spec fn spec_kind_text(k: CellDiffKind) -> Seq<char> {
    match k {
        CellDiffKind::Value => "value"@,
        CellDiffKind::Formula => "formula"@,
    }
}

impl CellDiffKind {
    /// `"value"` or `"formula"`.
    pub fn text(&self) -> (r: &'static str)
        ensures
            r@ == spec_kind_text(*self),
    {
        match self {
            CellDiffKind::Value => "value",
            CellDiffKind::Formula => "formula",
        }
    }
}

/// The diff of two workbooks.
pub struct Diff {
    pub old_filepath: String,
    pub new_filepath: String,
    pub sheet_diff: Vec<SheetDiff>,
    pub cell_diffs: Vec<SheetCellDiff>,
}

/// A sheet only one workbook has.
pub struct SheetDiff {
    pub old: Option<String>,
    pub new: Option<String>,
}

/// The cell diffs of one sheet.
pub struct SheetCellDiff {
    pub sheet: String,
    pub cells: Vec<CellDiff>,
}

/// One changed cell.
pub struct CellDiff {
    /// 1-based row.
    pub row: usize,
    /// 1-based column.
    pub col: usize,
    /// The A1 address.
    pub addr: String,
    pub kind: CellDiffKind,
    pub old: Option<String>,
    pub new: Option<String>,
}

/// A cell's value as read, compared as the reader compares its values:
/// variant by variant, doubles (given by their bits) by IEEE equality.
#[derive(Debug)]
pub enum GridValue {
    Int(i64),
    Float(u64),
    String(String),
    Bool(bool),
    DateTime { value: u64, kind: u8, is_1904: bool },
    DateTimeIso(String),
    DurationIso(String),
    Error(u8),
}

/// A populated cell of a sheet's value grid: 0-based coordinates, its value
/// and that value's display text.
pub struct GridCell {
    pub row: u32,
    pub col: u32,
    pub value: GridValue,
    pub text: String,
}

/// A cell of a sheet's formula grid with non-empty formula text.
pub struct FormulaCell {
    pub row: u32,
    pub col: u32,
    pub formula: String,
}

/// A sheet both workbooks have, as read: each side's value and formula
/// cells, in row-major order.
pub struct SharedSheet {
    pub name: String,
    pub old_values: Vec<GridCell>,
    pub new_values: Vec<GridCell>,
    pub old_formulas: Vec<FormulaCell>,
    pub new_formulas: Vec<FormulaCell>,
}

/// Two values are equal as the reader's values are.
pub open spec fn spec_grid_eq(a: GridValue, b: GridValue) -> bool {
    match (a, b) {
        (GridValue::Int(x), GridValue::Int(y)) => x == y,
        (GridValue::Float(x), GridValue::Float(y)) => spec_float_eq(x, y),
        (GridValue::String(x), GridValue::String(y)) => x@ == y@,
        (GridValue::Bool(x), GridValue::Bool(y)) => x == y,
        (
            GridValue::DateTime { value: v1, kind: k1, is_1904: e1 },
            GridValue::DateTime { value: v2, kind: k2, is_1904: e2 },
        ) => spec_float_eq(v1, v2) && k1 == k2 && e1 == e2,
        (GridValue::DateTimeIso(x), GridValue::DateTimeIso(y)) => x@ == y@,
        (GridValue::DurationIso(x), GridValue::DurationIso(y)) => x@ == y@,
        (GridValue::Error(x), GridValue::Error(y)) => x == y,
        _ => false,
    }
}

fn grid_eq(a: &GridValue, b: &GridValue) -> (r: bool)
    ensures
        r == spec_grid_eq(*a, *b),
{
    match (a, b) {
        (GridValue::Int(x), GridValue::Int(y)) => *x == *y,
        (GridValue::Float(x), GridValue::Float(y)) => float_eq(*x, *y),
        (GridValue::String(x), GridValue::String(y)) => str_equal(x, y),
        (GridValue::Bool(x), GridValue::Bool(y)) => *x == *y,
        (
            GridValue::DateTime { value: v1, kind: k1, is_1904: e1 },
            GridValue::DateTime { value: v2, kind: k2, is_1904: e2 },
        ) => float_eq(*v1, *v2) && *k1 == *k2 && *e1 == *e2,
        (GridValue::DateTimeIso(x), GridValue::DateTimeIso(y)) => str_equal(x, y),
        (GridValue::DurationIso(x), GridValue::DurationIso(y)) => str_equal(x, y),
        (GridValue::Error(x), GridValue::Error(y)) => *x == *y,
        _ => false,
    }
}

/// A reported difference: 0-based coordinates, its kind, and each side's text.
pub type GridChange = (u32, u32, CellDiffKind, Option<Seq<char>>, Option<Seq<char>>);

/// The value changes of two row-major value grids: for every coordinate
/// populated on either side, in order, where the sides' values are not
/// equal (an absent cell being empty).
pub open spec fn spec_value_changes(a: Seq<GridCell>, b: Seq<GridCell>) -> Seq<GridChange>
    decreases a.len() + b.len(),
{
    if a.len() == 0 && b.len() == 0 {
        Seq::empty()
    } else if b.len() == 0 || (a.len() > 0 && spec_key_lt(a[0].row, a[0].col, b[0].row, b[0].col)) {
        seq![(a[0].row, a[0].col, CellDiffKind::Value, Some(a[0].text@), None::<Seq<char>>)] + spec_value_changes(a.drop_first(), b)
    } else if a.len() == 0 || spec_key_lt(b[0].row, b[0].col, a[0].row, a[0].col) {
        seq![(b[0].row, b[0].col, CellDiffKind::Value, None::<Seq<char>>, Some(b[0].text@))] + spec_value_changes(a, b.drop_first())
    } else if spec_grid_eq(a[0].value, b[0].value) {
        spec_value_changes(a.drop_first(), b.drop_first())
    } else {
        seq![(a[0].row, a[0].col, CellDiffKind::Value, Some(a[0].text@), Some(b[0].text@))] + spec_value_changes(a.drop_first(), b.drop_first())
    }
}

/// The formula changes of two row-major formula grids: for every coordinate
/// with formula text on either side, in order, where the texts differ.
pub open spec fn spec_formula_changes(a: Seq<FormulaCell>, b: Seq<FormulaCell>) -> Seq<GridChange>
    decreases a.len() + b.len(),
{
    if a.len() == 0 && b.len() == 0 {
        Seq::empty()
    } else if b.len() == 0 || (a.len() > 0 && spec_key_lt(a[0].row, a[0].col, b[0].row, b[0].col)) {
        seq![(a[0].row, a[0].col, CellDiffKind::Formula, Some(a[0].formula@), None::<Seq<char>>)] + spec_formula_changes(a.drop_first(), b)
    } else if a.len() == 0 || spec_key_lt(b[0].row, b[0].col, a[0].row, a[0].col) {
        seq![(b[0].row, b[0].col, CellDiffKind::Formula, None::<Seq<char>>, Some(b[0].formula@))] + spec_formula_changes(a, b.drop_first())
    } else if a[0].formula@ == b[0].formula@ {
        spec_formula_changes(a.drop_first(), b.drop_first())
    } else {
        seq![(a[0].row, a[0].col, CellDiffKind::Formula, Some(a[0].formula@), Some(b[0].formula@))] + spec_formula_changes(a.drop_first(), b.drop_first())
    }
}

/// The merge of two change lists by `(row, col)`, the left one first on a tie.
pub open spec fn spec_merge_changes(a: Seq<GridChange>, b: Seq<GridChange>) -> Seq<GridChange>
    decreases a.len() + b.len(),
{
    if a.len() == 0 {
        b
    } else if b.len() == 0 {
        a
    } else if spec_key_lt(b[0].0, b[0].1, a[0].0, a[0].1) {
        seq![b[0]] + spec_merge_changes(a, b.drop_first())
    } else {
        seq![a[0]] + spec_merge_changes(a.drop_first(), b)
    }
}

/// The changes of a shared sheet: its value and formula changes, merged.
pub open spec fn spec_sheet_changes(s: SharedSheet) -> Seq<GridChange> {
    spec_merge_changes(
        spec_value_changes(s.old_values@, s.new_values@),
        spec_formula_changes(s.old_formulas@, s.new_formulas@),
    )
}

/// The cell diff reports the change.
pub open spec fn spec_cell_is(d: CellDiff, c: GridChange) -> bool {
    &&& d.row == c.0 + 1
    &&& d.col == c.1 + 1
    &&& d.addr@ == spec_a1((c.0 + 1) as nat, (c.1 + 1) as nat)
    &&& d.kind == c.2
    &&& (match d.old {
        Some(t) => Some(t@),
        None => None,
    }) == c.3
    &&& (match d.new {
        Some(t) => Some(t@),
        None => None,
    }) == c.4
}

/// The cell diffs report the changes, in order.
pub open spec fn spec_cells_are(ds: Seq<CellDiff>, cs: Seq<GridChange>) -> bool {
    &&& ds.len() == cs.len()
    &&& forall|k: int| 0 <= k < ds.len() ==> spec_cell_is(#[trigger] ds[k], cs[k])
}

/// Coordinates fit the 1-based conversion.
pub open spec fn spec_grid_ok(s: SharedSheet) -> bool {
    &&& forall|i: int| 0 <= i < s.old_values@.len() ==> #[trigger] s.old_values@[i].row < u32::MAX && s.old_values@[i].col < u32::MAX
    &&& forall|i: int| 0 <= i < s.new_values@.len() ==> #[trigger] s.new_values@[i].row < u32::MAX && s.new_values@[i].col < u32::MAX
    &&& forall|i: int| 0 <= i < s.old_formulas@.len() ==> #[trigger] s.old_formulas@[i].row < u32::MAX && s.old_formulas@[i].col < u32::MAX
    &&& forall|i: int| 0 <= i < s.new_formulas@.len() ==> #[trigger] s.new_formulas@[i].row < u32::MAX && s.new_formulas@[i].col < u32::MAX
}

fn opt_text(s: &String) -> (r: Option<String>)
    ensures
        r matches Some(t) && t@ == s@,
{
    Some(s.clone())
}

fn change_cell(row: u32, col: u32, kind: CellDiffKind, old: Option<String>, new: Option<String>) -> (d: CellDiff)
    requires
        row < u32::MAX,
        col < u32::MAX,
    ensures
        d.row == row + 1,
        d.col == col + 1,
        d.addr@ == spec_a1((row + 1) as nat, (col + 1) as nat),
        d.kind == kind,
        d.old == old,
        d.new == new,
{
    let r1 = (row + 1) as usize;
    let c1 = (col + 1) as usize;
    CellDiff { row: r1, col: c1, addr: cell_pos_to_address(r1, c1), kind, old, new }
}

/// The value changes of two value grids (see `spec_value_changes`).
pub fn collect_value_changes(a: &Vec<GridCell>, b: &Vec<GridCell>) -> (r: Vec<CellDiff>)
    requires
        forall|i: int| 0 <= i < a@.len() ==> #[trigger] a@[i].row < u32::MAX && a@[i].col < u32::MAX,
        forall|i: int| 0 <= i < b@.len() ==> #[trigger] b@[i].row < u32::MAX && b@[i].col < u32::MAX,
    ensures
        spec_cells_are(r@, spec_value_changes(a@, b@)),
{
    let ghost whole = spec_value_changes(a@, b@);
    let mut out: Vec<CellDiff> = Vec::new();
    let ghost mut done: Seq<GridChange> = Seq::empty();
    let mut i: usize = 0;
    let mut j: usize = 0;
    proof {
        assert(a@.subrange(0, a@.len() as int) =~= a@);
        assert(b@.subrange(0, b@.len() as int) =~= b@);
    }
    while i < a.len() || j < b.len()
        invariant
            i <= a@.len(),
            j <= b@.len(),
            forall|q: int| 0 <= q < a@.len() ==> #[trigger] a@[q].row < u32::MAX && a@[q].col < u32::MAX,
            forall|q: int| 0 <= q < b@.len() ==> #[trigger] b@[q].row < u32::MAX && b@[q].col < u32::MAX,
            spec_cells_are(out@, done),
            done + spec_value_changes(a@.subrange(i as int, a@.len() as int), b@.subrange(j as int, b@.len() as int)) == whole,
        decreases a@.len() - i + b@.len() - j,
    {
        let ghost x = a@.subrange(i as int, a@.len() as int);
        let ghost y = b@.subrange(j as int, b@.len() as int);
        let ghost prev = out@;
        if j >= b.len() || (i < a.len() && (a[i].row < b[j].row || (a[i].row == b[j].row && a[i].col < b[j].col))) {
            proof {
                assert(x.drop_first() =~= a@.subrange(i + 1, a@.len() as int));
                assert(x[0] == a@[i as int]);
            }
            out.push(change_cell(a[i].row, a[i].col, CellDiffKind::Value, opt_text(&a[i].text), None));
            proof {
                done = done.push((a@[i as int].row, a@[i as int].col, CellDiffKind::Value, Some(a@[i as int].text@), None::<Seq<char>>));
            }
            i += 1;
        } else if i >= a.len() || (b[j].row < a[i].row || (b[j].row == a[i].row && b[j].col < a[i].col)) {
            proof {
                assert(y.drop_first() =~= b@.subrange(j + 1, b@.len() as int));
                assert(y[0] == b@[j as int]);
            }
            out.push(change_cell(b[j].row, b[j].col, CellDiffKind::Value, None, opt_text(&b[j].text)));
            proof {
                done = done.push((b@[j as int].row, b@[j as int].col, CellDiffKind::Value, None::<Seq<char>>, Some(b@[j as int].text@)));
            }
            j += 1;
        } else {
            proof {
                assert(x.drop_first() =~= a@.subrange(i + 1, a@.len() as int));
                assert(y.drop_first() =~= b@.subrange(j + 1, b@.len() as int));
                assert(x[0] == a@[i as int]);
                assert(y[0] == b@[j as int]);
            }
            if !grid_eq(&a[i].value, &b[j].value) {
                out.push(change_cell(a[i].row, a[i].col, CellDiffKind::Value, opt_text(&a[i].text), opt_text(&b[j].text)));
                proof {
                    done = done.push((a@[i as int].row, a@[i as int].col, CellDiffKind::Value, Some(a@[i as int].text@), Some(b@[j as int].text@)));
                }
            }
            i += 1;
            j += 1;
        }
        proof {
            assert forall|k: int| 0 <= k < out@.len() implies spec_cell_is(#[trigger] out@[k], done[k]) by {
                if k < prev.len() {
                    assert(out@[k] == prev[k]);
                }
            }
            assert(done + spec_value_changes(a@.subrange(i as int, a@.len() as int), b@.subrange(j as int, b@.len() as int)) =~= whole);
        }
    }
    proof {
        assert(spec_value_changes(a@.subrange(i as int, a@.len() as int), b@.subrange(j as int, b@.len() as int)) =~= Seq::<GridChange>::empty());
        assert(done =~= whole);
    }
    out
}

/// The formula changes of two formula grids (see `spec_formula_changes`).
pub fn collect_formula_changes(a: &Vec<FormulaCell>, b: &Vec<FormulaCell>) -> (r: Vec<CellDiff>)
    requires
        forall|i: int| 0 <= i < a@.len() ==> #[trigger] a@[i].row < u32::MAX && a@[i].col < u32::MAX,
        forall|i: int| 0 <= i < b@.len() ==> #[trigger] b@[i].row < u32::MAX && b@[i].col < u32::MAX,
    ensures
        spec_cells_are(r@, spec_formula_changes(a@, b@)),
{
    let ghost whole = spec_formula_changes(a@, b@);
    let mut out: Vec<CellDiff> = Vec::new();
    let ghost mut done: Seq<GridChange> = Seq::empty();
    let mut i: usize = 0;
    let mut j: usize = 0;
    proof {
        assert(a@.subrange(0, a@.len() as int) =~= a@);
        assert(b@.subrange(0, b@.len() as int) =~= b@);
    }
    while i < a.len() || j < b.len()
        invariant
            i <= a@.len(),
            j <= b@.len(),
            forall|q: int| 0 <= q < a@.len() ==> #[trigger] a@[q].row < u32::MAX && a@[q].col < u32::MAX,
            forall|q: int| 0 <= q < b@.len() ==> #[trigger] b@[q].row < u32::MAX && b@[q].col < u32::MAX,
            spec_cells_are(out@, done),
            done + spec_formula_changes(a@.subrange(i as int, a@.len() as int), b@.subrange(j as int, b@.len() as int)) == whole,
        decreases a@.len() - i + b@.len() - j,
    {
        let ghost x = a@.subrange(i as int, a@.len() as int);
        let ghost y = b@.subrange(j as int, b@.len() as int);
        let ghost prev = out@;
        if j >= b.len() || (i < a.len() && (a[i].row < b[j].row || (a[i].row == b[j].row && a[i].col < b[j].col))) {
            proof {
                assert(x.drop_first() =~= a@.subrange(i + 1, a@.len() as int));
                assert(x[0] == a@[i as int]);
            }
            out.push(change_cell(a[i].row, a[i].col, CellDiffKind::Formula, opt_text(&a[i].formula), None));
            proof {
                done = done.push((a@[i as int].row, a@[i as int].col, CellDiffKind::Formula, Some(a@[i as int].formula@), None::<Seq<char>>));
            }
            i += 1;
        } else if i >= a.len() || (b[j].row < a[i].row || (b[j].row == a[i].row && b[j].col < a[i].col)) {
            proof {
                assert(y.drop_first() =~= b@.subrange(j + 1, b@.len() as int));
                assert(y[0] == b@[j as int]);
            }
            out.push(change_cell(b[j].row, b[j].col, CellDiffKind::Formula, None, opt_text(&b[j].formula)));
            proof {
                done = done.push((b@[j as int].row, b@[j as int].col, CellDiffKind::Formula, None::<Seq<char>>, Some(b@[j as int].formula@)));
            }
            j += 1;
        } else {
            proof {
                assert(x.drop_first() =~= a@.subrange(i + 1, a@.len() as int));
                assert(y.drop_first() =~= b@.subrange(j + 1, b@.len() as int));
                assert(x[0] == a@[i as int]);
                assert(y[0] == b@[j as int]);
            }
            if !str_equal(&a[i].formula, &b[j].formula) {
                out.push(change_cell(a[i].row, a[i].col, CellDiffKind::Formula, opt_text(&a[i].formula), opt_text(&b[j].formula)));
                proof {
                    done = done.push((a@[i as int].row, a@[i as int].col, CellDiffKind::Formula, Some(a@[i as int].formula@), Some(b@[j as int].formula@)));
                }
            }
            i += 1;
            j += 1;
        }
        proof {
            assert forall|k: int| 0 <= k < out@.len() implies spec_cell_is(#[trigger] out@[k], done[k]) by {
                if k < prev.len() {
                    assert(out@[k] == prev[k]);
                }
            }
            assert(done + spec_formula_changes(a@.subrange(i as int, a@.len() as int), b@.subrange(j as int, b@.len() as int)) =~= whole);
        }
    }
    proof {
        assert(spec_formula_changes(a@.subrange(i as int, a@.len() as int), b@.subrange(j as int, b@.len() as int)) =~= Seq::<GridChange>::empty());
        assert(done =~= whole);
    }
    out
}

/// The cell diffs in reverse order.
fn into_reversed(v: Vec<CellDiff>) -> (r: Vec<CellDiff>)
    ensures
        r@.len() == v@.len(),
        forall|k: int| 0 <= k < r@.len() ==> #[trigger] r@[k] == v@[v@.len() - 1 - k],
{
    let ghost v0 = v@;
    let mut v = v;
    let mut r: Vec<CellDiff> = Vec::new();
    while v.len() > 0
        invariant
            v@ == v0.take(v0.len() - r@.len()),
            r@.len() <= v0.len(),
            forall|k: int| 0 <= k < r@.len() ==> #[trigger] r@[k] == v0[v0.len() - 1 - k],
        decreases v@.len(),
    {
        let ghost before = v@;
        let d = v.pop().unwrap();
        proof {
            assert(d == v0[v0.len() - 1 - r@.len()]);
        }
        r.push(d);
        proof {
            assert(v@ =~= v0.take(v0.len() - r@.len()));
        }
    }
    r
}

/// Merges a sheet's value and formula cell diffs by `(row, col)`, the value
/// diff first where both concern the same cell.
fn merge_cell_diffs(a: Vec<CellDiff>, b: Vec<CellDiff>, ca: Ghost<Seq<GridChange>>, cb: Ghost<Seq<GridChange>>) -> (r: Vec<CellDiff>)
    requires
        spec_cells_are(a@, ca@),
        spec_cells_are(b@, cb@),
    ensures
        spec_cells_are(r@, spec_merge_changes(ca@, cb@)),
{
    let ghost whole = spec_merge_changes(ca@, cb@);
    let ghost mut done: Seq<GridChange> = Seq::empty();
    let mut ar = into_reversed(a);
    let mut br = into_reversed(b);
    let ghost mut ra = ca@;
    let ghost mut rb = cb@;
    let mut out: Vec<CellDiff> = Vec::new();
    proof {
        assert forall|k: int| 0 <= k < ra.len() implies spec_cell_is(#[trigger] ar@[ar@.len() - 1 - k], ra[k]) by {
            assert(ar@[ar@.len() - 1 - k] == a@[k]);
        }
        assert forall|k: int| 0 <= k < rb.len() implies spec_cell_is(#[trigger] br@[br@.len() - 1 - k], rb[k]) by {
            assert(br@[br@.len() - 1 - k] == b@[k]);
        }
    }
    while ar.len() > 0 || br.len() > 0
        invariant
            ar@.len() == ra.len(),
            br@.len() == rb.len(),
            forall|k: int| 0 <= k < ra.len() ==> spec_cell_is(#[trigger] ar@[ar@.len() - 1 - k], ra[k]),
            forall|k: int| 0 <= k < rb.len() ==> spec_cell_is(#[trigger] br@[br@.len() - 1 - k], rb[k]),
            spec_cells_are(out@, done),
            done + spec_merge_changes(ra, rb) == whole,
        decreases ar@.len() + br@.len(),
    {
        let ghost prev = out@;
        let take_b = if ar.len() == 0 {
            true
        } else if br.len() == 0 {
            false
        } else {
            let x = &ar[ar.len() - 1];
            let y = &br[br.len() - 1];
            proof {
                assert(spec_cell_is(ar@[ar@.len() - 1 - 0], ra[0]));
                assert(spec_cell_is(br@[br@.len() - 1 - 0], rb[0]));
            }
            y.row < x.row || (y.row == x.row && y.col < x.col)
        };
        if take_b {
            proof {
                assert(spec_cell_is(br@[br@.len() - 1 - 0], rb[0]));
            }
            let ghost br0 = br@;
            let ghost rb0 = rb;
            let d = br.pop().unwrap();
            proof {
                done = done.push(rb[0]);
                rb = rb.drop_first();
                assert forall|k: int| 0 <= k < rb.len() implies spec_cell_is(#[trigger] br@[br@.len() - 1 - k], rb[k]) by {
                    assert(br@[br@.len() - 1 - k] == br0[br0.len() - 1 - (k + 1)]);
                    assert(rb[k] == rb0[k + 1]);
                }
            }
            out.push(d);
        } else {
            proof {
                assert(spec_cell_is(ar@[ar@.len() - 1 - 0], ra[0]));
            }
            let ghost ar0 = ar@;
            let ghost ra0 = ra;
            let d = ar.pop().unwrap();
            proof {
                done = done.push(ra[0]);
                if rb.len() == 0 {
                    assert(ra =~= seq![ra[0]] + ra.drop_first());
                }
                ra = ra.drop_first();
                assert forall|k: int| 0 <= k < ra.len() implies spec_cell_is(#[trigger] ar@[ar@.len() - 1 - k], ra[k]) by {
                    assert(ar@[ar@.len() - 1 - k] == ar0[ar0.len() - 1 - (k + 1)]);
                    assert(ra[k] == ra0[k + 1]);
                }
            }
            out.push(d);
        }
        proof {
            assert forall|k: int| 0 <= k < out@.len() implies spec_cell_is(#[trigger] out@[k], done[k]) by {
                if k < prev.len() {
                    assert(out@[k] == prev[k]);
                }
            }
            assert(done + spec_merge_changes(ra, rb) =~= whole);
        }
    }
    proof {
        assert(done =~= whole);
    }
    out
}

/// The names of a list of texts.
pub open spec fn spec_texts(v: Seq<String>) -> Seq<Seq<char>> {
    v.map_values(|s: String| s@)
}

/// The old names not in `new`, then the new names not in `old`, each in
/// order; nothing when both lists are the same.
pub open spec fn spec_sheet_list_changes(old: Seq<Seq<char>>, new: Seq<Seq<char>>) -> Seq<(Option<Seq<char>>, Option<Seq<char>>)> {
    if old == new {
        Seq::empty()
    } else {
        spec_only_in(old, new, old.len() as int).map_values(|n: Seq<char>| (Some(n), None::<Seq<char>>))
            + spec_only_in(new, old, new.len() as int).map_values(|n: Seq<char>| (None::<Seq<char>>, Some(n)))
    }
}

/// The names among the first `k` of `a` that `b` does not list.
pub open spec fn spec_only_in(a: Seq<Seq<char>>, b: Seq<Seq<char>>, k: int) -> Seq<Seq<char>>
    decreases k,
{
    if k <= 0 || k > a.len() {
        Seq::empty()
    } else {
        let p = spec_only_in(a, b, k - 1);
        if b.contains(a[k - 1]) {
            p
        } else {
            p.push(a[k - 1])
        }
    }
}

/// The sheet diff as plain values.
pub open spec fn spec_sheet_diff_view(d: SheetDiff) -> (Option<Seq<char>>, Option<Seq<char>>) {
    (
        match d.old {
            Some(t) => Some(t@),
            None => None,
        },
        match d.new {
            Some(t) => Some(t@),
            None => None,
        },
    )
}

fn listed(names: &Vec<String>, name: &String) -> (r: bool)
    ensures
        r == spec_texts(names@).contains(name@),
{
    let mut i: usize = 0;
    while i < names.len()
        invariant
            i <= names@.len(),
            forall|q: int| 0 <= q < i ==> names@[q]@ != name@,
        decreases names@.len() - i,
    {
        if str_equal(&names[i], name) {
            assert(spec_texts(names@)[i as int] == name@);
            return true;
        }
        i += 1;
    }
    proof {
        if spec_texts(names@).contains(name@) {
            let q = choose|q: int| 0 <= q < spec_texts(names@).len() && spec_texts(names@)[q] == name@;
            assert(names@[q]@ == name@);
        }
    }
    false
}

fn same_names(a: &Vec<String>, b: &Vec<String>) -> (r: bool)
    ensures
        r == (spec_texts(a@) == spec_texts(b@)),
{
    if a.len() != b.len() {
        assert(spec_texts(a@).len() != spec_texts(b@).len());
        return false;
    }
    let mut i: usize = 0;
    while i < a.len()
        invariant
            i <= a@.len(),
            a@.len() == b@.len(),
            forall|q: int| 0 <= q < i ==> a@[q]@ == b@[q]@,
        decreases a@.len() - i,
    {
        if !str_equal(&a[i], &b[i]) {
            assert(spec_texts(a@)[i as int] != spec_texts(b@)[i as int]);
            return false;
        }
        i += 1;
    }
    assert(spec_texts(a@) =~= spec_texts(b@));
    true
}

/// The sheets only one side has (see `spec_sheet_list_changes`).
pub fn collect_sheet_diff(old_sheets: &Vec<String>, new_sheets: &Vec<String>) -> (r: Vec<SheetDiff>)
    ensures
        r@.map_values(|d: SheetDiff| spec_sheet_diff_view(d)) == spec_sheet_list_changes(spec_texts(old_sheets@), spec_texts(new_sheets@)),
{
    let ghost on = spec_texts(old_sheets@);
    let ghost nn = spec_texts(new_sheets@);
    let mut out: Vec<SheetDiff> = Vec::new();
    if same_names(old_sheets, new_sheets) {
        assert(out@.map_values(|d: SheetDiff| spec_sheet_diff_view(d)) =~= Seq::<(Option<Seq<char>>, Option<Seq<char>>)>::empty());
        return out;
    }
    let mut i: usize = 0;
    while i < old_sheets.len()
        invariant
            i <= old_sheets@.len(),
            on == spec_texts(old_sheets@),
            nn == spec_texts(new_sheets@),
            out@.map_values(|d: SheetDiff| spec_sheet_diff_view(d)) == spec_only_in(on, nn, i as int).map_values(|n: Seq<char>| (Some(n), None::<Seq<char>>)),
        decreases old_sheets@.len() - i,
    {
        proof {
            assert(on[i as int] == old_sheets@[i as int]@);
        }
        if !listed(new_sheets, &old_sheets[i]) {
            let ghost before = out@;
            out.push(SheetDiff { old: Some(old_sheets[i].clone()), new: None });
            proof {
                assert(spec_only_in(on, nn, i + 1) == spec_only_in(on, nn, i as int).push(on[i as int]));
                assert(out@.map_values(|d: SheetDiff| spec_sheet_diff_view(d)) =~= before.map_values(|d: SheetDiff| spec_sheet_diff_view(d)).push((Some(on[i as int]), None::<Seq<char>>)));
                assert(out@.map_values(|d: SheetDiff| spec_sheet_diff_view(d)) =~= spec_only_in(on, nn, i + 1).map_values(|n: Seq<char>| (Some(n), None::<Seq<char>>)));
            }
        }
        i += 1;
    }
    let ghost removed = out@.map_values(|d: SheetDiff| spec_sheet_diff_view(d));
    let ghost base = out@;
    let mut j: usize = 0;
    while j < new_sheets.len()
        invariant
            j <= new_sheets@.len(),
            on == spec_texts(old_sheets@),
            nn == spec_texts(new_sheets@),
            out@.len() >= base.len(),
            out@.take(base.len() as int) == base,
            removed == base.map_values(|d: SheetDiff| spec_sheet_diff_view(d)),
            out@.map_values(|d: SheetDiff| spec_sheet_diff_view(d)) == removed + spec_only_in(nn, on, j as int).map_values(|n: Seq<char>| (None::<Seq<char>>, Some(n))),
        decreases new_sheets@.len() - j,
    {
        proof {
            assert(nn[j as int] == new_sheets@[j as int]@);
        }
        if !listed(old_sheets, &new_sheets[j]) {
            let ghost before = out@;
            out.push(SheetDiff { old: None, new: Some(new_sheets[j].clone()) });
            proof {
                assert(out@.take(base.len() as int) =~= before.take(base.len() as int));
                assert(spec_only_in(nn, on, j + 1) == spec_only_in(nn, on, j as int).push(nn[j as int]));
                assert(out@.map_values(|d: SheetDiff| spec_sheet_diff_view(d)) =~= before.map_values(|d: SheetDiff| spec_sheet_diff_view(d)).push((None::<Seq<char>>, Some(nn[j as int]))));
                assert(out@.map_values(|d: SheetDiff| spec_sheet_diff_view(d)) =~= removed + spec_only_in(nn, on, j + 1).map_values(|n: Seq<char>| (None::<Seq<char>>, Some(n))));
            }
        }
        j += 1;
    }
    out
}

/// The changes of the shared sheets that have any, each with its sheet's name.
pub open spec fn spec_entries(shared: Seq<SharedSheet>, k: int) -> Seq<(Seq<char>, Seq<GridChange>)>
    decreases k,
{
    if k <= 0 || k > shared.len() {
        Seq::empty()
    } else {
        let p = spec_entries(shared, k - 1);
        let c = spec_sheet_changes(shared[k - 1]);
        if c.len() > 0 {
            p.push((shared[k - 1].name@, c))
        } else {
            p
        }
    }
}

/// The entry reports the sheet's changes.
pub open spec fn spec_entry_is(e: SheetCellDiff, a: (Seq<char>, Seq<GridChange>)) -> bool {
    e.sheet@ == a.0 && spec_cells_are(e.cells@, a.1)
}

/// The entries report the changes, in order.
pub open spec fn spec_entries_are(es: Seq<SheetCellDiff>, a: Seq<(Seq<char>, Seq<GridChange>)>) -> bool {
    &&& es.len() == a.len()
    &&& forall|k: int| 0 <= k < es.len() ==> spec_entry_is(#[trigger] es[k], a[k])
}

/// The first position at or after `from` whose name sorts after `x`'s.
pub open spec fn spec_name_slot(t: Seq<(Seq<char>, Seq<GridChange>)>, x: Seq<char>, from: int) -> int
    decreases t.len() - from,
{
    if from < 0 || from >= t.len() {
        t.len() as int
    } else if !spec_lex_lt(x, t[from].0) {
        spec_name_slot(t, x, from + 1)
    } else {
        from
    }
}

/// The stable sort of entries by sheet name: each inserted in turn after
/// those whose name does not sort after its own.
pub open spec fn spec_sort_entries(s: Seq<(Seq<char>, Seq<GridChange>)>) -> Seq<(Seq<char>, Seq<GridChange>)>
    decreases s.len(),
{
    if s.len() == 0 {
        Seq::empty()
    } else {
        let t = spec_sort_entries(s.drop_last());
        t.insert(spec_name_slot(t, s.last().0, 0), s.last())
    }
}

fn sheet_entries(shared: &Vec<SharedSheet>) -> (r: Vec<SheetCellDiff>)
    requires
        forall|k: int| 0 <= k < shared@.len() ==> spec_grid_ok(#[trigger] shared@[k]),
    ensures
        spec_entries_are(r@, spec_entries(shared@, shared@.len() as int)),
{
    let mut out: Vec<SheetCellDiff> = Vec::new();
    let mut k: usize = 0;
    while k < shared.len()
        invariant
            k <= shared@.len(),
            forall|q: int| 0 <= q < shared@.len() ==> spec_grid_ok(#[trigger] shared@[q]),
            spec_entries_are(out@, spec_entries(shared@, k as int)),
        decreases shared@.len() - k,
    {
        let sh = &shared[k];
        proof {
            assert(spec_grid_ok(shared@[k as int]));
        }
        let values = collect_value_changes(&sh.old_values, &sh.new_values);
        let formulas = collect_formula_changes(&sh.old_formulas, &sh.new_formulas);
        let cells = merge_cell_diffs(
            values,
            formulas,
            Ghost(spec_value_changes(sh.old_values@, sh.new_values@)),
            Ghost(spec_formula_changes(sh.old_formulas@, sh.new_formulas@)),
        );
        if cells.len() > 0 {
            let ghost before = out@;
            out.push(SheetCellDiff { sheet: sh.name.clone(), cells });
            proof {
                assert forall|q: int| 0 <= q < out@.len() implies spec_entry_is(#[trigger] out@[q], spec_entries(shared@, k + 1)[q]) by {
                    if q < before.len() {
                        assert(out@[q] == before[q]);
                    }
                }
            }
        }
        k += 1;
    }
    out
}

fn sort_entries(v: Vec<SheetCellDiff>, abs: Ghost<Seq<(Seq<char>, Seq<GridChange>)>>) -> (r: Vec<SheetCellDiff>)
    requires
        spec_entries_are(v@, abs@),
    ensures
        spec_entries_are(r@, spec_sort_entries(abs@)),
{
    let ghost orig = abs@;
    let ghost ov = v@;
    let mut rest = v;
    let mut out: Vec<SheetCellDiff> = Vec::new();
    let ghost mut k: int = 0;
    while rest.len() > 0
        invariant
            0 <= k <= orig.len(),
            ov.len() == orig.len(),
            forall|q: int| 0 <= q < ov.len() ==> spec_entry_is(#[trigger] ov[q], orig[q]),
            rest@ == ov.skip(k),
            spec_entries_are(out@, spec_sort_entries(orig.take(k))),
        decreases rest@.len(),
    {
        let ghost t = spec_sort_entries(orig.take(k));
        let x = rest.remove(0);
        proof {
            assert(x == ov[k]);
            assert(spec_entry_is(x, orig[k]));
        }
        let mut p: usize = 0;
        while p < out.len() && !str_less(&x.sheet, &out[p].sheet)
            invariant
                p <= out@.len(),
                spec_entries_are(out@, t),
                spec_name_slot(t, x.sheet@, 0) == spec_name_slot(t, x.sheet@, p as int),
            decreases out@.len() - p,
        {
            proof {
                assert(spec_entry_is(out@[p as int], t[p as int]));
            }
            p += 1;
        }
        proof {
            if p < out@.len() {
                assert(spec_entry_is(out@[p as int], t[p as int]));
            }
            assert(orig.take(k + 1).drop_last() =~= orig.take(k));
            assert(orig.take(k + 1).last() == orig[k]);
            assert(ov.skip(k + 1) =~= ov.skip(k).drop_first());
        }
        let ghost before = out@;
        out.insert(p, x);
        proof {
            let t2 = spec_sort_entries(orig.take(k + 1));
            assert(t2 == t.insert(p as int, orig[k]));
            assert forall|q: int| 0 <= q < out@.len() implies spec_entry_is(#[trigger] out@[q], t2[q]) by {
                if q < p {
                    assert(out@[q] == before[q]);
                } else if q > p {
                    assert(out@[q] == before[q - 1]);
                }
            }
            k = k + 1;
        }
    }
    proof {
        assert(orig.take(k) =~= orig);
    }
    out
}

/// No two shared sheets have the same name.
pub open spec fn spec_names_distinct(shared: Seq<SharedSheet>) -> bool {
    forall|i: int, j: int| 0 <= i < j < shared.len() ==> shared[i].name@ != shared[j].name@
}

/// An optional text as plain characters.
pub open spec fn spec_opt_chars(o: Option<String>) -> Option<Seq<char>> {
    match o {
        Some(t) => Some(t@),
        None => None,
    }
}

/// A cell diff as plain values.
pub open spec fn spec_cell_diff_view(c: CellDiff) -> (usize, usize, Seq<char>, CellDiffKind, Option<Seq<char>>, Option<Seq<char>>) {
    (c.row, c.col, c.addr@, c.kind, spec_opt_chars(c.old), spec_opt_chars(c.new))
}

/// A sheet's cell diffs as plain values.
pub open spec fn spec_sheet_cells_view(e: SheetCellDiff) -> (Seq<char>, Seq<(usize, usize, Seq<char>, CellDiffKind, Option<Seq<char>>, Option<Seq<char>>)>) {
    (e.sheet@, e.cells@.map_values(|c: CellDiff| spec_cell_diff_view(c)))
}

/// Two diffs hold the same labels, sheet changes and cell diffs.
pub open spec fn spec_same_diff(a: Diff, b: Diff) -> bool {
    &&& a.old_filepath@ == b.old_filepath@
    &&& a.new_filepath@ == b.new_filepath@
    &&& a.sheet_diff@.map_values(|d: SheetDiff| spec_sheet_diff_view(d)) == b.sheet_diff@.map_values(|d: SheetDiff| spec_sheet_diff_view(d))
    &&& a.cell_diffs@.map_values(|e: SheetCellDiff| spec_sheet_cells_view(e)) == b.cell_diffs@.map_values(|e: SheetCellDiff| spec_sheet_cells_view(e))
}

fn copy_text(o: &Option<String>) -> (r: Option<String>)
    ensures
        spec_opt_chars(r) == spec_opt_chars(*o),
{
    match o {
        Some(t) => Some(t.clone()),
        None => None,
    }
}

fn copy_cells(v: &Vec<CellDiff>) -> (r: Vec<CellDiff>)
    ensures
        r@.map_values(|c: CellDiff| spec_cell_diff_view(c)) == v@.map_values(|c: CellDiff| spec_cell_diff_view(c)),
{
    let mut out: Vec<CellDiff> = Vec::new();
    let mut i: usize = 0;
    while i < v.len()
        invariant
            i <= v@.len(),
            out@.len() == i,
            forall|k: int| 0 <= k < i ==> spec_cell_diff_view(#[trigger] out@[k]) == spec_cell_diff_view(v@[k]),
        decreases v@.len() - i,
    {
        let c = &v[i];
        out.push(CellDiff { row: c.row, col: c.col, addr: c.addr.clone(), kind: c.kind, old: copy_text(&c.old), new: copy_text(&c.new) });
        i += 1;
    }
    assert(out@.map_values(|c: CellDiff| spec_cell_diff_view(c)) =~= v@.map_values(|c: CellDiff| spec_cell_diff_view(c)));
    out
}

impl Diff {
    /// A copy of this diff: the same labels, sheet changes and cell diffs.
    pub fn diff(&mut self) -> (r: Diff)
        ensures
            *final(self) == *old(self),
            spec_same_diff(r, *old(self)),
    {
        let mut sheet_diff: Vec<SheetDiff> = Vec::new();
        let mut i: usize = 0;
        while i < self.sheet_diff.len()
            invariant
                i <= self.sheet_diff@.len(),
                sheet_diff@.len() == i,
                forall|k: int| 0 <= k < i ==> spec_sheet_diff_view(#[trigger] sheet_diff@[k]) == spec_sheet_diff_view(self.sheet_diff@[k]),
            decreases self.sheet_diff@.len() - i,
        {
            let d = &self.sheet_diff[i];
            sheet_diff.push(SheetDiff { old: copy_text(&d.old), new: copy_text(&d.new) });
            i += 1;
        }
        let mut cell_diffs: Vec<SheetCellDiff> = Vec::new();
        let mut j: usize = 0;
        while j < self.cell_diffs.len()
            invariant
                j <= self.cell_diffs@.len(),
                cell_diffs@.len() == j,
                forall|k: int| 0 <= k < j ==> spec_sheet_cells_view(#[trigger] cell_diffs@[k]) == spec_sheet_cells_view(self.cell_diffs@[k]),
            decreases self.cell_diffs@.len() - j,
        {
            let e = &self.cell_diffs[j];
            cell_diffs.push(SheetCellDiff { sheet: e.sheet.clone(), cells: copy_cells(&e.cells) });
            j += 1;
        }
        let r = Diff {
            old_filepath: self.old_filepath.clone(),
            new_filepath: self.new_filepath.clone(),
            sheet_diff,
            cell_diffs,
        };
        assert(r.sheet_diff@.map_values(|d: SheetDiff| spec_sheet_diff_view(d)) =~= self.sheet_diff@.map_values(|d: SheetDiff| spec_sheet_diff_view(d)));
        assert(r.cell_diffs@.map_values(|e: SheetCellDiff| spec_sheet_cells_view(e)) =~= self.cell_diffs@.map_values(|e: SheetCellDiff| spec_sheet_cells_view(e)));
        r
    }
}

impl Diff {
    /// The grid diff of two workbooks, given their labels, their sheet names,
    /// and the sheets both have, as read: the sheets only one side has; and,
    /// for every shared sheet with any change, its value and formula changes
    /// merged by `(row, col)`, the sheets in name order.
    pub fn from_sheets(
        old_filepath: String,
        new_filepath: String,
        old_sheets: &Vec<String>,
        new_sheets: &Vec<String>,
        shared: &Vec<SharedSheet>,
    ) -> (r: Diff)
        requires
            forall|k: int| 0 <= k < shared@.len() ==> spec_grid_ok(#[trigger] shared@[k]),
            spec_names_distinct(shared@),
        ensures
            r.old_filepath == old_filepath,
            r.new_filepath == new_filepath,
            r.sheet_diff@.map_values(|d: SheetDiff| spec_sheet_diff_view(d)) == spec_sheet_list_changes(
                spec_texts(old_sheets@),
                spec_texts(new_sheets@),
            ),
            spec_entries_are(r.cell_diffs@, spec_sort_entries(spec_entries(shared@, shared@.len() as int))),
    {
        let sheet_diff = collect_sheet_diff(old_sheets, new_sheets);
        let entries = sheet_entries(shared);
        let cell_diffs = sort_entries(entries, Ghost(spec_entries(shared@, shared@.len() as int)));
        Diff { old_filepath, new_filepath, sheet_diff, cell_diffs }
    }
}

} // verus!