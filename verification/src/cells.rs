//! A sheet's retained cells: a map from 1-based `(row, col)` to the cell's value
//! and formula, kept as a vector sorted strictly by `(row, col)`.

use vstd::prelude::*;

use crate::model::{CellValue, Float64};

verus! {

/// One retained cell: its 1-based coordinates, its value and its formula text.
pub struct CellEntry {
    pub row: u32,
    pub col: u32,
    pub value: CellValue,
    pub formula: Option<String>,
}

/// `(r1, c1)` comes strictly before `(r2, c2)` in row-then-column order.
pub open spec fn spec_key_lt(r1: u32, c1: u32, r2: u32, c2: u32) -> bool {
    r1 < r2 || (r1 == r2 && c1 < c2)
}

/// The entries are sorted strictly by `(row, col)`: no coordinate occurs twice.
pub open spec fn spec_cells_sorted(s: Seq<CellEntry>) -> bool {
    forall|i: int, j: int|
        0 <= i < j < s.len() ==> spec_key_lt(#[trigger] s[i].row, s[i].col, #[trigger] s[j].row, s[j].col)
}

/// The position of the cell at `(row, col)`, if there is one.
pub open spec fn spec_cell_at(s: Seq<CellEntry>, row: u32, col: u32) -> Option<int> {
    if exists|i: int| 0 <= i < s.len() && s[i].row == row && s[i].col == col {
        Some(choose|i: int| 0 <= i < s.len() && s[i].row == row && s[i].col == col)
    } else {
        None
    }
}

/// The distinct rows of the entries, in order of first appearance.
pub open spec fn spec_rows(s: Seq<CellEntry>) -> Seq<u32>
    decreases s.len(),
{
    if s.len() == 0 {
        Seq::empty()
    } else {
        let p = spec_rows(s.drop_last());
        if p.len() > 0 && p.last() == s.last().row {
            p
        } else {
            p.push(s.last().row)
        }
    }
}

/// The entries of row `r`, in order.
pub open spec fn spec_row_cells(s: Seq<CellEntry>, r: u32) -> Seq<CellEntry>
    decreases s.len(),
{
    if s.len() == 0 {
        Seq::empty()
    } else {
        let p = spec_row_cells(s.drop_last(), r);
        if s.last().row == r {
            p.push(s.last())
        } else {
            p
        }
    }
}

/// `[lo, hi)` is the whole run of entries of one row.
pub open spec fn spec_row_run(s: Seq<CellEntry>, lo: int, hi: int) -> bool {
    &&& 0 <= lo < hi <= s.len()
    &&& lo == 0 || s[lo - 1].row != s[lo].row
    &&& hi == s.len() || s[hi].row != s[lo].row
    &&& forall|i: int| lo <= i < hi ==> #[trigger] s[i].row == s[lo].row
}

/// The value at `(row, col)`, if there is a cell there.
pub open spec fn spec_value_at(s: Seq<CellEntry>, row: u32, col: u32) -> Option<CellValue> {
    match spec_cell_at(s, row, col) {
        Some(i) => Some(s[i].value),
        None => None,
    }
}

/// Two sequences of characters wrapped as strings hold the same text.
pub open spec fn spec_opt_str_same(a: Option<String>, b: Option<String>) -> bool {
    match (a, b) {
        (None, None) => true,
        (Some(x), Some(y)) => x@ == y@,
        _ => false,
    }
}

/// Two doubles are the same: they print alike (and so, but for the payload of
/// a NaN, are the same double).
pub open spec fn spec_float_same(a: Float64, b: Float64) -> bool {
    a.text@ == b.text@
}

/// Two values are the same value: same variant and the same content, texts
/// compared by their characters and numbers by their bits.
pub open spec fn spec_value_same(a: CellValue, b: CellValue) -> bool {
    match (a, b) {
        (CellValue::Empty, CellValue::Empty) => true,
        (CellValue::Text(x), CellValue::Text(y)) => x@ == y@,
        (CellValue::Integer(x), CellValue::Integer(y)) => x == y,
        (CellValue::Number(x), CellValue::Number(y)) => spec_float_same(x, y),
        (CellValue::Bool(x), CellValue::Bool(y)) => x == y,
        (CellValue::DateTime(x), CellValue::DateTime(y)) => spec_float_same(x.serial, y.serial)
            && x.is_1904 == y.is_1904 && x.kind == y.kind && spec_opt_str_same(x.iso, y.iso)
            && x.has_serial == y.has_serial,
        (CellValue::Duration(x), CellValue::Duration(y)) => spec_float_same(x.serial, y.serial)
            && spec_opt_str_same(x.iso, y.iso),
        (CellValue::Error(x), CellValue::Error(y)) => crate::compare::spec_error_eq(x, y),
        (
            CellValue::Unsupported { display: d1, reason: r1 },
            CellValue::Unsupported { display: d2, reason: r2 },
        ) => d1@ == d2@ && r1@ == r2@,
        _ => false,
    }
}

/// A non-empty prefix's rows end with its last entry's row.
pub proof fn lemma_rows_last(s: Seq<CellEntry>)
    requires
        s.len() > 0,
    ensures
        spec_rows(s).len() > 0,
        spec_rows(s).last() == s.last().row,
{
}

/// Sorted entries: two entries at the same coordinate are the same entry.
pub proof fn lemma_sorted_unique(s: Seq<CellEntry>, i: int, j: int)
    requires
        spec_cells_sorted(s),
        0 <= i < s.len(),
        0 <= j < s.len(),
        s[i].row == s[j].row,
        s[i].col == s[j].col,
    ensures
        i == j,
{
    if i < j {
        assert(spec_key_lt(s[i].row, s[i].col, s[j].row, s[j].col));
    } else if j < i {
        assert(spec_key_lt(s[j].row, s[j].col, s[i].row, s[i].col));
    }
}

/// Around a run of sorted entries, rows are smaller before it and larger after it.
pub proof fn lemma_run_bounds(s: Seq<CellEntry>, lo: int, hi: int)
    requires
        spec_cells_sorted(s),
        spec_row_run(s, lo, hi),
    ensures
        forall|i: int| 0 <= i < lo ==> #[trigger] s[i].row < s[lo].row,
        forall|i: int| hi <= i < s.len() ==> #[trigger] s[i].row > s[lo].row,
{
    assert forall|i: int| 0 <= i < lo implies #[trigger] s[i].row < s[lo].row by {
        assert(spec_key_lt(s[lo - 1].row, s[lo - 1].col, s[lo].row, s[lo].col));
        if i < lo - 1 {
            assert(spec_key_lt(s[i].row, s[i].col, s[lo - 1].row, s[lo - 1].col));
        }
    }
    assert forall|i: int| hi <= i < s.len() implies #[trigger] s[i].row > s[lo].row by {
        assert(spec_key_lt(s[hi - 1].row, s[hi - 1].col, s[hi].row, s[hi].col));
        assert(s[hi - 1].row == s[lo].row);
        if i > hi {
            assert(spec_key_lt(s[hi].row, s[hi].col, s[i].row, s[i].col));
        }
    }
}

/// Taking a whole run adds its row to the rows, and its entries to that row's
/// entries, and leaves every other row's entries as they were.
pub proof fn lemma_run_take(s: Seq<CellEntry>, lo: int, hi: int, t: int)
    requires
        spec_cells_sorted(s),
        spec_row_run(s, lo, hi),
        lo < t <= hi,
    ensures
        spec_rows(s.take(t)) == spec_rows(s.take(lo)).push(s[lo].row),
        spec_row_cells(s.take(t), s[lo].row) == s.subrange(lo, t),
        forall|r: u32| r != s[lo].row ==> spec_row_cells(s.take(t), r) == spec_row_cells(s.take(lo), r),
    decreases t - lo,
{
    lemma_run_bounds(s, lo, hi);
    let st = s.take(t);
    assert(st.drop_last() =~= s.take(t - 1));
    if t == lo + 1 {
        if lo > 0 {
            lemma_rows_last(s.take(lo));
            assert(s.take(lo).last() == s[lo - 1]);
        }
        lemma_row_cells_absent(s.take(lo), s[lo].row);
        assert(s.subrange(lo, t) =~= Seq::<CellEntry>::empty().push(s[lo]));
    } else {
        lemma_run_take(s, lo, hi, t - 1);
        assert(s.subrange(lo, t) =~= s.subrange(lo, t - 1).push(s[t - 1]));
    }
}

/// A row with no entry has no entries.
pub proof fn lemma_row_cells_absent(s: Seq<CellEntry>, r: u32)
    requires
        forall|i: int| 0 <= i < s.len() ==> #[trigger] s[i].row != r,
    ensures
        spec_row_cells(s, r) == Seq::<CellEntry>::empty(),
    decreases s.len(),
{
    if s.len() > 0 {
        lemma_row_cells_absent(s.drop_last(), r);
    }
}

/// Entries after a prefix that are not of row `r` leave its entries unchanged.
pub proof fn lemma_row_cells_suffix(s: Seq<CellEntry>, t: int, r: u32)
    requires
        0 <= t <= s.len(),
        forall|i: int| t <= i < s.len() ==> #[trigger] s[i].row != r,
    ensures
        spec_row_cells(s, r) == spec_row_cells(s.take(t), r),
    decreases s.len() - t,
{
    if t == s.len() {
        assert(s.take(t) =~= s);
    } else {
        let u = s.take(t + 1);
        assert(u.drop_last() =~= s.take(t));
        assert(u.take(t) =~= s.take(t));
        lemma_row_cells_suffix(s, t + 1, r);
    }
}

/// The entries of the row of a run are the run.
pub proof fn lemma_run_cells(s: Seq<CellEntry>, lo: int, hi: int)
    requires
        spec_cells_sorted(s),
        spec_row_run(s, lo, hi),
    ensures
        spec_row_cells(s, s[lo].row) == s.subrange(lo, hi),
{
    lemma_run_bounds(s, lo, hi);
    lemma_run_take(s, lo, hi, hi);
    lemma_row_cells_suffix(s, hi, s[lo].row);
}

/// Inside a run, the cell at `(row, col)` is the one found there, if any.
pub proof fn lemma_run_lookup(s: Seq<CellEntry>, lo: int, hi: int, col: u32, k: int)
    requires
        spec_cells_sorted(s),
        spec_row_run(s, lo, hi),
        lo <= k <= hi,
        k < hi ==> s[k].col == col,
        k == hi ==> forall|i: int| lo <= i < hi ==> #[trigger] s[i].col != col,
    ensures
        k < hi ==> spec_cell_at(s, s[lo].row, col) == Some(k),
        k == hi ==> spec_cell_at(s, s[lo].row, col) is None,
{
    lemma_run_bounds(s, lo, hi);
    let r = s[lo].row;
    if k < hi {
        assert(s[k].row == r);
        let i = choose|i: int| 0 <= i < s.len() && s[i].row == r && s[i].col == col;
        lemma_sorted_unique(s, i, k);
    } else {
        assert forall|i: int| 0 <= i < s.len() implies !(s[i].row == r && s[i].col == col) by {
            if lo <= i < hi {
            } else if i < lo {
            } else {
            }
        }
    }
}

/// The end of the run that starts at `lo`.
pub fn row_end(cells: &Vec<CellEntry>, lo: usize) -> (hi: usize)
    requires
        lo < cells@.len(),
        lo == 0 || cells@[lo - 1].row != cells@[lo as int].row,
    ensures
        spec_row_run(cells@, lo as int, hi as int),
{
    let n = cells.len();
    let r = cells[lo].row;
    let mut hi = lo + 1;
    while hi < cells.len() && cells[hi].row == r
        invariant
            lo < hi <= cells@.len(),
            r == cells@[lo as int].row,
            forall|i: int| lo <= i < hi ==> #[trigger] cells@[i].row == r,
        decreases cells@.len() - hi,
    {
        hi += 1;
    }
    hi
}

} // verus!

verus! {

fn opt_str_same(a: &Option<String>, b: &Option<String>) -> (r: bool)
    ensures
        r == spec_opt_str_same(*a, *b),
{
    match (a, b) {
        (None, None) => true,
        (Some(x), Some(y)) => crate::strings::str_equal(x, y),
        _ => false,
    }
}

fn float_same(a: &Float64, b: &Float64) -> (r: bool)
    ensures
        r == spec_float_same(*a, *b),
{
    crate::strings::str_equal(&a.text, &b.text)
}

/// Whether two values are the same value.
pub fn value_same(a: &CellValue, b: &CellValue) -> (r: bool)
    ensures
        r == spec_value_same(*a, *b),
{
    match (a, b) {
        (CellValue::Empty, CellValue::Empty) => true,
        (CellValue::Text(x), CellValue::Text(y)) => crate::strings::str_equal(x, y),
        (CellValue::Integer(x), CellValue::Integer(y)) => *x == *y,
        (CellValue::Number(x), CellValue::Number(y)) => float_same(x, y),
        (CellValue::Bool(x), CellValue::Bool(y)) => *x == *y,
        (CellValue::DateTime(x), CellValue::DateTime(y)) => float_same(&x.serial, &y.serial)
            && x.is_1904 == y.is_1904 && x.kind == y.kind && opt_str_same(&x.iso, &y.iso)
            && x.has_serial == y.has_serial,
        (CellValue::Duration(x), CellValue::Duration(y)) => float_same(&x.serial, &y.serial)
            && opt_str_same(&x.iso, &y.iso),
        (CellValue::Error(x), CellValue::Error(y)) => crate::compare::error_eq(x, y),
        (
            CellValue::Unsupported { display: d1, reason: r1 },
            CellValue::Unsupported { display: d2, reason: r2 },
        ) => crate::strings::str_equal(d1, d2) && crate::strings::str_equal(r1, r2),
        _ => false,
    }
}

} // verus!
