//! A workbook as the comparison sees it once opened: where it came from, its
//! sheets, their types and visibility, its defined names, and each sheet's
//! cells as read (or why they could not be read).

use vstd::prelude::*;

use crate::cells::{spec_cells_sorted, spec_key_lt, CellEntry};
use crate::diff::{spec_raw_ok, SheetCells};
use crate::error::{CalamiLineError, LimitKind, SheetsDiffError, XlsxErrorClass};
use crate::model::{SheetRef, SourceDescription};
use crate::objects::SheetMeta;

verus! {

/// A sheet's content as read.
pub enum SheetContent {
    /// The sheet's cells.
    Cells(SheetCells),
    /// Reading the sheet failed: the class of the reader's error, and the error.
    Unreadable { class: XlsxErrorClass, inner: Option<Box<CalamiLineError>> },
}

/// An opened workbook.
pub struct OpenedWorkbook {
    pub source: SourceDescription,
    /// The sheets in workbook order; `index` is the position.
    pub sheets: Vec<SheetRef>,
    /// Each sheet's name, type and visibility, in the same order.
    pub metas: Vec<SheetMeta>,
    /// The defined names as `(name, target)` pairs.
    pub defined_names: Vec<(String, String)>,
    /// Each sheet's content, in the same order.
    pub contents: Vec<SheetContent>,
}

/// The workbook is consistent: one meta and one content per sheet, each
/// sheet's index its position, and every sheet read in row-major order.
pub open spec fn spec_workbook_ok(wb: OpenedWorkbook) -> bool {
    &&& wb.metas@.len() == wb.sheets@.len()
    &&& wb.contents@.len() == wb.sheets@.len()
    &&& forall|k: int| 0 <= k < wb.sheets@.len() ==> (#[trigger] wb.sheets@[k]).index == k
    &&& forall|k: int| 0 <= k < wb.contents@.len() ==> (#[trigger] wb.contents@[k] matches SheetContent::Cells(sc) ==> spec_raw_ok(sc.cells@))
}

/// Whether cells as read are strictly in row-major order at 1-based
/// coordinates.
pub fn cells_ok(cells: &Vec<CellEntry>) -> (r: bool)
    ensures
        r == spec_raw_ok(cells@),
{
    let n = cells.len();
    let mut i: usize = 0;
    while i < n
        invariant
            n == cells@.len(),
            i <= n,
            spec_cells_sorted(cells@.take(i as int)),
            forall|k: int| 0 <= k < i ==> #[trigger] cells@[k].row >= 1 && cells@[k].col >= 1,
        decreases n - i,
    {
        let e = &cells[i];
        if e.row < 1 || e.col < 1 {
            return false;
        }
        if i > 0 {
            let p = &cells[i - 1];
            if !(p.row < e.row || (p.row == e.row && p.col < e.col)) {
                assert(!spec_key_lt(cells@[i - 1].row, cells@[i - 1].col, cells@[i as int].row, cells@[i as int].col));
                return false;
            }
        }
        proof {
            let t = cells@.take(i + 1);
            assert forall|a: int, b: int| 0 <= a < b < t.len() implies spec_key_lt(#[trigger] t[a].row, t[a].col, #[trigger] t[b].row, t[b].col) by {
                assert(t[a] == cells@[a] && t[b] == cells@[b]);
                if b == i && a < i - 1 {
                    let pt = cells@.take(i as int);
                    assert(pt[a] == cells@[a] && pt[i - 1] == cells@[i - 1]);
                    assert(spec_key_lt(pt[a].row, pt[a].col, pt[i - 1].row, pt[i - 1].col));
                } else if b < i {
                    let pt = cells@.take(i as int);
                    assert(pt[a] == cells@[a] && pt[b] == cells@[b]);
                }
            }
        }
        i += 1;
    }
    proof {
        assert(cells@.take(n as int) =~= cells@);
    }
    true
}

/// Whether the workbook is consistent (see `spec_workbook_ok`): what the
/// comparison requires of a workbook it is handed.
pub fn workbook_ok(wb: &OpenedWorkbook) -> (r: bool)
    ensures
        r == spec_workbook_ok(*wb),
{
    if wb.metas.len() != wb.sheets.len() || wb.contents.len() != wb.sheets.len() {
        return false;
    }
    let n = wb.sheets.len();
    let mut k: usize = 0;
    while k < n
        invariant
            n == wb.sheets@.len(),
            wb.contents@.len() == n,
            k <= n,
            forall|j: int| 0 <= j < k ==> (#[trigger] wb.sheets@[j]).index == j,
            forall|j: int| 0 <= j < k ==> (#[trigger] wb.contents@[j] matches SheetContent::Cells(sc) ==> spec_raw_ok(sc.cells@)),
        decreases n - k,
    {
        if wb.sheets[k].index != k {
            return false;
        }
        if let SheetContent::Cells(sc) = &wb.contents[k] {
            if !cells_ok(&sc.cells) {
                return false;
            }
        }
        k += 1;
    }
    true
}

/// Checks an input's size against `max_input_bytes` before it is read:
/// `LimitExceeded { InputBytes, observed: len }` when it is larger.
pub fn check_input_size(len: u64, max_input_bytes: Option<u64>) -> (r: Result<(), SheetsDiffError>)
    ensures
        r is Ok <==> !(max_input_bytes matches Some(m) && len > m),
        r is Err ==> r == Err::<(), SheetsDiffError>(SheetsDiffError::LimitExceeded { limit: LimitKind::InputBytes, observed: len }),
{
    if let Some(limit) = max_input_bytes {
        if len > limit {
            return Err(SheetsDiffError::LimitExceeded { limit: LimitKind::InputBytes, observed: len });
        }
    }
    Ok(())
}

} // verus!
