//! What a comparison's outcome means to a command-line caller: its exit
//! code, whether the workbooks differ, and the result with its diagnostics
//! left out for display.

use vstd::prelude::*;

use crate::error::{OpenErrorKind, ReadErrorKind, SheetsDiffError};
use crate::model::{CellDiff, Diagnostic, SheetChange, SheetDiff, WorkbookDiff};

verus! {

/// The exit code of a failure: 3 when the bytes at the given path are
/// unusable as a workbook (wrong format, corrupt, encrypted, a sheet the
/// workbook promises that cannot be read); 2 for everything else.
pub open spec fn spec_exit_code(e: SheetsDiffError) -> i32 {
    match e {
        SheetsDiffError::OpenWorkbook { kind, .. } => match kind {
            OpenErrorKind::NotXlsx | OpenErrorKind::Corrupt => 3,
            _ => 2,
        },
        SheetsDiffError::ReadSheet { kind, .. } => match kind {
            ReadErrorKind::SheetNotFound | ReadErrorKind::MalformedSheet => 3,
            _ => 2,
        },
        SheetsDiffError::UnsupportedFormat { .. } => 3,
        SheetsDiffError::EncryptedWorkbook { .. } => 3,
        _ => 2,
    }
}

/// Maps a comparison failure to an exit code (see `spec_exit_code`).
pub fn exit_code_for(err: &SheetsDiffError) -> (r: i32)
    ensures
        r == spec_exit_code(*err),
{
    match err {
        SheetsDiffError::OpenWorkbook { kind, .. } => match kind {
            OpenErrorKind::NotXlsx | OpenErrorKind::Corrupt => 3,
            OpenErrorKind::NotFound | OpenErrorKind::PermissionDenied | OpenErrorKind::Locked => 2,
            OpenErrorKind::Other => 2,
        },
        SheetsDiffError::ReadSheet { kind, .. } => match kind {
            ReadErrorKind::SheetNotFound | ReadErrorKind::MalformedSheet => 3,
            ReadErrorKind::Other => 2,
        },
        SheetsDiffError::UnsupportedFormat { .. } => 3,
        SheetsDiffError::EncryptedWorkbook { .. } => 3,
        SheetsDiffError::InvalidOptions { .. } => 2,
        SheetsDiffError::Cancelled => 2,
        SheetsDiffError::LimitExceeded { .. } => 2,
        SheetsDiffError::Internal { .. } => 2,
    }
}

/// The sheet diff records a difference: its sheet is not `Unchanged`, or a
/// cell changed.
pub open spec fn spec_sheet_differs(sd: SheetDiff) -> bool {
    !(sd.change is Unchanged) || sd.cell_diffs@.len() > 0
}

/// The workbooks differ in a way the comparison records; diagnostics are not
/// consulted.
pub open spec fn spec_workbooks_differ(d: WorkbookDiff) -> bool {
    (exists|i: int| 0 <= i < d.sheets@.len() && spec_sheet_differs(#[trigger] d.sheets@[i]))
        || d.workbook_changes@.len() > 0 || d.object_changes@.len() > 0
}

/// The workbooks differ when some sheet's change is anything but `Unchanged`
/// (a move or a rename included), whatever its cell diffs; when some sheet has
/// a cell diff; or when there is a workbook or object change. With none of
/// these they do not differ.
pub proof fn lemma_differ_exactly(d: WorkbookDiff, i: int)
    ensures
        0 <= i < d.sheets@.len() && !(d.sheets@[i].change is Unchanged) ==> spec_workbooks_differ(d),
        0 <= i < d.sheets@.len() && d.sheets@[i].cell_diffs@.len() > 0 ==> spec_workbooks_differ(d),
        d.workbook_changes@.len() > 0 || d.object_changes@.len() > 0 ==> spec_workbooks_differ(d),
        (forall|k: int| 0 <= k < d.sheets@.len() ==> (#[trigger] d.sheets@[k]).change is Unchanged && d.sheets@[k].cell_diffs@.len() == 0)
            && d.workbook_changes@.len() == 0 && d.object_changes@.len() == 0 ==> !spec_workbooks_differ(d),
{
    if 0 <= i < d.sheets@.len() {
        assert(spec_sheet_differs(d.sheets@[i]) <== !(d.sheets@[i].change is Unchanged) || d.sheets@[i].cell_diffs@.len() > 0);
    }
}

/// Whether the two workbooks differ (see `spec_workbooks_differ`).
pub fn workbooks_differ(diff: &WorkbookDiff) -> (r: bool)
    ensures
        r == spec_workbooks_differ(*diff),
{
    let mut i: usize = 0;
    while i < diff.sheets.len()
        invariant
            i <= diff.sheets@.len(),
            forall|q: int| 0 <= q < i ==> !spec_sheet_differs(#[trigger] diff.sheets@[q]),
        decreases diff.sheets@.len() - i,
    {
        let sd = &diff.sheets[i];
        let unchanged = match sd.change {
            SheetChange::Unchanged => true,
            _ => false,
        };
        if !unchanged || sd.cell_diffs.len() > 0 {
            assert(spec_sheet_differs(diff.sheets@[i as int]));
            return true;
        }
        i += 1;
    }
    diff.workbook_changes.len() > 0 || diff.object_changes.len() > 0
}

/// The cell diff is the other with its diagnostics left out.
pub open spec fn spec_cell_without_diags(a: CellDiff, b: CellDiff) -> bool {
    &&& b.address == a.address
    &&& b.value == a.value
    &&& b.formula == a.formula
    &&& b.format == a.format
    &&& b.diagnostics@.len() == 0
}

/// The sheet diff is the other with every diagnostic left out.
pub open spec fn spec_sheet_without_diags(a: SheetDiff, b: SheetDiff) -> bool {
    &&& b.old_sheet == a.old_sheet
    &&& b.new_sheet == a.new_sheet
    &&& b.change == a.change
    &&& b.compared_range == a.compared_range
    &&& b.alignment_summary == a.alignment_summary
    &&& b.summary == a.summary
    &&& b.diagnostics@.len() == 0
    &&& b.cell_diffs@.len() == a.cell_diffs@.len()
    &&& forall|k: int| 0 <= k < a.cell_diffs@.len() ==> spec_cell_without_diags(#[trigger] a.cell_diffs@[k], b.cell_diffs@[k])
}

fn reversed_cells(v: Vec<CellDiff>) -> (r: Vec<CellDiff>)
    ensures
        r@.len() == v@.len(),
        forall|k: int| 0 <= k < r@.len() ==> spec_cell_without_diags(v@[v@.len() - 1 - k], #[trigger] r@[k]),
{
    let ghost v0 = v@;
    let mut v = v;
    let mut r: Vec<CellDiff> = Vec::new();
    while v.len() > 0
        invariant
            v@ == v0.take(v0.len() - r@.len()),
            r@.len() <= v0.len(),
            forall|k: int| 0 <= k < r@.len() ==> spec_cell_without_diags(v0[v0.len() - 1 - k], #[trigger] r@[k]),
        decreases v@.len(),
    {
        let mut d = v.pop().unwrap();
        d.diagnostics = Vec::new();
        r.push(d);
        proof {
            assert(v@ =~= v0.take(v0.len() - r@.len()));
        }
    }
    r
}

fn restored_cells(v: Vec<CellDiff>) -> (r: Vec<CellDiff>)
    ensures
        r@.len() == v@.len(),
        forall|k: int| 0 <= k < r@.len() ==> #[trigger] r@[k] == v@[v@.len() - 1 - k],
{
    let ghost v0 = v@;
    let mut v = v;
    let mut r: Vec<CellDiff> = Vec::new();
    while v.len() > 0
        invariant
            v@ == v0.take(v0.len() - r@.len()),
            r@.len() <= v0.len(),
            forall|k: int| 0 <= k < r@.len() ==> #[trigger] r@[k] == v0[v0.len() - 1 - k],
        decreases v@.len(),
    {
        let d = v.pop().unwrap();
        r.push(d);
        proof {
            assert(v@ =~= v0.take(v0.len() - r@.len()));
        }
    }
    r
}

fn without_diags(sd: SheetDiff) -> (r: SheetDiff)
    ensures
        spec_sheet_without_diags(sd, r),
{
    let ghost before = sd;
    let mut sd = sd;
    let mut cells: Vec<CellDiff> = Vec::new();
    std::mem::swap(&mut cells, &mut sd.cell_diffs);
    let ghost c0 = cells@;
    let rev = reversed_cells(cells);
    let back = restored_cells(rev);
    proof {
        assert forall|k: int| 0 <= k < c0.len() implies spec_cell_without_diags(#[trigger] c0[k], back@[k]) by {
            assert(back@[k] == rev@[rev@.len() - 1 - k]);
        }
    }
    sd.cell_diffs = back;
    sd.diagnostics = Vec::new();
    sd
}

/// The result with every diagnostic left out, for display; the counts that
/// report them are left alone.
pub fn suppress_diagnostics(diff: &mut WorkbookDiff)
    ensures
        final(diff).diagnostics@.len() == 0,
        final(diff).old == old(diff).old,
        final(diff).new == old(diff).new,
        final(diff).summary == old(diff).summary,
        final(diff).metrics == old(diff).metrics,
        final(diff).workbook_changes == old(diff).workbook_changes,
        final(diff).object_changes == old(diff).object_changes,
        final(diff).sheets@.len() == old(diff).sheets@.len(),
        forall|i: int| 0 <= i < old(diff).sheets@.len() ==> spec_sheet_without_diags(#[trigger] old(diff).sheets@[i], final(diff).sheets@[i]),
{
    diff.diagnostics = Vec::new();
    let mut sheets: Vec<SheetDiff> = Vec::new();
    std::mem::swap(&mut sheets, &mut diff.sheets);
    let ghost s0 = sheets@;
    let mut rev: Vec<SheetDiff> = Vec::new();
    while sheets.len() > 0
        invariant
            sheets@ == s0.take(s0.len() - rev@.len()),
            rev@.len() <= s0.len(),
            forall|k: int| 0 <= k < rev@.len() ==> spec_sheet_without_diags(s0[s0.len() - 1 - k], #[trigger] rev@[k]),
        decreases sheets@.len(),
    {
        let sd = sheets.pop().unwrap();
        rev.push(without_diags(sd));
        proof {
            assert(sheets@ =~= s0.take(s0.len() - rev@.len()));
        }
    }
    let ghost r0 = rev@;
    let mut out: Vec<SheetDiff> = Vec::new();
    while rev.len() > 0
        invariant
            rev@ == r0.take(r0.len() - out@.len()),
            out@.len() <= r0.len(),
            r0.len() == s0.len(),
            forall|k: int| 0 <= k < r0.len() ==> spec_sheet_without_diags(s0[s0.len() - 1 - k], #[trigger] r0[k]),
            forall|k: int| 0 <= k < out@.len() ==> #[trigger] out@[k] == r0[r0.len() - 1 - k],
        decreases rev@.len(),
    {
        let sd = rev.pop().unwrap();
        out.push(sd);
        proof {
            assert(rev@ =~= r0.take(r0.len() - out@.len()));
        }
    }
    proof {
        assert forall|i: int| 0 <= i < s0.len() implies spec_sheet_without_diags(#[trigger] s0[i], out@[i]) by {
            assert(out@[i] == r0[r0.len() - 1 - i]);
        }
    }
    diff.sheets = out;
}

} // verus!
