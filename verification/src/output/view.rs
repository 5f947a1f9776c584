//! View adapters over a `WorkbookDiff`: a flat, filtered list of cell changes
//! with deterministic navigation, for tables and sheet trees. They borrow from
//! the diff and allocate display strings only on demand.

use vstd::prelude::*;

use crate::address::CellAddress;
use crate::model::{
    spec_change_kind, spec_display, spec_severity_rank, CellChangeKind, CellDiff, Diagnostic,
    Severity, SheetChange, SheetDiff, WorkbookDiff,
};
use crate::output::text::spec_sheet_label;
use crate::strings::string_of;

verus! {

/// Which change categories are visible in a `DiffView`.
#[derive(Debug)]
pub struct ViewFilter {
    pub include_values: bool,
    pub include_formulas: bool,
    /// Formatting diffs (none are reported).
    pub include_formatting: bool,
    pub include_info_diagnostics: bool,
    /// If `Some`, only changes from the listed 0-based sheet positions.
    pub sheets: Option<Vec<usize>>,
}

impl Default for ViewFilter {
    fn default() -> (r: Self)
        ensures
            r.include_values,
            r.include_formulas,
            !r.include_formatting,
            !r.include_info_diagnostics,
            r.sheets is None,
    {
        ViewFilter {
            include_values: true,
            include_formulas: true,
            include_formatting: false,
            include_info_diagnostics: false,
            sheets: None,
        }
    }
}

/// A stable identifier of one change row; ordered as `(sheet_index, row, col)`.
#[derive(Clone, Copy, PartialEq, Eq, PartialOrd, Ord, Debug, Structural)]
pub struct ChangeAnchor {
    pub sheet_index: usize,
    pub row: u32,
    pub col: u32,
}

/// One visible cell change, borrowing from the diff.
pub struct CellChangeRow<'a> {
    pub anchor: ChangeAnchor,
    pub sheet_name: &'a str,
    pub address: &'a CellAddress,
    pub change_kind: CellChangeKind,
    /// The old value's display text (empty without a value change).
    pub old_display: String,
    /// The new value's display text (empty without a value change).
    pub new_display: String,
    pub formula_changed: bool,
    pub old_formula: Option<&'a str>,
    pub new_formula: Option<&'a str>,
    /// The highest severity among the cell's diagnostics.
    pub max_severity: Option<Severity>,
}

/// The owned counterpart of a `CellChangeRow`.
#[derive(Debug)]
pub struct OwnedCellChangeRow {
    pub anchor: ChangeAnchor,
    pub sheet_name: String,
    pub address: CellAddress,
    pub change_kind: CellChangeKind,
    pub old_display: String,
    pub new_display: String,
    pub formula_changed: bool,
    pub old_formula: Option<String>,
    pub new_formula: Option<String>,
    pub max_severity: Option<Severity>,
}

fn own(s: Option<&str>) -> (r: Option<String>)
    ensures
        match s {
            Some(t) => r matches Some(u) && u@ == t@,
            None => r is None,
        },
{
    match s {
        Some(t) => Some(string_of(t)),
        None => None,
    }
}

/// An optional text as plain characters.
pub open spec fn spec_opt_text(s: Option<&str>) -> Option<Seq<char>> {
    match s {
        Some(t) => Some(t@),
        None => None,
    }
}

/// An optional owned text as plain characters.
pub open spec fn spec_opt_string(s: Option<String>) -> Option<Seq<char>> {
    match s {
        Some(t) => Some(t@),
        None => None,
    }
}

impl<'a> CellChangeRow<'a> {
    /// The row with every borrowed field owned.
    pub fn to_owned_row(&self) -> (r: OwnedCellChangeRow)
        ensures
            r.anchor == self.anchor,
            r.sheet_name@ == self.sheet_name@,
            r.address == *self.address,
            r.change_kind == self.change_kind,
            r.old_display@ == self.old_display@,
            r.new_display@ == self.new_display@,
            r.formula_changed == self.formula_changed,
            spec_opt_string(r.old_formula) == spec_opt_text(self.old_formula),
            spec_opt_string(r.new_formula) == spec_opt_text(self.new_formula),
            r.max_severity == self.max_severity,
    {
        OwnedCellChangeRow {
            anchor: self.anchor,
            sheet_name: string_of(self.sheet_name),
            address: self.address.clone(),
            change_kind: self.change_kind,
            old_display: self.old_display.clone(),
            new_display: self.new_display.clone(),
            formula_changed: self.formula_changed,
            old_formula: own(self.old_formula),
            new_formula: own(self.new_formula),
            max_severity: self.max_severity,
        }
    }
}

/// One sheet in the sheet tree.
pub struct SheetSummaryRow<'a> {
    pub sheet_index: usize,
    pub name: &'a str,
    pub change: &'a SheetChange,
    pub cells_changed: usize,
    pub has_diagnostics: bool,
}

/// A borrowed view over a `WorkbookDiff` with filtered listing and navigation.
pub struct DiffView<'a> {
    pub workbook: &'a WorkbookDiff,
}

/// The highest severity among the diagnostics, if any.
pub open spec fn spec_max_severity(ds: Seq<Diagnostic>) -> Option<Severity>
    decreases ds.len(),
{
    if ds.len() == 0 {
        None
    } else {
        let s = ds.last().severity;
        match spec_max_severity(ds.drop_last()) {
            None => Some(s),
            Some(m) => if spec_severity_rank(s) > spec_severity_rank(m) {
                Some(s)
            } else {
                Some(m)
            },
        }
    }
}

/// The listed sheet positions of a filter, as plain values.
pub open spec fn spec_allowed_view(sheets: Option<Vec<usize>>) -> Option<Seq<usize>> {
    match sheets {
        None => None,
        Some(v) => Some(v@),
    }
}

/// The list admits sheet position `i` (no list admits every sheet).
pub open spec fn spec_sheet_allowed(allowed: Option<Seq<usize>>, i: int) -> bool {
    match allowed {
        None => true,
        Some(v) => v.contains(i as usize),
    }
}

/// The cell diff shows: a value change with values shown, or a formula
/// change with formulas shown.
pub open spec fn spec_cell_visible(cd: CellDiff, values: bool, formulas: bool) -> bool {
    (cd.value is Some && values) || (cd.formula is Some && formulas)
}

/// The shown cell diffs among the first `k` of a sheet, with the sheet's position.
pub open spec fn spec_visible_in_sheet(i: int, cds: Seq<CellDiff>, values: bool, formulas: bool, k: int) -> Seq<(int, CellDiff)>
    decreases k,
{
    if k <= 0 || k > cds.len() {
        Seq::empty()
    } else {
        let p = spec_visible_in_sheet(i, cds, values, formulas, k - 1);
        if spec_cell_visible(cds[k - 1], values, formulas) {
            p.push((i, cds[k - 1]))
        } else {
            p
        }
    }
}

/// The shown cell diffs of the first `k` sheets, in order, with their sheet's position.
pub open spec fn spec_visible(sheets: Seq<SheetDiff>, values: bool, formulas: bool, allowed: Option<Seq<usize>>, k: int) -> Seq<(int, CellDiff)>
    decreases k,
{
    if k <= 0 || k > sheets.len() {
        Seq::empty()
    } else {
        spec_visible(sheets, values, formulas, allowed, k - 1) + if spec_sheet_allowed(allowed, k - 1) {
            spec_visible_in_sheet(k - 1, sheets[k - 1].cell_diffs@, values, formulas, sheets[k - 1].cell_diffs@.len() as int)
        } else {
            Seq::empty()
        }
    }
}

/// All cell diffs the filter shows, in sheet order, then cell order.
pub open spec fn spec_visible_all(w: WorkbookDiff, f: ViewFilter) -> Seq<(int, CellDiff)> {
    spec_visible(w.sheets@, f.include_values, f.include_formulas, spec_allowed_view(f.sheets), w.sheets@.len() as int)
}

/// The position of the first anchor equal to `x`, at or after `from`.
pub open spec fn spec_find_anchor(a: Seq<ChangeAnchor>, x: ChangeAnchor, from: int) -> Option<int>
    decreases a.len() - from,
{
    if from < 0 || from >= a.len() {
        None
    } else if a[from] == x {
        Some(from)
    } else {
        spec_find_anchor(a, x, from + 1)
    }
}

/// The first anchor, if any.
pub open spec fn spec_first_anchor(a: Seq<ChangeAnchor>) -> Option<ChangeAnchor> {
    if a.len() > 0 {
        Some(a[0])
    } else {
        None
    }
}

/// The anchor right after the first occurrence of `x`, if any.
pub open spec fn spec_next_after(a: Seq<ChangeAnchor>, x: ChangeAnchor) -> Option<ChangeAnchor> {
    match spec_find_anchor(a, x, 0) {
        Some(i) => if i + 1 < a.len() {
            Some(a[i + 1])
        } else {
            None
        },
        None => None,
    }
}

/// The anchor right before the first occurrence of `x`, if any.
pub open spec fn spec_previous_before(a: Seq<ChangeAnchor>, x: ChangeAnchor) -> Option<ChangeAnchor> {
    match spec_find_anchor(a, x, 0) {
        Some(i) => if i > 0 {
            Some(a[i - 1])
        } else {
            None
        },
        None => None,
    }
}

/// The anchor of a visible cell diff.
pub open spec fn spec_anchor(e: (int, CellDiff)) -> ChangeAnchor {
    ChangeAnchor { sheet_index: e.0 as usize, row: e.1.address.row, col: e.1.address.col }
}

/// The anchors of the visible cell diffs.
pub open spec fn spec_anchors(w: WorkbookDiff, f: ViewFilter) -> Seq<ChangeAnchor> {
    spec_visible_all(w, f).map_values(|e: (int, CellDiff)| spec_anchor(e))
}

/// `row` presents cell diff `cd` of the sheet `sd` at position `i`.
pub open spec fn spec_row_of(row: CellChangeRow, i: int, sd: SheetDiff, cd: CellDiff) -> bool {
    &&& row.anchor == spec_anchor((i, cd))
    &&& row.sheet_name@ == spec_sheet_label(sd)
    &&& *row.address == cd.address
    &&& row.change_kind == spec_change_kind(cd)
    &&& row.old_display@ == match cd.value {
        Some(vc) => spec_display(vc.old),
        None => Seq::empty(),
    }
    &&& row.new_display@ == match cd.value {
        Some(vc) => spec_display(vc.new),
        None => Seq::empty(),
    }
    &&& row.formula_changed == cd.formula is Some
    &&& spec_opt_text(row.old_formula) == match cd.formula {
        Some(fc) => match fc.old {
            Some(t) => Some(t.raw@),
            None => None,
        },
        None => None,
    }
    &&& spec_opt_text(row.new_formula) == match cd.formula {
        Some(fc) => match fc.new {
            Some(t) => Some(t.raw@),
            None => None,
        },
        None => None,
    }
    &&& row.max_severity == spec_max_severity(cd.diagnostics@)
}

fn max_severity(ds: &Vec<Diagnostic>) -> (r: Option<Severity>)
    ensures
        r == spec_max_severity(ds@),
{
    let mut m: Option<Severity> = None;
    let mut k: usize = 0;
    while k < ds.len()
        invariant
            k <= ds@.len(),
            m == spec_max_severity(ds@.take(k as int)),
        decreases ds@.len() - k,
    {
        let s = ds[k].severity;
        proof {
            assert(ds@.take(k + 1).drop_last() =~= ds@.take(k as int));
        }
        m = match m {
            None => Some(s),
            Some(cur) => if s.rank() > cur.rank() {
                Some(s)
            } else {
                Some(cur)
            },
        };
        k += 1;
    }
    assert(ds@.take(ds@.len() as int) =~= ds@);
    m
}

fn label_of(sd: &SheetDiff) -> (r: &str)
    ensures
        r@ == spec_sheet_label(*sd),
{
    match &sd.new_sheet {
        Some(s) => s.name.as_str(),
        None => match &sd.old_sheet {
            Some(s) => s.name.as_str(),
            None => "?",
        },
    }
}

/// The row of a cell diff, if the filter shows it.
fn cell_to_row<'a>(cd: &'a CellDiff, sheet_index: usize, sheet: &'a SheetDiff, filter: &ViewFilter) -> (r: Option<CellChangeRow<'a>>)
    ensures
        spec_cell_visible(*cd, filter.include_values, filter.include_formulas) <==> r is Some,
        r matches Some(row) ==> spec_row_of(row, sheet_index as int, *sheet, *cd),
{
    let has_value = cd.value.is_some() && filter.include_values;
    let has_formula = cd.formula.is_some() && filter.include_formulas;
    if !has_value && !has_formula {
        return None;
    }
    proof {
        reveal_strlit("");
        assert(""@ =~= Seq::<char>::empty());
    }
    let old_display = match &cd.value {
        Some(vc) => vc.old.display_string(),
        None => string_of(""),
    };
    let new_display = match &cd.value {
        Some(vc) => vc.new.display_string(),
        None => string_of(""),
    };
    let (old_formula, new_formula): (Option<&'a str>, Option<&'a str>) = match &cd.formula {
        Some(fc) => (
            match &fc.old {
                Some(t) => Some(t.raw.as_str()),
                None => None,
            },
            match &fc.new {
                Some(t) => Some(t.raw.as_str()),
                None => None,
            },
        ),
        None => (None, None),
    };
    Some(CellChangeRow {
        anchor: ChangeAnchor { sheet_index, row: cd.address.row, col: cd.address.col },
        sheet_name: label_of(sheet),
        address: &cd.address,
        change_kind: cd.change_kind(),
        old_display,
        new_display,
        formula_changed: cd.formula.is_some(),
        old_formula,
        new_formula,
        max_severity: max_severity(&cd.diagnostics),
    })
}

fn sheet_allowed(filter: &ViewFilter, i: usize) -> (r: bool)
    ensures
        r == spec_sheet_allowed(spec_allowed_view(filter.sheets), i as int),
{
    match &filter.sheets {
        None => true,
        Some(v) => {
            let mut k: usize = 0;
            while k < v.len()
                invariant
                    k <= v@.len(),
                    spec_allowed_view(filter.sheets) == Some(v@),
                    forall|q: int| 0 <= q < k ==> v@[q] != i,
                decreases v@.len() - k,
            {
                if v[k] == i {
                    assert(v@[k as int] == i);
                    assert(v@.contains(i));
                    return true;
                }
                k += 1;
            }
            assert(!v@.contains(i));
            false
        },
    }
}

impl<'a> DiffView<'a> {
    /// A view over `workbook`.
    pub fn new(workbook: &'a WorkbookDiff) -> (r: Self)
        ensures
            *r.workbook == *workbook,
    {
        DiffView { workbook }
    }

    /// The sheet-tree rows, in workbook display order.
    pub fn sheets(&self) -> (r: Vec<SheetSummaryRow<'a>>)
        ensures
            r@.len() == self.workbook.sheets@.len(),
            forall|i: int| 0 <= i < r@.len() ==> {
                let sd = #[trigger] self.workbook.sheets@[i];
                &&& r@[i].sheet_index == i
                &&& r@[i].name@ == spec_sheet_label(sd)
                &&& *r@[i].change == sd.change
                &&& r@[i].cells_changed == sd.summary.cells_changed
                &&& r@[i].has_diagnostics == (sd.diagnostics@.len() > 0)
            },
    {
        let wb: &'a WorkbookDiff = self.workbook;
        let mut out: Vec<SheetSummaryRow<'a>> = Vec::new();
        let mut i: usize = 0;
        while i < wb.sheets.len()
            invariant
                i <= wb.sheets@.len(),
                wb == self.workbook,
                out@.len() == i,
                forall|q: int| 0 <= q < i ==> {
                    let sd = #[trigger] wb.sheets@[q];
                    &&& out@[q].sheet_index == q
                    &&& out@[q].name@ == spec_sheet_label(sd)
                    &&& *out@[q].change == sd.change
                    &&& out@[q].cells_changed == sd.summary.cells_changed
                    &&& out@[q].has_diagnostics == (sd.diagnostics@.len() > 0)
                },
            decreases wb.sheets@.len() - i,
        {
            let sd: &'a SheetDiff = &wb.sheets[i];
            out.push(SheetSummaryRow {
                sheet_index: i,
                name: label_of(sd),
                change: &sd.change,
                cells_changed: sd.summary.cells_changed,
                has_diagnostics: sd.diagnostics.len() > 0,
            });
            i += 1;
        }
        out
    }

    /// All visible cell-change rows, in sheet order, then cell order.
    pub fn rows(&self, filter: &ViewFilter) -> (r: Vec<CellChangeRow<'a>>)
        ensures
            r@.len() == spec_visible_all(*self.workbook, *filter).len(),
            forall|k: int| 0 <= k < r@.len() ==> {
                let e = #[trigger] spec_visible_all(*self.workbook, *filter)[k];
                spec_row_of(r@[k], e.0, self.workbook.sheets@[e.0], e.1)
            },
    {
        let wb: &'a WorkbookDiff = self.workbook;
        let mut out: Vec<CellChangeRow<'a>> = Vec::new();
        let mut i: usize = 0;
        while i < wb.sheets.len()
            invariant
                i <= wb.sheets@.len(),
                wb == self.workbook,
                out@.len() == spec_visible(wb.sheets@, filter.include_values, filter.include_formulas, spec_allowed_view(filter.sheets), i as int).len(),
                forall|k: int| 0 <= k < out@.len() ==> {
                    let e = #[trigger] spec_visible(wb.sheets@, filter.include_values, filter.include_formulas, spec_allowed_view(filter.sheets), i as int)[k];
                    &&& 0 <= e.0 < i
                    &&& spec_row_of(out@[k], e.0, wb.sheets@[e.0], e.1)
                },
            decreases wb.sheets@.len() - i,
        {
            let sd: &'a SheetDiff = &wb.sheets[i];
            let ghost before = out@;
            let ghost vis = spec_visible(wb.sheets@, filter.include_values, filter.include_formulas, spec_allowed_view(filter.sheets), i as int);
            if sheet_allowed(filter, i) {
                let mut k: usize = 0;
                while k < sd.cell_diffs.len()
                    invariant
                        k <= sd.cell_diffs@.len(),
                        i < wb.sheets@.len(),
                        *sd == wb.sheets@[i as int],
                        before.len() == vis.len(),
                        out@.len() == before.len() + spec_visible_in_sheet(i as int, sd.cell_diffs@, filter.include_values, filter.include_formulas, k as int).len(),
                        out@.take(before.len() as int) == before,
                        forall|q: int| 0 <= q < spec_visible_in_sheet(i as int, sd.cell_diffs@, filter.include_values, filter.include_formulas, k as int).len() ==> {
                            let e = #[trigger] spec_visible_in_sheet(i as int, sd.cell_diffs@, filter.include_values, filter.include_formulas, k as int)[q];
                            &&& e.0 == i
                            &&& spec_row_of(out@[before.len() + q], e.0, wb.sheets@[e.0], e.1)
                        },
                    decreases sd.cell_diffs@.len() - k,
                {
                    let ghost prev = out@;
                    let cd: &'a CellDiff = &sd.cell_diffs[k];
                    if let Some(row) = cell_to_row(cd, i, sd, filter) {
                        out.push(row);
                    }
                    proof {
                        let s1 = spec_visible_in_sheet(i as int, sd.cell_diffs@, filter.include_values, filter.include_formulas, k + 1);
                        let s0 = spec_visible_in_sheet(i as int, sd.cell_diffs@, filter.include_values, filter.include_formulas, k as int);
                        assert forall|q: int| 0 <= q < s1.len() implies ({
                            let e = #[trigger] s1[q];
                            &&& e.0 == i
                            &&& spec_row_of(out@[before.len() + q], e.0, wb.sheets@[e.0], e.1)
                        }) by {
                            if q < s0.len() {
                                assert(s1[q] == s0[q]);
                                assert(out@[before.len() + q] == prev[before.len() + q]);
                            }
                        }
                        assert(out@.take(before.len() as int) =~= before);
                    }
                    k += 1;
                }
                proof {
                    let inner = spec_visible_in_sheet(i as int, sd.cell_diffs@, filter.include_values, filter.include_formulas, sd.cell_diffs@.len() as int);
                    let v1 = spec_visible(wb.sheets@, filter.include_values, filter.include_formulas, spec_allowed_view(filter.sheets), i + 1);
                    assert(v1 == vis + inner);
                    assert forall|k: int| 0 <= k < out@.len() implies ({
                        let e = #[trigger] v1[k];
                        &&& 0 <= e.0 < i + 1
                        &&& spec_row_of(out@[k], e.0, wb.sheets@[e.0], e.1)
                    }) by {
                        if k < before.len() {
                            assert(v1[k] == vis[k]);
                            assert(out@[k] == before[k]);
                        } else {
                            assert(v1[k] == inner[k - before.len()]);
                        }
                    }
                }
            } else {
                proof {
                    assert(spec_visible(wb.sheets@, filter.include_values, filter.include_formulas, spec_allowed_view(filter.sheets), i + 1) =~= vis);
                }
            }
            i += 1;
        }
        out
    }

    /// The number of visible change rows.
    pub fn row_count(&self, filter: &ViewFilter) -> (r: usize)
        ensures
            r == spec_visible_all(*self.workbook, *filter).len(),
    {
        self.rows(filter).len()
    }

    /// The first visible change's anchor, if any.
    pub fn first(&self, filter: &ViewFilter) -> (r: Option<ChangeAnchor>)
        ensures
            r == spec_first_anchor(spec_anchors(*self.workbook, *filter)),
    {
        let rows = self.rows(filter);
        if rows.len() > 0 {
            Some(rows[0].anchor)
        } else {
            None
        }
    }

    /// The anchor right after `current`, if `current` is shown and not last.
    pub fn next_after(&self, current: &ChangeAnchor, filter: &ViewFilter) -> (r: Option<ChangeAnchor>)
        ensures
            r == spec_next_after(spec_anchors(*self.workbook, *filter), *current),
    {
        let rows = self.rows(filter);
        let ghost a = spec_anchors(*self.workbook, *filter);
        let mut k: usize = 0;
        while k < rows.len()
            invariant
                k <= rows@.len(),
                rows@.len() == a.len(),
                a == spec_anchors(*self.workbook, *filter),
                forall|q: int| 0 <= q < rows@.len() ==> #[trigger] rows@[q].anchor == a[q],
                spec_find_anchor(a, *current, 0) == spec_find_anchor(a, *current, k as int),
            decreases rows@.len() - k,
        {
            if rows[k].anchor == *current {
                if k + 1 < rows.len() {
                    return Some(rows[k + 1].anchor);
                }
                return None;
            }
            k += 1;
        }
        None
    }

    /// The anchor right before `current`, if `current` is shown and not first.
    pub fn previous_before(&self, current: &ChangeAnchor, filter: &ViewFilter) -> (r: Option<ChangeAnchor>)
        ensures
            r == spec_previous_before(spec_anchors(*self.workbook, *filter), *current),
    {
        let rows = self.rows(filter);
        let ghost a = spec_anchors(*self.workbook, *filter);
        let mut prev: Option<ChangeAnchor> = None;
        let mut k: usize = 0;
        while k < rows.len()
            invariant
                k <= rows@.len(),
                rows@.len() == a.len(),
                a == spec_anchors(*self.workbook, *filter),
                forall|q: int| 0 <= q < rows@.len() ==> #[trigger] rows@[q].anchor == a[q],
                spec_find_anchor(a, *current, 0) == spec_find_anchor(a, *current, k as int),
                prev == if k == 0 { None } else { Some(a[k - 1]) },
            decreases rows@.len() - k,
        {
            if rows[k].anchor == *current {
                return prev;
            }
            prev = Some(rows[k].anchor);
            k += 1;
        }
        None
    }

    /// The visible change rows of one sheet (by 0-based position).
    pub fn sheet_rows(&self, sheet_index: usize, filter: &ViewFilter) -> (r: Vec<CellChangeRow<'a>>)
        ensures
            ({
                let vis = spec_visible(
                    self.workbook.sheets@,
                    filter.include_values,
                    filter.include_formulas,
                    Some(seq![sheet_index]),
                    self.workbook.sheets@.len() as int,
                );
                &&& r@.len() == vis.len()
                &&& forall|k: int| 0 <= k < r@.len() ==> {
                    let e = #[trigger] vis[k];
                    spec_row_of(r@[k], e.0, self.workbook.sheets@[e.0], e.1)
                }
            }),
    {
        let mut only: Vec<usize> = Vec::new();
        only.push(sheet_index);
        let f = ViewFilter {
            include_values: filter.include_values,
            include_formulas: filter.include_formulas,
            include_formatting: filter.include_formatting,
            include_info_diagnostics: filter.include_info_diagnostics,
            sheets: Some(only),
        };
        proof {
            assert(only@ =~= seq![sheet_index]);
        }
        self.rows(&f)
    }
}

/// No anchor occurs twice.
pub open spec fn spec_anchors_distinct(a: Seq<ChangeAnchor>) -> bool {
    forall|i: int, j: int| 0 <= i < j < a.len() ==> a[i] != a[j]
}

proof fn lemma_find_anchor(a: Seq<ChangeAnchor>, x: ChangeAnchor, from: int, j: int)
    requires
        0 <= from <= j < a.len(),
        a[j] == x,
        forall|q: int| from <= q < j ==> a[q] != x,
    ensures
        spec_find_anchor(a, x, from) == Some(j),
    decreases j - from,
{
    if from < j {
        lemma_find_anchor(a, x, from + 1, j);
    }
}

proof fn lemma_find_anchor_found(a: Seq<ChangeAnchor>, x: ChangeAnchor, from: int)
    requires
        0 <= from,
    ensures
        spec_find_anchor(a, x, from) matches Some(j) ==> from <= j < a.len() && a[j] == x,
    decreases a.len() - from,
{
    if from < a.len() && a[from] != x {
        lemma_find_anchor_found(a, x, from + 1);
    }
}

/// Navigation undoes itself: over distinct anchors, stepping forward from an
/// anchor and then back returns to it, and stepping back then forward too.
pub proof fn lemma_navigation_roundtrip(a: Seq<ChangeAnchor>, x: ChangeAnchor)
    requires
        spec_anchors_distinct(a),
    ensures
        spec_next_after(a, x) matches Some(y) ==> spec_previous_before(a, y) == Some(x),
        spec_previous_before(a, x) matches Some(w) ==> spec_next_after(a, w) == Some(x),
{
    lemma_find_anchor_found(a, x, 0);
    match spec_find_anchor(a, x, 0) {
        Some(i) => {
            if i + 1 < a.len() {
                lemma_find_anchor(a, a[i + 1], 0, i + 1);
            }
            if i > 0 {
                lemma_find_anchor(a, a[i - 1], 0, i - 1);
            }
        },
        None => {},
    }
}

/// The first anchor has nothing before it.
pub proof fn lemma_first_has_no_previous(a: Seq<ChangeAnchor>)
    requires
        a.len() > 0,
    ensures
        spec_previous_before(a, a[0]) is None,
{
    lemma_find_anchor(a, a[0], 0, 0);
}

} // verus!