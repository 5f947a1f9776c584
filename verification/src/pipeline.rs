//! The whole comparison: pairing the sheets, reporting what is not compared,
//! diffing every sheet pair, and summing up.

use vstd::prelude::*;

use crate::align::{
    compute_row_mapping, spec_signature_mapping, spec_bound_exceeded, spec_is_bound_diag, spec_lcs_mapping, spec_opt_cols,
    spec_row_key_diagnostics, spec_row_key_mapping, spec_saturating_product, spec_signed_rows,
    RowMapping,
};
use crate::compare::{oracle_deterministic, oracle_total, FloatQuestion};
use crate::diff::{
    spec_changed_points,
    build_sheet_diff, check_cancel, lemma_aligned_diffs_ordered, lemma_positional_diffs_ordered,
    read_sheet_cells, spec_diffs_in_order, spec_end, spec_noted, spec_notes_appended,
    spec_retained, spec_sat_add, spec_sheet_diff_of, spec_sheet_points, spec_start, SheetCells,
};
use crate::cells::{spec_rows, CellEntry};
use crate::error::{spec_classify_read, LimitKind, SheetsDiffError, XlsxErrorClass};
use crate::matcher::{
    lemma_pairs_from,
    match_sheets, spec_ambiguous, spec_is_ambiguity_diagnostic, spec_match_sheets, spec_unmatched_new,
    spec_unmatched_old, MatchedPair,
};
use crate::meta::{compare_workbook_metadata, spec_metadata_diags};
use crate::model::{
    spec_counts_fit, spec_severity_rank, spec_summary_matches, Diagnostic, DiffMetrics, Severity,
    SheetDiff, SheetRef, Side, WorkbookDiff, WorkbookSideInfo,
};
use crate::objects::{report_object_coverage, spec_coverage_diags};
use crate::open::{spec_workbook_ok, OpenedWorkbook, SheetContent};
use crate::options::{AlignmentMode, Cancellation, DiffEvent, DiffOptions};
use crate::strings::string_of;

verus! {

/// The retained cells of a pair's sheet on one side (none without a sheet).
pub open spec fn spec_side_kept(wb: OpenedWorkbook, s: Option<SheetRef>) -> Seq<CellEntry> {
    match s {
        Some(sh) => match wb.contents@[sh.index as int] {
            SheetContent::Cells(sc) => spec_retained(sc.cells@),
            _ => Seq::empty(),
        },
        None => Seq::empty(),
    }
}

/// Whether a pair's sheet on one side has formula text (no sheet has none).
pub open spec fn spec_side_has_formulas(wb: OpenedWorkbook, s: Option<SheetRef>) -> bool {
    match s {
        Some(sh) => match wb.contents@[sh.index as int] {
            SheetContent::Cells(sc) => sc.has_formulas,
            _ => false,
        },
        None => false,
    }
}

/// The notes reading one side of a pair appends: those of its sheet's
/// retained cells, none without a sheet.
pub open spec fn spec_side_notes(
    before: Seq<Diagnostic>,
    after: Seq<Diagnostic>,
    s: Option<SheetRef>,
    kept: Seq<CellEntry>,
    has_formulas: bool,
    include_cached: bool,
) -> bool {
    match s {
        Some(sh) => spec_notes_appended(before, after, sh, spec_noted(kept, has_formulas, include_cached)),
        None => after == before,
    }
}

/// The warnings aligning the rows appends: none positionally or by row
/// signature; the bound warning when the row product exceeds the bound;
/// otherwise those of row-key alignment.
pub open spec fn spec_align_diags(
    before: Seq<Diagnostic>,
    after: Seq<Diagnostic>,
    oc: Seq<CellEntry>,
    nc: Seq<CellEntry>,
    mode: AlignmentMode,
    max_product: Option<u64>,
    sheet: SheetRef,
) -> bool {
    if mode is Positional {
        after == before
    } else if spec_bound_exceeded(oc, nc, max_product) {
        let a = spec_rows(oc).len();
        let b = spec_rows(nc).len();
        &&& after.len() == before.len() + 1
        &&& after.drop_last() == before
        &&& spec_is_bound_diag(after.last(), sheet, a, b, spec_saturating_product(a, b), max_product.unwrap() as nat)
    } else {
        match mode {
            AlignmentMode::RowKey { columns } => spec_row_key_diagnostics(before, after, oc, nc, columns@, sheet),
            _ => after == before,
        }
    }
}

/// The sheet a pair's diagnostics name: its new sheet, else its old one.
pub open spec fn spec_pair_sheet(pair: MatchedPair) -> SheetRef {
    match pair.new_sheet {
        Some(s) => s,
        None => pair.old_sheet.unwrap(),
    }
}

/// The diagnostics diffing a pair raises: the notes of reading its old side,
/// then those of its new side, then the warnings of aligning the rows.
#[verifier::opaque]
pub open spec fn spec_pair_diags(
    ds: Seq<Diagnostic>,
    pair: MatchedPair,
    ow: OpenedWorkbook,
    nw: OpenedWorkbook,
    opts: DiffOptions,
) -> bool {
    let oc = spec_side_kept(ow, pair.old_sheet);
    let nc = spec_side_kept(nw, pair.new_sheet);
    let with_cached = opts.comparison.include_formula_cached_values;
    exists|d1: Seq<Diagnostic>, d2: Seq<Diagnostic>|
        spec_side_notes(Seq::empty(), d1, pair.old_sheet, oc, spec_side_has_formulas(ow, pair.old_sheet), with_cached)
        && #[trigger] spec_side_notes(d1, d2, pair.new_sheet, nc, spec_side_has_formulas(nw, pair.new_sheet), with_cached)
        && spec_align_diags(d2, ds, oc, nc, opts.matching.alignment, opts.limits.max_alignment_product, spec_pair_sheet(pair))
}

/// The sheet is one of the workbook's.
pub open spec fn spec_sheet_in(wb: OpenedWorkbook, s: Option<SheetRef>) -> bool {
    s matches Some(sh) ==> sh.index < wb.contents@.len()
}

/// `m` is the row mapping the alignment mode gives for the two cell maps.
pub open spec fn spec_mapping_fits(mode: AlignmentMode, max_product: Option<u64>, oc: Seq<CellEntry>, nc: Seq<CellEntry>, m: Option<RowMapping>) -> bool {
    match mode {
        AlignmentMode::Positional => m is None,
        AlignmentMode::RowKey { columns } => if spec_bound_exceeded(oc, nc, max_product) {
            m is None
        } else {
            m matches Some(mm) && spec_row_key_mapping(oc, nc, columns@, mm)
        },
        AlignmentMode::RowSignature { sample_columns } => if spec_bound_exceeded(oc, nc, max_product) {
            m is None
        } else {
            m matches Some(mm) && spec_signature_mapping(oc, nc, spec_opt_cols(sample_columns), mm)
        },
    }
}

/// The cancellation predicate of the options, if any.
fn cancellation_of(opts: &DiffOptions) -> (r: Option<&dyn Cancellation>)
    ensures
        r is Some <==> opts.execution.cancellation is Some,
{
    match &opts.execution.cancellation {
        Some(b) => Some(&**b),
        None => None,
    }
}

/// Every mapping the alignment mode gives for two cell maps compares the same
/// points.
proof fn lemma_fitting_mappings_agree(
    mode: AlignmentMode,
    max_product: Option<u64>,
    oc: Seq<CellEntry>,
    nc: Seq<CellEntry>,
    m1: Option<RowMapping>,
    m2: Option<RowMapping>,
)
    requires
        spec_mapping_fits(mode, max_product, oc, nc, m1),
        spec_mapping_fits(mode, max_product, oc, nc, m2),
    ensures
        spec_sheet_points(oc, nc, m1) == spec_sheet_points(oc, nc, m2),
{
}

/// The number of points comparing a pair compares.
pub open spec fn spec_compared_count(pair: MatchedPair, ow: OpenedWorkbook, nw: OpenedWorkbook, opts: DiffOptions) -> int {
    let oc = spec_side_kept(ow, pair.old_sheet);
    let nc = spec_side_kept(nw, pair.new_sheet);
    spec_sheet_points(
        oc,
        nc,
        choose|m: Option<RowMapping>| spec_mapping_fits(opts.matching.alignment, opts.limits.max_alignment_product, oc, nc, m),
    ).len() as int
}

/// The class of the reader's error for a pair's sheet on one side that could
/// not be read; `None` for a readable sheet or no sheet.
pub open spec fn spec_side_read_class(wb: OpenedWorkbook, s: Option<SheetRef>) -> Option<XlsxErrorClass> {
    match s {
        Some(sh) => match wb.contents@[sh.index as int] {
            SheetContent::Unreadable { class, .. } => Some(class),
            _ => None,
        },
        None => None,
    }
}

/// A running total of cells read exceeds `max_cells_read`.
pub open spec fn spec_read_over(opts: DiffOptions, total: int) -> bool {
    opts.limits.max_cells_read matches Some(m) && total > m
}

/// `e` is the error of a side whose sheet could not be read.
pub open spec fn spec_is_read_error(e: SheetsDiffError, side: Side, sheet: Option<SheetRef>, class: XlsxErrorClass) -> bool {
    &&& e matches SheetsDiffError::ReadSheet { side: s, sheet: sh, kind, .. }
    &&& e->ReadSheet_side == side
    &&& Some(e->ReadSheet_sheet) == sheet
    &&& e->ReadSheet_kind == spec_classify_read(class)
}

/// The number of cell diffs comparing a pair finds.
pub open spec fn spec_changed_count<F: Fn(FloatQuestion) -> bool>(
    pair: MatchedPair,
    ow: OpenedWorkbook,
    nw: OpenedWorkbook,
    opts: DiffOptions,
    f: F,
) -> int {
    let oc = spec_side_kept(ow, pair.old_sheet);
    let nc = spec_side_kept(nw, pair.new_sheet);
    spec_changed_points(
        f,
        spec_sheet_points(
            oc,
            nc,
            choose|m: Option<RowMapping>| spec_mapping_fits(opts.matching.alignment, opts.limits.max_alignment_product, oc, nc, m),
        ),
        opts.comparison,
    ).len() as int
}

/// The pair has a sheet, and its sheets are the workbooks'.
pub open spec fn spec_pair_valid(pair: MatchedPair, ow: OpenedWorkbook, nw: OpenedWorkbook) -> bool {
    &&& pair.old_sheet is Some || pair.new_sheet is Some
    &&& spec_sheet_in(ow, pair.old_sheet)
    &&& spec_sheet_in(nw, pair.new_sheet)
}

/// Diffing the pair fails at one of its steps, given the totals of cells
/// read, points compared and cell diffs found before it: a side's sheet cannot
/// be read, reading a side exceeds `max_cells_read`, comparing exceeds
/// `max_cells_compared`, or the diffs found exceed `max_diffs_returned`.
pub open spec fn spec_pair_fails<F: Fn(FloatQuestion) -> bool>(
    pair: MatchedPair,
    ow: OpenedWorkbook,
    nw: OpenedWorkbook,
    opts: DiffOptions,
    f: F,
    tr: int,
    tc: int,
    td: int,
) -> bool {
    let tr1 = spec_sat_add(tr, spec_side_kept(ow, pair.old_sheet).len() as int);
    let tr2 = spec_sat_add(tr1, spec_side_kept(nw, pair.new_sheet).len() as int);
    let tc1 = spec_sat_add(tc, spec_compared_count(pair, ow, nw, opts));
    ||| spec_side_read_class(ow, pair.old_sheet) is Some
    ||| spec_read_over(opts, tr1)
    ||| spec_side_read_class(nw, pair.new_sheet) is Some
    ||| spec_read_over(opts, tr2)
    ||| (opts.limits.max_cells_compared matches Some(mc) && tc1 > mc)
    ||| (opts.limits.max_diffs_returned matches Some(md) && td + spec_changed_count(pair, ow, nw, opts, f) > md)
}

/// `e` is the error of the first step at which diffing the pair fails (see
/// `spec_pair_fails`), in the order the steps are taken.
pub open spec fn spec_pair_error<F: Fn(FloatQuestion) -> bool>(
    e: SheetsDiffError,
    pair: MatchedPair,
    ow: OpenedWorkbook,
    nw: OpenedWorkbook,
    opts: DiffOptions,
    f: F,
    tr: int,
    tc: int,
    td: int,
) -> bool {
    let tr1 = spec_sat_add(tr, spec_side_kept(ow, pair.old_sheet).len() as int);
    let tr2 = spec_sat_add(tr1, spec_side_kept(nw, pair.new_sheet).len() as int);
    let tc1 = spec_sat_add(tc, spec_compared_count(pair, ow, nw, opts));
    let read_limit = SheetsDiffError::LimitExceeded {
        limit: LimitKind::CellsRead,
        observed: (opts.limits.max_cells_read.unwrap() + 1) as u64,
    };
    if spec_side_read_class(ow, pair.old_sheet) is Some {
        spec_is_read_error(e, Side::Old, pair.old_sheet, spec_side_read_class(ow, pair.old_sheet).unwrap())
    } else if spec_read_over(opts, tr1) {
        e == read_limit
    } else if spec_side_read_class(nw, pair.new_sheet) is Some {
        spec_is_read_error(e, Side::New, pair.new_sheet, spec_side_read_class(nw, pair.new_sheet).unwrap())
    } else if spec_read_over(opts, tr2) {
        e == read_limit
    } else if opts.limits.max_cells_compared matches Some(mc) && tc1 > mc {
        e == (SheetsDiffError::LimitExceeded { limit: LimitKind::CellsCompared, observed: tc1 as u64 })
    } else {
        e == (SheetsDiffError::LimitExceeded {
            limit: LimitKind::DiffsReturned,
            observed: spec_sat_add(opts.limits.max_diffs_returned.unwrap() as int, 1) as u64,
        })
    }
}

/// The workbook with one sheet's content replaced keeps its shape.
pub open spec fn spec_same_shape(a: OpenedWorkbook, b: OpenedWorkbook) -> bool {
    &&& a.source == b.source
    &&& a.sheets == b.sheets
    &&& a.metas == b.metas
    &&& a.defined_names == b.defined_names
    &&& a.contents@.len() == b.contents@.len()
    &&& forall|k: int| 0 <= k < a.contents@.len() ==> (#[trigger] a.contents@[k] matches SheetContent::Cells(_) ==> b.contents@[k] == a.contents@[k])
    &&& forall|k: int| 0 <= k < a.contents@.len() ==> (#[trigger] a.contents@[k] matches SheetContent::Unreadable { class, .. } ==> b.contents@[k] matches SheetContent::Unreadable { class: c, .. } && c == class)
}

/// Keeping the shape is transitive.
proof fn lemma_same_shape_trans(a: OpenedWorkbook, b: OpenedWorkbook, c: OpenedWorkbook)
    requires
        spec_same_shape(a, b),
        spec_same_shape(b, c),
    ensures
        spec_same_shape(a, c),
{
    assert forall|k: int| 0 <= k < a.contents@.len() implies (#[trigger] a.contents@[k] matches SheetContent::Unreadable { class, .. } ==> c.contents@[k] matches SheetContent::Unreadable { class: cc, .. } && cc == class) by {
        if a.contents@[k] is Unreadable {
            assert(b.contents@[k] is Unreadable);
        }
    }
    assert forall|k: int| 0 <= k < a.contents@.len() implies (#[trigger] a.contents@[k] matches SheetContent::Cells(_) ==> c.contents@[k] == a.contents@[k]) by {
        if a.contents@[k] is Cells {
            assert(b.contents@[k] == a.contents@[k]);
        }
    }
}

/// A workbook of the same shape holds the same retained cells for a sheet of it.
proof fn lemma_side_kept_same(a: OpenedWorkbook, b: OpenedWorkbook, s: Option<SheetRef>)
    requires
        spec_same_shape(a, b),
        spec_sheet_in(a, s),
    ensures
        spec_side_kept(a, s) == spec_side_kept(b, s),
        spec_side_has_formulas(a, s) == spec_side_has_formulas(b, s),
        spec_side_read_class(a, s) == spec_side_read_class(b, s),
        spec_sheet_in(b, s),
{
    if let Some(sh) = s {
        let k = sh.index as int;
        if a.contents@[k] is Unreadable {
            assert(b.contents@[k] is Unreadable);
        }
    }
}

/// `sd` is the diff of the sheet pair in the two workbooks under the options:
/// built from the pair's retained cells and the row mapping the alignment mode
/// gives for them.
#[verifier::opaque]
pub open spec fn spec_pair_diff<F: Fn(FloatQuestion) -> bool>(
    sd: SheetDiff,
    pair: MatchedPair,
    ow: OpenedWorkbook,
    nw: OpenedWorkbook,
    opts: DiffOptions,
    f: F,
) -> bool {
    let oc = spec_side_kept(ow, pair.old_sheet);
    let nc = spec_side_kept(nw, pair.new_sheet);
    exists|m: Option<RowMapping>|
        #[trigger] spec_mapping_fits(opts.matching.alignment, opts.limits.max_alignment_product, oc, nc, m)
        && spec_sheet_diff_of(
        sd,
        pair,
        (spec_start(oc), spec_end(oc), spec_start(nc), spec_end(nc)),
        m,
        sd.diagnostics@,
        spec_sheet_points(oc, nc, m),
        f,
        opts.comparison,
    )
}

/// The sheet diffs are the same but for their diagnostics.
pub open spec fn spec_same_but_diagnostics(a: SheetDiff, b: SheetDiff) -> bool {
    &&& a.old_sheet == b.old_sheet
    &&& a.new_sheet == b.new_sheet
    &&& a.change == b.change
    &&& a.cell_diffs == b.cell_diffs
    &&& a.compared_range == b.compared_range
    &&& a.alignment_summary == b.alignment_summary
    &&& a.summary == b.summary
}

proof fn lemma_pair_diff_transfer<F: Fn(FloatQuestion) -> bool>(
    sd: SheetDiff,
    sd2: SheetDiff,
    pair: MatchedPair,
    ow: OpenedWorkbook,
    nw: OpenedWorkbook,
    ow2: OpenedWorkbook,
    nw2: OpenedWorkbook,
    o1: DiffOptions,
    o2: DiffOptions,
    f: F,
)
    requires
        spec_pair_diff(sd, pair, ow, nw, o1, f),
        spec_side_kept(ow, pair.old_sheet) == spec_side_kept(ow2, pair.old_sheet),
        spec_side_kept(nw, pair.new_sheet) == spec_side_kept(nw2, pair.new_sheet),
        o1.matching == o2.matching,
        o1.limits == o2.limits,
        o1.comparison == o2.comparison,
        spec_same_but_diagnostics(sd, sd2),
    ensures
        spec_pair_diff(sd2, pair, ow2, nw2, o2, f),
{
    reveal(spec_pair_diff);
    let oc = spec_side_kept(ow, pair.old_sheet);
    let nc = spec_side_kept(nw, pair.new_sheet);
    let m = choose|m: Option<RowMapping>|
        #[trigger] spec_mapping_fits(o1.matching.alignment, o1.limits.max_alignment_product, oc, nc, m)
        && spec_sheet_diff_of(
        sd,
        pair,
        (spec_start(oc), spec_end(oc), spec_start(nc), spec_end(nc)),
        m,
        sd.diagnostics@,
        spec_sheet_points(oc, nc, m),
        f,
        o1.comparison,
    );
    assert(spec_mapping_fits(o2.matching.alignment, o2.limits.max_alignment_product, oc, nc, m));
}

/// The sheet diff's diagnostics are those diffing the pair raises, less
/// those below the minimum severity.
pub open spec fn spec_pair_diags_kept(sd: SheetDiff, pair: MatchedPair, ow: OpenedWorkbook, nw: OpenedWorkbook, opts: DiffOptions) -> bool {
    exists|ds: Seq<Diagnostic>|
        #[trigger] spec_pair_diags(ds, pair, ow, nw, opts) && sd.diagnostics@ == spec_keep(ds, opts.diagnostics.min_severity)
}

proof fn lemma_pair_diags_transfer(
    ds: Seq<Diagnostic>,
    pair: MatchedPair,
    ow: OpenedWorkbook,
    nw: OpenedWorkbook,
    ow2: OpenedWorkbook,
    nw2: OpenedWorkbook,
    o1: DiffOptions,
    o2: DiffOptions,
)
    requires
        spec_pair_diags(ds, pair, ow, nw, o1),
        spec_side_kept(ow, pair.old_sheet) == spec_side_kept(ow2, pair.old_sheet),
        spec_side_kept(nw, pair.new_sheet) == spec_side_kept(nw2, pair.new_sheet),
        spec_side_has_formulas(ow, pair.old_sheet) == spec_side_has_formulas(ow2, pair.old_sheet),
        spec_side_has_formulas(nw, pair.new_sheet) == spec_side_has_formulas(nw2, pair.new_sheet),
        o1.matching == o2.matching,
        o1.limits == o2.limits,
        o1.comparison == o2.comparison,
    ensures
        spec_pair_diags(ds, pair, ow2, nw2, o2),
{
    reveal(spec_pair_diags);
    let oc = spec_side_kept(ow, pair.old_sheet);
    let nc = spec_side_kept(nw, pair.new_sheet);
    let with_cached = o1.comparison.include_formula_cached_values;
    let (d1, d2) = choose|d1: Seq<Diagnostic>, d2: Seq<Diagnostic>|
        spec_side_notes(Seq::empty(), d1, pair.old_sheet, oc, spec_side_has_formulas(ow, pair.old_sheet), with_cached)
        && #[trigger] spec_side_notes(d1, d2, pair.new_sheet, nc, spec_side_has_formulas(nw, pair.new_sheet), with_cached)
        && spec_align_diags(d2, ds, oc, nc, o1.matching.alignment, o1.limits.max_alignment_product, spec_pair_sheet(pair));
    assert(spec_side_notes(d1, d2, pair.new_sheet, nc, spec_side_has_formulas(nw2, pair.new_sheet), o2.comparison.include_formula_cached_values));
}

/// The warning pairing the sheets appends: the ambiguity warning when the
/// conservative mode leaves sheets unpaired, none otherwise.
pub open spec fn spec_match_diags(
    before: Seq<Diagnostic>,
    after: Seq<Diagnostic>,
    olds: Seq<SheetRef>,
    news: Seq<SheetRef>,
    mode: crate::options::SheetMatchingMode,
) -> bool {
    let uo = spec_unmatched_old(olds, news);
    let un = spec_unmatched_new(olds, news);
    if mode is ExactNameThenConservativeRename && spec_ambiguous(uo, un) {
        &&& after.len() == before.len() + 1
        &&& after.drop_last() == before
        &&& spec_is_ambiguity_diagnostic(after.last(), uo, un)
    } else {
        after == before
    }
}

/// The workbook-level diagnostics a comparison raises: the pairing warning,
/// then the object coverage diagnostics, then the metadata diagnostics.
pub open spec fn spec_workbook_diags(ds: Seq<Diagnostic>, ow: OpenedWorkbook, nw: OpenedWorkbook, opts: DiffOptions) -> bool {
    exists|d1: Seq<Diagnostic>, d2: Seq<Diagnostic>|
        spec_match_diags(Seq::empty(), d1, ow.sheets@, nw.sheets@, opts.matching.sheet_matching)
        && #[trigger] spec_coverage_diags(d1, d2, ow.metas@, nw.metas@, opts.output.objects)
        && spec_metadata_diags(d2, ds, ow.defined_names@, nw.defined_names@, ow.metas@, nw.metas@)
}

/// The populated cells of both sides of the pairs, summed in pairing order,
/// old side first, as the comparison reads them (saturating).
pub open spec fn spec_cells_read(pairs: Seq<MatchedPair>, ow: OpenedWorkbook, nw: OpenedWorkbook) -> int
    decreases pairs.len(),
{
    if pairs.len() == 0 {
        0
    } else {
        let p = pairs.last();
        spec_sat_add(
            spec_sat_add(spec_cells_read(pairs.drop_last(), ow, nw), spec_side_kept(ow, p.old_sheet).len() as int),
            spec_side_kept(nw, p.new_sheet).len() as int,
        )
    }
}

/// The points compared for the pairs, summed in pairing order (saturating).
pub open spec fn spec_cells_compared(pairs: Seq<MatchedPair>, ow: OpenedWorkbook, nw: OpenedWorkbook, opts: DiffOptions) -> int
    decreases pairs.len(),
{
    if pairs.len() == 0 {
        0
    } else {
        spec_sat_add(spec_cells_compared(pairs.drop_last(), ow, nw, opts), spec_compared_count(pairs.last(), ow, nw, opts))
    }
}

/// The cell diffs of the sheet diffs, summed in order (saturating).
pub open spec fn spec_diffs_emitted(u: Seq<SheetDiff>) -> int
    decreases u.len(),
{
    if u.len() == 0 {
        0
    } else {
        spec_sat_add(spec_diffs_emitted(u.drop_last()), u.last().cell_diffs@.len() as int)
    }
}

/// `start` plus the diagnostics of the sheet diffs, summed in order (saturating).
pub open spec fn spec_diags_emitted(start: int, u: Seq<SheetDiff>) -> int
    decreases u.len(),
{
    if u.len() == 0 {
        start
    } else {
        spec_sat_add(spec_diags_emitted(start, u.drop_last()), u.last().diagnostics@.len() as int)
    }
}

/// The sheet diffs are those of the pairs, one each, in the pairs' order.
pub open spec fn spec_pair_diffs<F: Fn(FloatQuestion) -> bool>(
    u: Seq<SheetDiff>,
    pairs: Seq<MatchedPair>,
    ow: OpenedWorkbook,
    nw: OpenedWorkbook,
    opts: DiffOptions,
    f: F,
) -> bool {
    &&& u.len() == pairs.len()
    &&& forall|k: int| 0 <= k < u.len() ==> spec_pair_diff(#[trigger] u[k], pairs[k], ow, nw, opts, f)
    &&& forall|k: int| 0 <= k < u.len() ==> spec_pair_diags_kept(#[trigger] u[k], pairs[k], ow, nw, opts)
}

/// Reads one side of a sheet pair: its retained cells and their bounding box,
/// or the error of a sheet that could not be read.
fn read_side(
    wb: &mut OpenedWorkbook,
    sheet: &SheetRef,
    side: Side,
    opts: &DiffOptions,
    total_cells_read: &mut u64,
    diagnostics: &mut Vec<Diagnostic>,
) -> (r: Result<(Vec<CellEntry>, Option<(u32, u32)>, Option<(u32, u32)>), SheetsDiffError>)
    requires
        spec_workbook_ok(*old(wb)),
        sheet.index < old(wb).contents@.len(),
        opts.limits.max_cells_read matches Some(m) ==> *old(total_cells_read) <= m,
    ensures
        spec_workbook_ok(*final(wb)),
        spec_same_shape(*old(wb), *final(wb)),
        old(wb).contents@[sheet.index as int] matches SheetContent::Unreadable { class, .. } ==> r matches Err(
            SheetsDiffError::ReadSheet { side: s, sheet: sh, kind, .. },
        ) && s == side && sh == *sheet && kind == crate::error::spec_classify_read(class),
        old(wb).contents@[sheet.index as int] is Cells ==> {
            let total = spec_sat_add(*old(total_cells_read) as int, spec_side_kept(*old(wb), Some(*sheet)).len() as int);
            &&& spec_read_over(*opts, total) ==> r is Err
            &&& r matches Err(e) ==> (opts.execution.cancellation is Some && e == SheetsDiffError::Cancelled) || (spec_read_over(*opts, total)
                && e == (SheetsDiffError::LimitExceeded { limit: LimitKind::CellsRead, observed: (opts.limits.max_cells_read.unwrap() + 1) as u64 }))
        },
        r matches Ok(res) ==> {
            let kept = spec_side_kept(*old(wb), Some(*sheet));
            &&& res.0@ == kept
            &&& crate::cells::spec_cells_sorted(res.0@)
            &&& res.1 == spec_start(kept)
            &&& res.2 == spec_end(kept)
            &&& *final(total_cells_read) == spec_sat_add(*old(total_cells_read) as int, kept.len() as int)
            &&& (opts.limits.max_cells_read matches Some(m) ==> *final(total_cells_read) <= m)
            &&& spec_notes_appended(
                old(diagnostics)@,
                final(diagnostics)@,
                *sheet,
                spec_noted(kept, spec_side_has_formulas(*old(wb), Some(*sheet)), opts.comparison.include_formula_cached_values),
            )
        },
        r is Err ==> (opts.execution.cancellation is Some && r == Err::<(Vec<CellEntry>, Option<(u32, u32)>, Option<(u32, u32)>), SheetsDiffError>(SheetsDiffError::Cancelled))
            || (opts.limits.max_cells_read is Some && r matches Err(SheetsDiffError::LimitExceeded { limit: LimitKind::CellsRead, .. }))
            || r matches Err(SheetsDiffError::ReadSheet { .. }),
{
    let idx = sheet.index;
    if let SheetContent::Cells(sc) = &wb.contents[idx] {
        return read_sheet_cells(sc, sheet, opts, total_cells_read, diagnostics);
    }
    let class = match &wb.contents[idx] {
        SheetContent::Unreadable { class, .. } => *class,
        SheetContent::Cells(_) => crate::error::XlsxErrorClass::Other,
    };
    let mut taken = SheetContent::Unreadable { class, inner: None };
    wb.contents.set_and_swap(idx, &mut taken);
    proof {
        assert forall|k: int| 0 <= k < wb.contents@.len() implies (#[trigger] wb.contents@[k] matches SheetContent::Cells(sc) ==> crate::diff::spec_raw_ok(sc.cells@)) by {
            if k != idx {
                assert(wb.contents@[k] == old(wb).contents@[k]);
            }
        }
    }
    match taken {
        SheetContent::Unreadable { class, inner } => Err(SheetsDiffError::read_sheet(side, sheet.clone(), class, inner)),
        SheetContent::Cells(_) => Err(SheetsDiffError::Cancelled),
    }
}

/// Diffs one sheet pair: reads both sides, aligns their rows if the mode asks
/// for it, and compares the cells.
pub fn process_sheet_pair<F: Fn(FloatQuestion) -> bool>(
    pair: &MatchedPair,
    old_wb: &mut OpenedWorkbook,
    new_wb: &mut OpenedWorkbook,
    opts: &DiffOptions,
    float_oracle: &F,
    total_diffs: &mut u64,
    total_cells_read: &mut u64,
    total_cells_compared: &mut u64,
) -> (r: Result<SheetDiff, SheetsDiffError>)
    requires
        spec_workbook_ok(*old(old_wb)),
        spec_workbook_ok(*old(new_wb)),
        oracle_total(*float_oracle),
        oracle_deterministic(*float_oracle),
        opts.limits.max_diffs_returned matches Some(md) ==> *old(total_diffs) <= md,
        opts.limits.max_cells_read matches Some(m) ==> *old(total_cells_read) <= m,
    ensures
        spec_workbook_ok(*final(old_wb)),
        spec_workbook_ok(*final(new_wb)),
        spec_same_shape(*old(old_wb), *final(old_wb)),
        spec_same_shape(*old(new_wb), *final(new_wb)),
        r matches Ok(sd) ==> {
            &&& opts.limits.max_diffs_returned matches Some(md) ==> *final(total_diffs) <= md
            &&& opts.limits.max_cells_read matches Some(m) ==> *final(total_cells_read) <= m
            &&& spec_sheet_in(*old(old_wb), pair.old_sheet)
            &&& spec_sheet_in(*old(new_wb), pair.new_sheet)
            &&& spec_pair_diff(sd, *pair, *old(old_wb), *old(new_wb), *opts, *float_oracle)
            &&& spec_pair_diags(sd.diagnostics@, *pair, *old(old_wb), *old(new_wb), *opts)
            &&& spec_diffs_in_order(sd.cell_diffs@)
            &&& spec_pair_valid(*pair, *old(old_wb), *old(new_wb))
            &&& *final(total_diffs) == spec_sat_add(*old(total_diffs) as int, spec_changed_count(*pair, *old(old_wb), *old(new_wb), *opts, *float_oracle))
            &&& *final(total_cells_read) == spec_sat_add(
                spec_sat_add(*old(total_cells_read) as int, spec_side_kept(*old(old_wb), pair.old_sheet).len() as int),
                spec_side_kept(*old(new_wb), pair.new_sheet).len() as int,
            )
            &&& *final(total_cells_compared) == spec_sat_add(
                *old(total_cells_compared) as int,
                spec_compared_count(*pair, *old(old_wb), *old(new_wb), *opts),
            )
        },
        !spec_pair_valid(*pair, *old(old_wb), *old(new_wb)) ==> r matches Err(SheetsDiffError::Internal { .. }),
        spec_pair_valid(*pair, *old(old_wb), *old(new_wb)) ==> {
            let tr = *old(total_cells_read) as int;
            let tc = *old(total_cells_compared) as int;
            let td = *old(total_diffs) as int;
            &&& spec_pair_fails(*pair, *old(old_wb), *old(new_wb), *opts, *float_oracle, tr, tc, td) ==> r is Err
            &&& r matches Err(e) ==> (opts.execution.cancellation is Some && e == SheetsDiffError::Cancelled) || (
                spec_pair_fails(*pair, *old(old_wb), *old(new_wb), *opts, *float_oracle, tr, tc, td)
                && spec_pair_error(e, *pair, *old(old_wb), *old(new_wb), *opts, *float_oracle, tr, tc, td))
        },
{
    let ghost ow = *old_wb;
    let ghost nw = *new_wb;
    let sheet: &SheetRef = match &pair.new_sheet {
        Some(s) => s,
        None => match &pair.old_sheet {
            Some(s) => s,
            None => {
                return Err(SheetsDiffError::Internal { detail: string_of("sheet pair with no sheet") });
            },
        },
    };
    let in_old = match &pair.old_sheet {
        Some(s) => s.index < old_wb.contents.len(),
        None => true,
    };
    let in_new = match &pair.new_sheet {
        Some(s) => s.index < new_wb.contents.len(),
        None => true,
    };
    if !in_old || !in_new {
        return Err(SheetsDiffError::Internal { detail: string_of("sheet outside its workbook") });
    }
    let mut sheet_diag: Vec<Diagnostic> = Vec::new();
    let (old_map, old_start, old_end) = match &pair.old_sheet {
        Some(s) => read_side(old_wb, s, Side::Old, opts, total_cells_read, &mut sheet_diag)?,
        None => (Vec::new(), None, None),
    };
    let ghost d1 = sheet_diag@;
    let (new_map, new_start, new_end) = match &pair.new_sheet {
        Some(s) => read_side(new_wb, s, Side::New, opts, total_cells_read, &mut sheet_diag)?,
        None => (Vec::new(), None, None),
    };
    let ghost d2 = sheet_diag@;
    proof {
        assert(spec_side_notes(Seq::empty(), d1, pair.old_sheet, spec_side_kept(ow, pair.old_sheet), spec_side_has_formulas(ow, pair.old_sheet), opts.comparison.include_formula_cached_values));
        assert(spec_side_notes(d1, d2, pair.new_sheet, spec_side_kept(nw, pair.new_sheet), spec_side_has_formulas(nw, pair.new_sheet), opts.comparison.include_formula_cached_values));
    }
    proof {
        assert(old_map@ == spec_side_kept(ow, pair.old_sheet));
        assert(new_map@ == spec_side_kept(nw, pair.new_sheet));
    }
    let mapping = compute_row_mapping(
        &old_map,
        &new_map,
        &opts.matching.alignment,
        opts.limits.max_alignment_product,
        cancellation_of(opts),
        sheet,
        &mut sheet_diag,
    )?;
    proof {
        assert(spec_mapping_fits(opts.matching.alignment, opts.limits.max_alignment_product, old_map@, new_map@, mapping));
        assert(*sheet == spec_pair_sheet(*pair));
        assert(spec_align_diags(d2, sheet_diag@, old_map@, new_map@, opts.matching.alignment, opts.limits.max_alignment_product, *sheet));
        reveal(spec_pair_diags);
        assert(spec_pair_diags(sheet_diag@, *pair, ow, nw, *opts));
    }
    let ghost gm = mapping;
    proof {
        reveal(spec_pair_diff);
        let cm = choose|m: Option<RowMapping>| spec_mapping_fits(opts.matching.alignment, opts.limits.max_alignment_product, old_map@, new_map@, m);
        lemma_fitting_mappings_agree(opts.matching.alignment, opts.limits.max_alignment_product, old_map@, new_map@, gm, cm);
    }
    let r = build_sheet_diff(
        pair,
        &old_map,
        old_start,
        old_end,
        &new_map,
        new_start,
        new_end,
        mapping,
        opts,
        float_oracle,
        total_diffs,
        total_cells_compared,
        sheet_diag,
    );
    proof {
        if r is Ok {
            let sd = r->Ok_0;
            match gm {
                None => {
                    lemma_positional_diffs_ordered(old_map@, new_map@, sd.cell_diffs@, *float_oracle, opts.comparison);
                },
                Some(m) => {
                    lemma_aligned_diffs_ordered(old_map@, new_map@, m, sd.cell_diffs@, *float_oracle, opts.comparison);
                },
            }
        }
    }
    r
}

/// The options other than the progress sink are as they were.
pub open spec fn spec_same_settings(a: DiffOptions, b: DiffOptions) -> bool {
    &&& a.comparison == b.comparison
    &&& a.matching == b.matching
    &&& a.limits == b.limits
    &&& a.diagnostics == b.diagnostics
    &&& a.output == b.output
    &&& a.execution.cancellation == b.execution.cancellation
}

/// Hands a progress event to the sink, if one is configured.
fn emit(opts: &mut DiffOptions, event: DiffEvent)
    ensures
        spec_same_settings(*old(opts), *final(opts)),
        final(opts).execution.mode == old(opts).execution.mode,
        final(opts).execution.progress is Some <==> old(opts).execution.progress is Some,
{
    if let Some(sink) = &mut opts.execution.progress {
        sink.on_event(event);
    }
}

/// The order key of a sheet diff: old-workbook sheets first, in old order,
/// then sheets only in the new workbook, in new order.
pub open spec fn spec_sheet_key(sd: SheetDiff) -> (int, int) {
    match sd.old_sheet {
        Some(s) => (0, s.index as int),
        None => (
            1,
            match sd.new_sheet {
                Some(s) => s.index as int,
                None => 0,
            },
        ),
    }
}

/// `a` does not sort after `b`.
pub open spec fn spec_key_le(a: (int, int), b: (int, int)) -> bool {
    a.0 < b.0 || (a.0 == b.0 && a.1 <= b.1)
}

/// The sheet diffs are in key order.
pub open spec fn spec_sheets_ordered(s: Seq<SheetDiff>) -> bool {
    forall|i: int, j: int| 0 <= i < j < s.len() ==> spec_key_le(spec_sheet_key(#[trigger] s[i]), spec_sheet_key(#[trigger] s[j]))
}

/// The first position at or after `from` whose key sorts after `x`'s.
pub open spec fn spec_insert_pos(t: Seq<SheetDiff>, x: SheetDiff, from: int) -> int
    decreases t.len() - from,
{
    if from < 0 || from >= t.len() {
        t.len() as int
    } else if spec_key_le(spec_sheet_key(t[from]), spec_sheet_key(x)) {
        spec_insert_pos(t, x, from + 1)
    } else {
        from
    }
}

/// The stable sort of sheet diffs by key: each inserted in turn after those
/// whose key does not sort after its own.
pub open spec fn spec_stable_sort(s: Seq<SheetDiff>) -> Seq<SheetDiff>
    decreases s.len(),
{
    if s.len() == 0 {
        Seq::empty()
    } else {
        let t = spec_stable_sort(s.drop_last());
        t.insert(spec_insert_pos(t, s.last(), 0), s.last())
    }
}

fn sheet_key(sd: &SheetDiff) -> (r: (usize, usize))
    ensures
        (r.0 as int, r.1 as int) == spec_sheet_key(*sd),
{
    match &sd.old_sheet {
        Some(s) => (0, s.index),
        None => (1, match &sd.new_sheet {
            Some(s) => s.index,
            None => 0,
        }),
    }
}

fn key_not_after(sd: &SheetDiff, x0: usize, x1: usize) -> (r: bool)
    ensures
        r == spec_key_le(spec_sheet_key(*sd), (x0 as int, x1 as int)),
{
    let (a0, a1) = sheet_key(sd);
    a0 < x0 || (a0 == x0 && a1 <= x1)
}

/// Sorts sheet diffs stably by key (see `spec_stable_sort`).
pub fn sort_sheet_diffs(v: Vec<SheetDiff>) -> (r: Vec<SheetDiff>)
    ensures
        r@ == spec_stable_sort(v@),
        spec_sheets_ordered(r@),
{
    let ghost orig = v@;
    let mut rest = v;
    let mut out: Vec<SheetDiff> = Vec::new();
    let ghost mut k: int = 0;
    while rest.len() > 0
        invariant
            0 <= k <= orig.len(),
            rest@ == orig.skip(k),
            out@ == spec_stable_sort(orig.take(k)),
            spec_sheets_ordered(out@),
        decreases rest@.len(),
    {
        let x = rest.remove(0);
        let (x0, x1) = sheet_key(&x);
        let mut p: usize = 0;
        while p < out.len() && key_not_after(&out[p], x0, x1)
            invariant
                p <= out@.len(),
                spec_insert_pos(out@, x, 0) == spec_insert_pos(out@, x, p as int),
                forall|q: int| 0 <= q < p ==> spec_key_le(spec_sheet_key(#[trigger] out@[q]), spec_sheet_key(x)),
                (x0 as int, x1 as int) == spec_sheet_key(x),
            decreases out@.len() - p,
        {
            p += 1;
        }
        proof {
            assert(orig.take(k + 1).drop_last() =~= orig.take(k));
            assert(orig.take(k + 1).last() == x);
            assert(orig.skip(k + 1) =~= orig.skip(k).drop_first());
        }
        let ghost before = out@;
        out.insert(p, x);
        proof {
            k = k + 1;
            assert forall|i: int, j: int| 0 <= i < j < out@.len() implies spec_key_le(spec_sheet_key(#[trigger] out@[i]), spec_sheet_key(#[trigger] out@[j])) by {
                if j < p {
                } else if j == p {
                } else if i == p {
                    if p < before.len() {
                        assert(!spec_key_le(spec_sheet_key(before[p as int]), spec_sheet_key(x)));
                        assert(spec_key_le(spec_sheet_key(before[p as int]), spec_sheet_key(before[j - 1])) || p == j - 1);
                    }
                } else if i < p {
                    assert(out@[j] == before[j - 1]);
                    assert(spec_key_le(spec_sheet_key(before[i]), spec_sheet_key(before[j - 1])));
                } else {
                    assert(out@[j] == before[j - 1]);
                    assert(out@[i] == before[i - 1]);
                }
            }
        }
    }
    proof {
        assert(orig.take(k) =~= orig);
    }
    out
}

/// Sorting keeps the number of sheet diffs.
pub proof fn lemma_stable_sort_len(s: Seq<SheetDiff>)
    ensures
        spec_stable_sort(s).len() == s.len(),
    decreases s.len(),
{
    if s.len() > 0 {
        lemma_stable_sort_len(s.drop_last());
        lemma_insert_pos_bound(spec_stable_sort(s.drop_last()), s.last(), 0);
    }
}

proof fn lemma_insert_pos_bound(t: Seq<SheetDiff>, x: SheetDiff, from: int)
    requires
        0 <= from,
    ensures
        0 <= spec_insert_pos(t, x, from) <= t.len(),
    decreases t.len() - from,
{
    if from < t.len() {
        lemma_insert_pos_bound(t, x, from + 1);
    }
}

/// Sorting neither loses nor duplicates a sheet diff: the sorted list holds
/// the same sheet diffs as the input, each as often.
pub proof fn lemma_stable_sort_permutes(s: Seq<SheetDiff>)
    ensures
        spec_stable_sort(s).to_multiset() =~= s.to_multiset(),
    decreases s.len(),
{
    if s.len() > 0 {
        lemma_stable_sort_permutes(s.drop_last());
        let t = spec_stable_sort(s.drop_last());
        lemma_stable_sort_len(s.drop_last());
        lemma_insert_pos_bound(t, s.last(), 0);
        vstd::seq_lib::to_multiset_insert(t, spec_insert_pos(t, s.last(), 0), s.last());
        vstd::seq_lib::to_multiset_build(s.drop_last(), s.last());
        assert(s.drop_last().push(s.last()) =~= s);
    } else {
        assert(s =~= Seq::<SheetDiff>::empty());
    }
}

/// The diagnostic is collected under the minimum severity `min`: there is no
/// minimum, or its severity is not below it.
pub open spec fn spec_kept(d: Diagnostic, min: Option<Severity>) -> bool {
    match min {
        None => true,
        Some(m) => spec_severity_rank(d.severity) >= spec_severity_rank(m),
    }
}

/// The diagnostics collected under `min`, in their order.
pub open spec fn spec_keep(ds: Seq<Diagnostic>, min: Option<Severity>) -> Seq<Diagnostic>
    decreases ds.len(),
{
    if ds.len() == 0 {
        Seq::empty()
    } else {
        let p = spec_keep(ds.drop_last(), min);
        if spec_kept(ds.last(), min) {
            p.push(ds.last())
        } else {
            p
        }
    }
}

/// Every diagnostic the filter keeps passes it.
pub proof fn lemma_keep_passes(ds: Seq<Diagnostic>, min: Option<Severity>)
    ensures
        forall|i: int| 0 <= i < spec_keep(ds, min).len() ==> spec_kept(#[trigger] spec_keep(ds, min)[i], min),
        spec_keep(ds, min).len() <= ds.len(),
    decreases ds.len(),
{
    if ds.len() > 0 {
        lemma_keep_passes(ds.drop_last(), min);
    }
}

/// Drops the diagnostics below `min`, keeping the order of the rest.
pub fn keep_diagnostics(ds: Vec<Diagnostic>, min: Option<Severity>) -> (r: Vec<Diagnostic>)
    ensures
        r@ == spec_keep(ds@, min),
{
    let ghost orig = ds@;
    let mut rest = ds;
    let mut rev: Vec<Diagnostic> = Vec::new();
    while rest.len() > 0
        invariant
            rest@.len() + rev@.len() == orig.len(),
            rest@ == orig.take(rest@.len() as int),
            forall|k: int| 0 <= k < rev@.len() ==> #[trigger] rev@[k] == orig[orig.len() - 1 - k],
        decreases rest@.len(),
    {
        let ghost n = rest@.len();
        let d = rest.pop().unwrap();
        proof {
            assert(orig.take(n as int).drop_last() =~= orig.take(n - 1));
        }
        rev.push(d);
    }
    let mut out: Vec<Diagnostic> = Vec::new();
    while rev.len() > 0
        invariant
            rev@.len() <= orig.len(),
            forall|k: int| 0 <= k < rev@.len() ==> #[trigger] rev@[k] == orig[orig.len() - 1 - k],
            out@ == spec_keep(orig.take(orig.len() - rev@.len()), min),
        decreases rev@.len(),
    {
        let ghost i = orig.len() - rev@.len();
        let d = rev.pop().unwrap();
        proof {
            assert(orig.take(i + 1).drop_last() =~= orig.take(i));
            assert(orig.take(i + 1).last() == d);
        }
        let keep = match min {
            None => true,
            Some(m) => d.severity.rank() >= m.rank(),
        };
        if keep {
            out.push(d);
        }
    }
    proof {
        assert(orig.take(orig.len() as int) =~= orig);
    }
    out
}

/// Whether the summary counts of the sheet diffs fit their counters.
fn counts_fit(sheets: &Vec<SheetDiff>) -> (r: bool)
    ensures
        r == spec_counts_fit(sheets@),
{
    let mut cells: usize = 0;
    let mut values: usize = 0;
    let mut formulas: usize = 0;
    let mut i: usize = 0;
    while i < sheets.len()
        invariant
            i <= sheets@.len(),
            cells == crate::model::spec_sheet_counts(sheets@.take(i as int)).5,
            values == crate::model::spec_sheet_counts(sheets@.take(i as int)).6,
            formulas == crate::model::spec_sheet_counts(sheets@.take(i as int)).7,
        decreases sheets@.len() - i,
    {
        proof {
            assert(sheets@.take(i + 1).drop_last() =~= sheets@.take(i as int));
            crate::model::lemma_counts_monotone(sheets@, i + 1);
        }
        let s = &sheets[i].summary;
        match (cells.checked_add(s.cells_changed), values.checked_add(s.values_changed), formulas.checked_add(s.formulas_changed)) {
            (Some(a), Some(b), Some(c)) => {
                cells = a;
                values = b;
                formulas = c;
            },
            _ => {
                return false;
            },
        }
        i += 1;
    }
    proof {
        assert(sheets@.take(i as int) =~= sheets@);
    }
    true
}

/// The larger of two sheet counts.
pub open spec fn spec_max_count(a: nat, b: nat) -> nat {
    if a >= b {
        a
    } else {
        b
    }
}

/// The number of sheets exceeds `max_sheets` on some side.
pub open spec fn spec_too_many_sheets(opts: DiffOptions, old_count: nat, new_count: nat) -> bool {
    opts.limits.max_sheets matches Some(mx) && spec_max_count(old_count, new_count) > mx
}

/// The cell diffs found for the pairs, summed in pairing order (saturating).
pub open spec fn spec_changed_total<F: Fn(FloatQuestion) -> bool>(
    pairs: Seq<MatchedPair>,
    ow: OpenedWorkbook,
    nw: OpenedWorkbook,
    opts: DiffOptions,
    f: F,
) -> int
    decreases pairs.len(),
{
    if pairs.len() == 0 {
        0
    } else {
        spec_sat_add(spec_changed_total(pairs.drop_last(), ow, nw, opts, f), spec_changed_count(pairs.last(), ow, nw, opts, f))
    }
}

/// Diffing the `k`-th pair fails: it is no valid pair, or one of its steps
/// fails given the totals of the pairs before it.
pub open spec fn spec_fails_at<F: Fn(FloatQuestion) -> bool>(
    pairs: Seq<MatchedPair>,
    k: int,
    ow: OpenedWorkbook,
    nw: OpenedWorkbook,
    opts: DiffOptions,
    f: F,
) -> bool {
    ||| !spec_pair_valid(pairs[k], ow, nw)
    ||| spec_pair_fails(
        pairs[k],
        ow,
        nw,
        opts,
        f,
        spec_cells_read(pairs.take(k), ow, nw),
        spec_cells_compared(pairs.take(k), ow, nw, opts),
        spec_changed_total(pairs.take(k), ow, nw, opts, f),
    )
}

/// Diffing some pair fails.
pub open spec fn spec_run_fails<F: Fn(FloatQuestion) -> bool>(
    pairs: Seq<MatchedPair>,
    ow: OpenedWorkbook,
    nw: OpenedWorkbook,
    opts: DiffOptions,
    f: F,
) -> bool {
    exists|k: int| 0 <= k < pairs.len() && #[trigger] spec_fails_at(pairs, k, ow, nw, opts, f)
}

/// `e` is the error of the first pair whose diffing fails: `Internal` for
/// an invalid pair, else the error of its first failing step.
pub open spec fn spec_run_error<F: Fn(FloatQuestion) -> bool>(
    e: SheetsDiffError,
    pairs: Seq<MatchedPair>,
    ow: OpenedWorkbook,
    nw: OpenedWorkbook,
    opts: DiffOptions,
    f: F,
) -> bool {
    exists|k: int|
        0 <= k < pairs.len() && #[trigger] spec_fails_at(pairs, k, ow, nw, opts, f)
        && (forall|j: int| 0 <= j < k ==> !spec_fails_at(pairs, j, ow, nw, opts, f))
        && if spec_pair_valid(pairs[k], ow, nw) {
            spec_pair_error(
                e,
                pairs[k],
                ow,
                nw,
                opts,
                f,
                spec_cells_read(pairs.take(k), ow, nw),
                spec_cells_compared(pairs.take(k), ow, nw, opts),
                spec_changed_total(pairs.take(k), ow, nw, opts, f),
            )
        } else {
            e is Internal
        }
}

/// Every pair of two well-formed workbooks' sheets is a valid pair of them:
/// it has a sheet, and each of its sheets lies in its workbook.
pub proof fn lemma_pairs_valid(ow: OpenedWorkbook, nw: OpenedWorkbook, mode: crate::options::SheetMatchingMode)
    requires
        spec_workbook_ok(ow),
        spec_workbook_ok(nw),
    ensures
        forall|k: int| 0 <= k < spec_match_sheets(ow.sheets@, nw.sheets@, mode).len()
            ==> spec_pair_valid(#[trigger] spec_match_sheets(ow.sheets@, nw.sheets@, mode)[k], ow, nw),
{
    let ps = spec_match_sheets(ow.sheets@, nw.sheets@, mode);
    lemma_pairs_from(ow.sheets@, nw.sheets@, mode);
    assert forall|k: int| 0 <= k < ps.len() implies spec_pair_valid(#[trigger] ps[k], ow, nw) by {
        assert(crate::matcher::spec_pair_from(ow.sheets@, nw.sheets@, ps[k]));
        if let Some(o) = ps[k].old_sheet {
            let i = choose|i: int| 0 <= i < ow.sheets@.len() && ow.sheets@[i] == o;
            assert(ow.sheets@[i].index == i);
        }
        if let Some(n) = ps[k].new_sheet {
            let i = choose|i: int| 0 <= i < nw.sheets@.len() && nw.sheets@[i] == n;
            assert(nw.sheets@[i].index == i);
        }
    }
}

/// Diffing a pair in workbooks of the same shape, under the same settings,
/// fails at the same step with the same error.
proof fn lemma_pair_fault_transfer<F: Fn(FloatQuestion) -> bool>(
    pair: MatchedPair,
    ow: OpenedWorkbook,
    nw: OpenedWorkbook,
    ow2: OpenedWorkbook,
    nw2: OpenedWorkbook,
    o: DiffOptions,
    o2: DiffOptions,
    f: F,
    tr: int,
    tc: int,
    td: int,
)
    requires
        spec_same_shape(ow, ow2),
        spec_same_shape(nw, nw2),
        spec_pair_valid(pair, ow, nw),
        spec_same_settings(o, o2),
    ensures
        spec_pair_valid(pair, ow2, nw2),
        spec_pair_fails(pair, ow, nw, o, f, tr, tc, td) == spec_pair_fails(pair, ow2, nw2, o2, f, tr, tc, td),
        forall|e: SheetsDiffError| spec_pair_error(e, pair, ow, nw, o, f, tr, tc, td) == #[trigger] spec_pair_error(e, pair, ow2, nw2, o2, f, tr, tc, td),
        spec_changed_count(pair, ow, nw, o, f) == spec_changed_count(pair, ow2, nw2, o2, f),
        spec_compared_count(pair, ow, nw, o) == spec_compared_count(pair, ow2, nw2, o2),
{
    lemma_side_kept_same(ow, ow2, pair.old_sheet);
    lemma_side_kept_same(nw, nw2, pair.new_sheet);
}

/// Compares two opened workbooks.
///
/// Fails with `LimitExceeded { Sheets, observed }` when either side has more
/// sheets than `max_sheets` (`observed` the larger count), before any work.
/// Otherwise pairs the sheets, reports non-cell objects and metadata
/// differences, diffs every pair in pairing order (polling for cancellation
/// before each), and returns the sheet diffs in old-workbook order followed by
/// the sheets only in the new workbook, with the summary of them all.
/// With `min_severity` set, a diagnostic below it is dropped before it is kept,
/// from the workbook's list and from every sheet's, and the counters count what
/// was kept.
pub fn run_pipeline<F: Fn(FloatQuestion) -> bool>(
    old_workbook: OpenedWorkbook,
    new_workbook: OpenedWorkbook,
    options: DiffOptions,
    float_oracle: &F,
) -> (r: Result<WorkbookDiff, SheetsDiffError>)
    requires
        spec_workbook_ok(old_workbook),
        spec_workbook_ok(new_workbook),
        oracle_total(*float_oracle),
        oracle_deterministic(*float_oracle),
    ensures
        spec_too_many_sheets(options, old_workbook.sheets@.len(), new_workbook.sheets@.len()) ==> r == Err::<WorkbookDiff, SheetsDiffError>(
            SheetsDiffError::LimitExceeded {
                limit: LimitKind::Sheets,
                observed: spec_max_count(old_workbook.sheets@.len(), new_workbook.sheets@.len()) as u64,
            },
        ),
        !spec_too_many_sheets(options, old_workbook.sheets@.len(), new_workbook.sheets@.len()) ==> {
            let pairs = spec_match_sheets(old_workbook.sheets@, new_workbook.sheets@, options.matching.sheet_matching);
            &&& forall|k: int| 0 <= k < pairs.len() ==> spec_pair_valid(#[trigger] pairs[k], old_workbook, new_workbook)
            &&& r matches Err(SheetsDiffError::Internal { .. }) ==> !spec_run_fails(pairs, old_workbook, new_workbook, options, *float_oracle)
                && exists|u: Seq<SheetDiff>| #[trigger] spec_pair_diffs(u, pairs, old_workbook, new_workbook, options, *float_oracle)
                    && !spec_counts_fit(spec_stable_sort(u))
            &&& spec_run_fails(pairs, old_workbook, new_workbook, options, *float_oracle) ==> r is Err
            &&& r matches Err(e) ==> (options.execution.cancellation is Some && e == SheetsDiffError::Cancelled)
                || spec_run_error(e, pairs, old_workbook, new_workbook, options, *float_oracle)
                || (!spec_run_fails(pairs, old_workbook, new_workbook, options, *float_oracle) && e is Internal
                    && exists|u: Seq<SheetDiff>| #[trigger] spec_pair_diffs(u, pairs, old_workbook, new_workbook, options, *float_oracle)
                        && !spec_counts_fit(spec_stable_sort(u)))
            &&& (options.execution.cancellation is None && !spec_run_fails(pairs, old_workbook, new_workbook, options, *float_oracle)
                && forall|u: Seq<SheetDiff>| #[trigger] spec_pair_diffs(u, pairs, old_workbook, new_workbook, options, *float_oracle)
                    ==> spec_counts_fit(spec_stable_sort(u))) ==> r is Ok
            &&& r matches Ok(wd) ==> {
                &&& wd.old == (WorkbookSideInfo { source: old_workbook.source, workbook_name: None, sheet_count: old_workbook.sheets@.len() as usize })
                &&& wd.new == (WorkbookSideInfo { source: new_workbook.source, workbook_name: None, sheet_count: new_workbook.sheets@.len() as usize })
                &&& wd.sheets@.len() == spec_match_sheets(old_workbook.sheets@, new_workbook.sheets@, options.matching.sheet_matching).len()
                &&& spec_sheets_ordered(wd.sheets@)
                &&& spec_summary_matches(wd.summary, wd.sheets@, wd.diagnostics@)
                &&& wd.workbook_changes@.len() == 0
                &&& wd.object_changes@.len() == 0
                &&& wd.metrics.sheets_read as int == if spec_match_sheets(old_workbook.sheets@, new_workbook.sheets@, options.matching.sheet_matching).len() > u32::MAX {
                    u32::MAX as int
                } else {
                    spec_match_sheets(old_workbook.sheets@, new_workbook.sheets@, options.matching.sheet_matching).len() as int
                }
                &&& wd.metrics.cells_read == spec_cells_read(
                    spec_match_sheets(old_workbook.sheets@, new_workbook.sheets@, options.matching.sheet_matching),
                    old_workbook,
                    new_workbook,
                )
                &&& wd.metrics.cells_compared == spec_cells_compared(
                    spec_match_sheets(old_workbook.sheets@, new_workbook.sheets@, options.matching.sheet_matching),
                    old_workbook,
                    new_workbook,
                    options,
                )
                &&& wd.metrics.diagnostics_emitted == spec_diags_emitted(wd.diagnostics@.len() as int, wd.sheets@)
                &&& exists|u: Seq<SheetDiff>| #[trigger] spec_stable_sort(u) == wd.sheets@ && wd.metrics.diffs_emitted == spec_diffs_emitted(u) && spec_pair_diffs(
                    u,
                    spec_match_sheets(old_workbook.sheets@, new_workbook.sheets@, options.matching.sheet_matching),
                    old_workbook,
                    new_workbook,
                    options,
                    *float_oracle,
                )
                &&& exists|ds: Seq<Diagnostic>| #[trigger] spec_workbook_diags(ds, old_workbook, new_workbook, options)
                    && wd.diagnostics@ == spec_keep(ds, options.diagnostics.min_severity)
                &&& forall|i: int| 0 <= i < wd.diagnostics@.len() ==> spec_kept(#[trigger] wd.diagnostics@[i], options.diagnostics.min_severity)
                &&& forall|k: int, i: int| 0 <= k < wd.sheets@.len() && 0 <= i < wd.sheets@[k].diagnostics@.len()
                    ==> spec_kept(#[trigger] wd.sheets@[k].diagnostics@[i], options.diagnostics.min_severity)
                &&& forall|k: int| 0 <= k < wd.sheets@.len() ==> spec_diffs_in_order(#[trigger] wd.sheets@[k].cell_diffs@)
            }
        },
{
    let mut old_wb = old_workbook;
    let mut new_wb = new_workbook;
    let mut opts = options;
    let mut workbook_diagnostics: Vec<Diagnostic> = Vec::new();
    emit(&mut opts, DiffEvent::Started);
    emit(&mut opts, DiffEvent::OpeningWorkbook { side: Side::Old });
    emit(&mut opts, DiffEvent::WorkbookOpened { side: Side::Old, sheet_count: old_wb.sheets.len() });
    emit(&mut opts, DiffEvent::OpeningWorkbook { side: Side::New });
    emit(&mut opts, DiffEvent::WorkbookOpened { side: Side::New, sheet_count: new_wb.sheets.len() });
    if let Some(max) = opts.limits.max_sheets {
        let old_count = old_wb.sheets.len() as u64;
        let new_count = new_wb.sheets.len() as u64;
        let observed = if old_count >= new_count { old_count } else { new_count };
        if observed > max as u64 {
            return Err(SheetsDiffError::LimitExceeded { limit: LimitKind::Sheets, observed });
        }
    }
    let old_info = WorkbookSideInfo { source: old_wb.source.clone(), workbook_name: None, sheet_count: old_wb.sheets.len() };
    let new_info = WorkbookSideInfo { source: new_wb.source.clone(), workbook_name: None, sheet_count: new_wb.sheets.len() };
    emit(&mut opts, DiffEvent::MatchingSheets);
    let matched = match_sheets(&old_wb.sheets, &new_wb.sheets, opts.matching.sheet_matching, &mut workbook_diagnostics);
    let ghost wd1 = workbook_diagnostics@;
    report_object_coverage(&old_wb.metas, &new_wb.metas, opts.output.objects, &mut workbook_diagnostics);
    let ghost wd2 = workbook_diagnostics@;
    let meta_changes = compare_workbook_metadata(
        &old_wb.defined_names,
        &new_wb.defined_names,
        &old_wb.metas,
        &new_wb.metas,
        &mut workbook_diagnostics,
    );
    proof {
        assert(spec_match_diags(Seq::empty(), wd1, old_workbook.sheets@, new_workbook.sheets@, options.matching.sheet_matching));
        assert(spec_coverage_diags(wd1, wd2, old_workbook.metas@, new_workbook.metas@, options.output.objects));
        assert(spec_workbook_diags(workbook_diagnostics@, old_workbook, new_workbook, options));
    }
    let ghost raised = workbook_diagnostics@;
    let total_sheets = matched.len();
    let mut sheet_diffs: Vec<SheetDiff> = Vec::new();
    let mut total_diffs: u64 = 0;
    let mut total_cells_read: u64 = 0;
    let mut total_cells_compared: u64 = 0;
    let mut sheets_read: u32 = 0;
    let mut diffs_emitted: u64 = 0;
    let mut idx: usize = 0;
    proof {
        assert(matched@.take(0) =~= Seq::<MatchedPair>::empty());
        lemma_pairs_valid(old_workbook, new_workbook, options.matching.sheet_matching);
    }
    while idx < total_sheets
        invariant
            total_sheets == matched@.len(),
            idx <= total_sheets,
            sheet_diffs@.len() == idx,
            spec_same_settings(options, opts),
            !spec_too_many_sheets(options, old_workbook.sheets@.len(), new_workbook.sheets@.len()),
            old_wb.sheets == old_workbook.sheets,
            new_wb.sheets == new_workbook.sheets,
            spec_workbook_ok(old_wb),
            spec_workbook_ok(new_wb),
            oracle_total(*float_oracle),
            oracle_deterministic(*float_oracle),
            opts.limits.max_diffs_returned matches Some(md) ==> total_diffs <= md,
            opts.limits.max_cells_read matches Some(m) ==> total_cells_read <= m,
            forall|k: int, i: int| 0 <= k < sheet_diffs@.len() && 0 <= i < sheet_diffs@[k].diagnostics@.len()
                ==> spec_kept(#[trigger] sheet_diffs@[k].diagnostics@[i], options.diagnostics.min_severity),
            spec_same_shape(old_workbook, old_wb),
            spec_same_shape(new_workbook, new_wb),
            matched@ == spec_match_sheets(old_workbook.sheets@, new_workbook.sheets@, options.matching.sheet_matching),
            forall|k: int| 0 <= k < sheet_diffs@.len() ==> spec_pair_diff(#[trigger] sheet_diffs@[k], matched@[k], old_workbook, new_workbook, options, *float_oracle),
            forall|k: int| 0 <= k < sheet_diffs@.len() ==> spec_pair_diags_kept(#[trigger] sheet_diffs@[k], matched@[k], old_workbook, new_workbook, options),
            forall|k: int| 0 <= k < sheet_diffs@.len() ==> spec_diffs_in_order(#[trigger] sheet_diffs@[k].cell_diffs@),
            total_cells_read == spec_cells_read(matched@.take(idx as int), old_workbook, new_workbook),
            total_cells_compared == spec_cells_compared(matched@.take(idx as int), old_workbook, new_workbook, options),
            sheets_read as int == if idx > u32::MAX { u32::MAX as int } else { idx as int },
            diffs_emitted == spec_diffs_emitted(sheet_diffs@),
            total_diffs == spec_changed_total(matched@.take(idx as int), old_workbook, new_workbook, options, *float_oracle),
            forall|j: int| 0 <= j < idx ==> !#[trigger] spec_fails_at(matched@, j, old_workbook, new_workbook, options, *float_oracle),
            forall|k: int| 0 <= k < matched@.len() ==> spec_pair_valid(#[trigger] matched@[k], old_workbook, new_workbook),
        decreases total_sheets - idx,
    {
        check_cancel(&opts)?;
        let pair = &matched[idx];
        let name = match &pair.new_sheet {
            Some(s) => s.name.clone(),
            None => match &pair.old_sheet {
                Some(s) => s.name.clone(),
                None => String::new(),
            },
        };
        emit(&mut opts, DiffEvent::SheetStarted { index: idx, total: total_sheets, name });
        let ghost ow_before = old_wb;
        let ghost nw_before = new_wb;
        let ghost tr = total_cells_read as int;
        let ghost tc = total_cells_compared as int;
        let ghost td = total_diffs as int;
        let res = process_sheet_pair(
            pair,
            &mut old_wb,
            &mut new_wb,
            &opts,
            float_oracle,
            &mut total_diffs,
            &mut total_cells_read,
            &mut total_cells_compared,
        );
        proof {
            if spec_pair_valid(*pair, old_workbook, new_workbook) {
                lemma_pair_fault_transfer(*pair, old_workbook, new_workbook, ow_before, nw_before, options, opts, *float_oracle, tr, tc, td);
            }
        }
        let mut sheet_diff = match res {
            Ok(sd) => sd,
            Err(e) => {
                proof {
                    if !(opts.execution.cancellation is Some && e == SheetsDiffError::Cancelled) {
                        assert(spec_fails_at(matched@, idx as int, old_workbook, new_workbook, options, *float_oracle));
                    }
                }
                return Err(e);
            },
        };
        proof {
            assert(!spec_fails_at(matched@, idx as int, old_workbook, new_workbook, options, *float_oracle));
        }
        let ghost processed = sheet_diff;
        let mut collected: Vec<Diagnostic> = Vec::new();
        std::mem::swap(&mut collected, &mut sheet_diff.diagnostics);
        let ghost collected_view = collected@;
        sheet_diff.diagnostics = keep_diagnostics(collected, opts.diagnostics.min_severity);
        proof {
            lemma_keep_passes(collected_view, opts.diagnostics.min_severity);
            lemma_side_kept_same(old_workbook, ow_before, pair.old_sheet);
            lemma_side_kept_same(new_workbook, nw_before, pair.new_sheet);
            lemma_pair_diff_transfer(
                processed,
                sheet_diff,
                *pair,
                ow_before,
                nw_before,
                old_workbook,
                new_workbook,
                opts,
                options,
                *float_oracle,
            );
            lemma_same_shape_trans(old_workbook, ow_before, old_wb);
            lemma_same_shape_trans(new_workbook, nw_before, new_wb);
            lemma_pair_diags_transfer(
                collected_view,
                *pair,
                ow_before,
                nw_before,
                old_workbook,
                new_workbook,
                opts,
                options,
            );
            assert(spec_pair_diags_kept(sheet_diff, *pair, old_workbook, new_workbook, options));
            assert(matched@.take(idx + 1).drop_last() =~= matched@.take(idx as int));
        }
        let changed = sheet_diff.cell_diffs.len();
        sheets_read = sheets_read.saturating_add(1);
        diffs_emitted = diffs_emitted.saturating_add(changed as u64);
        emit(&mut opts, DiffEvent::SheetFinished { index: idx, changed_cells: changed });
        let ghost before = sheet_diffs@;
        sheet_diffs.push(sheet_diff);
        proof {
            assert(sheet_diffs@.drop_last() =~= before);
        }
        idx += 1;
    }
    proof {
        assert(matched@.take(idx as int) =~= matched@);
    }
    let ghost unsorted = sheet_diffs@;
    let sheets = sort_sheet_diffs(sheet_diffs);
    proof {
        lemma_stable_sort_len(unsorted);
        lemma_stable_sort_permutes(unsorted);
        assert forall|k: int, i: int| 0 <= k < sheets@.len() && 0 <= i < sheets@[k].diagnostics@.len()
            implies spec_kept(#[trigger] sheets@[k].diagnostics@[i], options.diagnostics.min_severity) by {
            vstd::seq_lib::to_multiset_contains(sheets@, sheets@[k]);
            vstd::seq_lib::to_multiset_contains(unsorted, sheets@[k]);
            assert(sheets@.contains(sheets@[k]));
            let j = choose|j: int| 0 <= j < unsorted.len() && unsorted[j] == sheets@[k];
            assert(unsorted[j].diagnostics@[i] == sheets@[k].diagnostics@[i]);
        }
        assert forall|k: int| 0 <= k < sheets@.len() implies spec_diffs_in_order(#[trigger] sheets@[k].cell_diffs@) by {
            vstd::seq_lib::to_multiset_contains(sheets@, sheets@[k]);
            vstd::seq_lib::to_multiset_contains(unsorted, sheets@[k]);
            assert(sheets@.contains(sheets@[k]));
            let j = choose|j: int| 0 <= j < unsorted.len() && unsorted[j] == sheets@[k];
            assert(spec_diffs_in_order(unsorted[j].cell_diffs@));
        }
    }
    let ghost collected_view = workbook_diagnostics@;
    let workbook_diagnostics = keep_diagnostics(workbook_diagnostics, opts.diagnostics.min_severity);
    proof {
        lemma_keep_passes(collected_view, opts.diagnostics.min_severity);
    }
    let mut diagnostics_emitted: u64 = workbook_diagnostics.len() as u64;
    let mut k: usize = 0;
    proof {
        assert(sheets@.take(0) =~= Seq::<SheetDiff>::empty());
    }
    while k < sheets.len()
        invariant
            k <= sheets@.len(),
            diagnostics_emitted == spec_diags_emitted(workbook_diagnostics@.len() as int, sheets@.take(k as int)),
        decreases sheets@.len() - k,
    {
        proof {
            assert(sheets@.take(k + 1).drop_last() =~= sheets@.take(k as int));
        }
        diagnostics_emitted = diagnostics_emitted.saturating_add(sheets[k].diagnostics.len() as u64);
        k += 1;
    }
    proof {
        assert(sheets@.take(k as int) =~= sheets@);
    }
    proof {
        assert(spec_pair_diffs(unsorted, matched@, old_workbook, new_workbook, options, *float_oracle));
        assert(!spec_run_fails(matched@, old_workbook, new_workbook, options, *float_oracle));
    }
    if !counts_fit(&sheets) {
        return Err(SheetsDiffError::Internal { detail: string_of("summary counts do not fit") });
    }
    let summary = WorkbookDiff::derive_summary(&sheets, &workbook_diagnostics);
    emit(&mut opts, DiffEvent::Finished);
    Ok(WorkbookDiff {
        old: old_info,
        new: new_info,
        sheets,
        workbook_changes: meta_changes,
        object_changes: Vec::new(),
        diagnostics: workbook_diagnostics,
        summary,
        metrics: DiffMetrics {
            sheets_read,
            cells_read: total_cells_read,
            cells_compared: total_cells_compared,
            diffs_emitted,
            diagnostics_emitted,
        },
    })
}

} // verus!