//! The comparison pipeline: retaining each sheet's populated cells, building
//! the coordinates to compare (positionally, or through a row alignment), and
//! comparing the cells at each of them.

use vstd::prelude::*;

use crate::address::{
    cell_pos_to_a1, spec_a1, spec_max_corner, spec_min_corner, CellAddress, ComparedRange,
};
use crate::align::{spec_span_ok, RowMapping, RowSpan};
use crate::row_order::spec_mapping_ordered;
use crate::compare::{
    compare_formulas, compare_values, lemma_compare_result_unique, oracle_deterministic,
    oracle_total, spec_formula_change, spec_value_change, FloatQuestion,
};
use crate::error::{LimitKind, SheetsDiffError};
use crate::matcher::MatchedPair;
use crate::model::{
    AlignmentSummary, CellDiff, CellValue, Diagnostic, DiagnosticKind, DiagnosticLocation,
    DiffStage, FormulaChange, Severity, SheetChange, SheetDiff, SheetRef, SheetSummary,
    ValueChange,
};
use crate::options::{cancel_outcome, ComparisonOptions, DiffOptions};
use crate::strings::push_str;
use crate::cells::{
    lemma_row_cells_absent, lemma_run_bounds, lemma_run_cells, row_end, spec_cells_sorted,
    spec_key_lt, spec_row_cells, spec_row_run, CellEntry,
};

verus! {

/// A coordinate to compare, tagged with the row-numbering space it comes from,
/// so that an old-row number and an unrelated new-row number never merge.
///
/// Ordering is by `(row, col)` first; the variant only breaks ties.
#[derive(Clone, Copy, PartialEq, Eq, Debug)]
pub enum CoordKey {
    /// Matched or removed: the row is in the old sheet's row space.
    Old(u32, u32),
    /// Inserted: the row is in the new sheet's row space.
    InsertedNew(u32, u32),
    /// No alignment: both sheets share one row space.
    Positional(u32, u32),
}

/// The `(row, col)` address of a coordinate.
pub open spec fn spec_addr(k: CoordKey) -> (u32, u32) {
    match k {
        CoordKey::Old(r, c) => (r, c),
        CoordKey::InsertedNew(r, c) => (r, c),
        CoordKey::Positional(r, c) => (r, c),
    }
}

/// The tie-breaking rank of a coordinate's variant.
pub open spec fn spec_rank(k: CoordKey) -> u8 {
    match k {
        CoordKey::Old(..) => 0,
        CoordKey::InsertedNew(..) => 1,
        CoordKey::Positional(..) => 2,
    }
}

impl CoordKey {
    /// The `(row, col)` address.
    pub fn addr(&self) -> (r: (u32, u32))
        ensures
            r == spec_addr(*self),
    {
        match *self {
            CoordKey::Old(r, c) => (r, c),
            CoordKey::InsertedNew(r, c) => (r, c),
            CoordKey::Positional(r, c) => (r, c),
        }
    }

    /// The variant's rank: `Old` before `InsertedNew` before `Positional`.
    pub fn variant_rank(&self) -> (r: u8)
        ensures
            r == spec_rank(*self),
    {
        match self {
            CoordKey::Old(..) => 0,
            CoordKey::InsertedNew(..) => 1,
            CoordKey::Positional(..) => 2,
        }
    }
}

/// A coordinate and the cells compared there, as values.
pub struct ComparePoint {
    pub key: CoordKey,
    pub old: Option<CellEntry>,
    pub new: Option<CellEntry>,
}

/// A coordinate and the positions, in the two cell maps, of the cells
/// compared there.
#[derive(Clone, Copy)]
pub struct Compared {
    pub key: CoordKey,
    pub old: Option<usize>,
    pub new: Option<usize>,
}

/// The compared cells of a coordinate, as values.
pub open spec fn spec_point(oc: Seq<CellEntry>, nc: Seq<CellEntry>, c: Compared) -> ComparePoint {
    ComparePoint {
        key: c.key,
        old: match c.old {
            Some(i) => Some(oc[i as int]),
            None => None,
        },
        new: match c.new {
            Some(j) => Some(nc[j as int]),
            None => None,
        },
    }
}

/// The compared cells of a list of coordinates, as values.
pub open spec fn spec_points(oc: Seq<CellEntry>, nc: Seq<CellEntry>, cs: Seq<Compared>) -> Seq<ComparePoint> {
    cs.map_values(|c: Compared| spec_point(oc, nc, c))
}

/// The positions are inside their maps.
pub open spec fn spec_compared_in(oc: Seq<CellEntry>, nc: Seq<CellEntry>, cs: Seq<Compared>) -> bool {
    forall|k: int| 0 <= k < cs.len() ==> {
        &&& (#[trigger] cs[k]).old matches Some(i) ==> i < oc.len()
        &&& cs[k].new matches Some(j) ==> j < nc.len()
    }
}

/// The key of a row coordinate in the old space or the inserted-new space.
pub open spec fn spec_row_key(row: u32, col: u32, inserted: bool) -> CoordKey {
    if inserted {
        CoordKey::InsertedNew(row, col)
    } else {
        CoordKey::Old(row, col)
    }
}

/// The outer join, by column, of an old row's cells and a new row's cells:
/// one point per column present on either side, in column order.
pub open spec fn spec_join_row(a: Seq<CellEntry>, b: Seq<CellEntry>, row: u32, inserted: bool) -> Seq<ComparePoint>
    decreases a.len() + b.len(),
{
    if a.len() == 0 && b.len() == 0 {
        Seq::empty()
    } else if b.len() == 0 || (a.len() > 0 && a[0].col < b[0].col) {
        seq![ComparePoint { key: spec_row_key(row, a[0].col, inserted), old: Some(a[0]), new: None }]
            + spec_join_row(a.drop_first(), b, row, inserted)
    } else if a.len() == 0 || b[0].col < a[0].col {
        seq![ComparePoint { key: spec_row_key(row, b[0].col, inserted), old: None, new: Some(b[0]) }]
            + spec_join_row(a, b.drop_first(), row, inserted)
    } else {
        seq![ComparePoint { key: spec_row_key(row, a[0].col, inserted), old: Some(a[0]), new: Some(b[0]) }]
            + spec_join_row(a.drop_first(), b.drop_first(), row, inserted)
    }
}

/// The outer join, by `(row, col)`, of two cell maps: one positional point
/// per coordinate present on either side, in coordinate order.
pub open spec fn spec_join_maps(a: Seq<CellEntry>, b: Seq<CellEntry>) -> Seq<ComparePoint>
    decreases a.len() + b.len(),
{
    if a.len() == 0 && b.len() == 0 {
        Seq::empty()
    } else if b.len() == 0 || (a.len() > 0 && spec_key_lt(a[0].row, a[0].col, b[0].row, b[0].col)) {
        seq![ComparePoint { key: CoordKey::Positional(a[0].row, a[0].col), old: Some(a[0]), new: None }]
            + spec_join_maps(a.drop_first(), b)
    } else if a.len() == 0 || spec_key_lt(b[0].row, b[0].col, a[0].row, a[0].col) {
        seq![ComparePoint { key: CoordKey::Positional(b[0].row, b[0].col), old: None, new: Some(b[0]) }]
            + spec_join_maps(a, b.drop_first())
    } else {
        seq![ComparePoint { key: CoordKey::Positional(a[0].row, a[0].col), old: Some(a[0]), new: Some(b[0]) }]
            + spec_join_maps(a.drop_first(), b.drop_first())
    }
}

/// Some span is of row `r`.
pub open spec fn spec_row_listed(spans: Seq<RowSpan>, r: u32) -> bool {
    exists|k: int| 0 <= k < spans.len() && #[trigger] spans[k].row == r
}

/// The runs of the rows of a sorted map, in row order.
pub open spec fn spec_spans_of(cells: Seq<CellEntry>, spans: Seq<RowSpan>) -> bool {
    &&& forall|k: int| 0 <= k < spans.len() ==> spec_span_ok(cells, #[trigger] spans[k])
    &&& forall|k: int, l: int| 0 <= k < l < spans.len() ==> #[trigger] spans[k].row < #[trigger] spans[l].row
    &&& forall|i: int| 0 <= i < cells.len() ==> spec_row_listed(spans, #[trigger] cells[i].row)
}

/// The runs of the rows of a sorted map, in row order.
pub fn row_spans(cells: &Vec<CellEntry>) -> (spans: Vec<RowSpan>)
    requires
        spec_cells_sorted(cells@),
    ensures
        spec_spans_of(cells@, spans@),
{
    let n = cells.len();
    let mut out: Vec<RowSpan> = Vec::new();
    let mut i: usize = 0;
    while i < n
        invariant
            n == cells@.len(),
            i <= n,
            spec_cells_sorted(cells@),
            i < n ==> (i == 0 || cells@[i - 1].row != cells@[i as int].row),
            forall|k: int| 0 <= k < out@.len() ==> spec_span_ok(cells@, #[trigger] out@[k]),
            forall|k: int, l: int| 0 <= k < l < out@.len() ==> #[trigger] out@[k].row < #[trigger] out@[l].row,
            forall|k: int| 0 <= k < out@.len() ==> #[trigger] out@[k].hi <= i,
            i < n ==> forall|k: int| 0 <= k < out@.len() ==> #[trigger] out@[k].row < cells@[i as int].row,
            forall|q: int| 0 <= q < i ==> spec_row_listed(out@, #[trigger] cells@[q].row),
        decreases n - i,
    {
        let hi = row_end(cells, i);
        let r = cells[i].row;
        proof {
            lemma_run_bounds(cells@, i as int, hi as int);
        }
        let ghost before = out@;
        out.push(RowSpan { row: r, lo: i, hi });
        proof {
            assert forall|q: int| 0 <= q < hi implies spec_row_listed(out@, #[trigger] cells@[q].row) by {
                if q < i {
                    assert(spec_row_listed(before, cells@[q].row));
                    let k = choose|k: int| 0 <= k < before.len() && #[trigger] before[k].row == cells@[q].row;
                    assert(out@[k] == before[k]);
                } else {
                    assert(out@[out@.len() - 1].row == cells@[q].row);
                }
            }
            if hi < n {
                assert forall|k: int| 0 <= k < out@.len() implies #[trigger] out@[k].row < cells@[hi as int].row by {
                    if k < before.len() {
                        assert(out@[k] == before[k]);
                    }
                }
            }
        }
        i = hi;
    }
    out
}

/// The run of row `r`, if the map has one.
pub fn find_span(cells: &Vec<CellEntry>, spans: &Vec<RowSpan>, r: u32) -> (sp: Option<RowSpan>)
    requires
        spec_cells_sorted(cells@),
        spec_spans_of(cells@, spans@),
    ensures
        sp matches Some(s) ==> s.row == r && spec_span_ok(cells@, s) && spec_row_cells(cells@, r)
            == cells@.subrange(s.lo as int, s.hi as int),
        sp is None ==> spec_row_cells(cells@, r) == Seq::<CellEntry>::empty(),
{
    let mut lo: usize = 0;
    let mut hi: usize = spans.len();
    while lo < hi
        invariant
            hi <= spans@.len(),
            lo <= hi,
            spec_cells_sorted(cells@),
            spec_spans_of(cells@, spans@),
            forall|k: int| 0 <= k < lo ==> #[trigger] spans@[k].row < r,
            forall|k: int| hi <= k < spans@.len() ==> #[trigger] spans@[k].row > r,
        decreases hi - lo,
    {
        let mid = lo + (hi - lo) / 2;
        let m = spans[mid];
        if m.row == r {
            proof {
                lemma_run_cells(cells@, m.lo as int, m.hi as int);
            }
            return Some(m);
        } else if m.row < r {
            proof {
                assert forall|k: int| 0 <= k < mid + 1 implies #[trigger] spans@[k].row < r by {
                    if k < mid {
                        assert(spans@[k].row < spans@[mid as int].row);
                    }
                }
            }
            lo = mid + 1;
        } else {
            proof {
                assert forall|k: int| mid <= k < spans@.len() implies #[trigger] spans@[k].row > r by {
                    if k > mid {
                        assert(spans@[mid as int].row < spans@[k].row);
                    }
                }
            }
            hi = mid;
        }
    }
    proof {
        assert forall|i: int| 0 <= i < cells@.len() implies #[trigger] cells@[i].row != r by {
            assert(spec_row_listed(spans@, cells@[i].row));
            let k = choose|k: int| 0 <= k < spans@.len() && #[trigger] spans@[k].row == cells@[i].row;
        }
        lemma_row_cells_absent(cells@, r);
    }
    None
}

proof fn lemma_points_push(oc: Seq<CellEntry>, nc: Seq<CellEntry>, cs: Seq<Compared>, c: Compared)
    ensures
        spec_points(oc, nc, cs.push(c)) == spec_points(oc, nc, cs).push(spec_point(oc, nc, c)),
{
    assert(spec_points(oc, nc, cs.push(c)) =~= spec_points(oc, nc, cs).push(spec_point(oc, nc, c)));
}

/// Appends the outer join by column of the runs `oc[olo..ohi)` and
/// `nc[nlo..nhi)`, keyed by `row`.
fn join_row(
    oc: &Vec<CellEntry>,
    olo: usize,
    ohi: usize,
    nc: &Vec<CellEntry>,
    nlo: usize,
    nhi: usize,
    row: u32,
    inserted: bool,
    out: &mut Vec<Compared>,
)
    requires
        olo <= ohi <= oc@.len(),
        nlo <= nhi <= nc@.len(),
        spec_compared_in(oc@, nc@, old(out)@),
    ensures
        spec_compared_in(oc@, nc@, final(out)@),
        spec_points(oc@, nc@, final(out)@) == spec_points(oc@, nc@, old(out)@) + spec_join_row(
            oc@.subrange(olo as int, ohi as int),
            nc@.subrange(nlo as int, nhi as int),
            row,
            inserted,
        ),
{
    let ghost start = spec_points(oc@, nc@, out@);
    let ghost whole = spec_join_row(oc@.subrange(olo as int, ohi as int), nc@.subrange(nlo as int, nhi as int), row, inserted);
    let mut i = olo;
    let mut j = nlo;
    proof {
        assert(start + whole =~= start + spec_join_row(
            oc@.subrange(i as int, ohi as int),
            nc@.subrange(j as int, nhi as int),
            row,
            inserted,
        ));
    }
    while i < ohi || j < nhi
        invariant
            olo <= i <= ohi <= oc@.len(),
            nlo <= j <= nhi <= nc@.len(),
            spec_compared_in(oc@, nc@, out@),
            spec_points(oc@, nc@, out@) + spec_join_row(
                oc@.subrange(i as int, ohi as int),
                nc@.subrange(j as int, nhi as int),
                row,
                inserted,
            ) == start + whole,
        decreases ohi - i + nhi - j,
    {
        let ghost a = oc@.subrange(i as int, ohi as int);
        let ghost b = nc@.subrange(j as int, nhi as int);
        let ghost before = out@;
        let c: Compared;
        if j >= nhi || (i < ohi && oc[i].col < nc[j].col) {
            let key = if inserted { CoordKey::InsertedNew(row, oc[i].col) } else { CoordKey::Old(row, oc[i].col) };
            c = Compared { key, old: Some(i), new: None };
            proof {
                assert(a.drop_first() =~= oc@.subrange(i + 1, ohi as int));
                assert(a[0] == oc@[i as int]);
            }
            i += 1;
        } else if i >= ohi || nc[j].col < oc[i].col {
            let key = if inserted { CoordKey::InsertedNew(row, nc[j].col) } else { CoordKey::Old(row, nc[j].col) };
            c = Compared { key, old: None, new: Some(j) };
            proof {
                assert(b.drop_first() =~= nc@.subrange(j + 1, nhi as int));
                assert(b[0] == nc@[j as int]);
            }
            j += 1;
        } else {
            let key = if inserted { CoordKey::InsertedNew(row, oc[i].col) } else { CoordKey::Old(row, oc[i].col) };
            c = Compared { key, old: Some(i), new: Some(j) };
            proof {
                assert(a.drop_first() =~= oc@.subrange(i + 1, ohi as int));
                assert(b.drop_first() =~= nc@.subrange(j + 1, nhi as int));
                assert(a[0] == oc@[i as int]);
                assert(b[0] == nc@[j as int]);
            }
            i += 1;
            j += 1;
        }
        out.push(c);
        proof {
            lemma_points_push(oc@, nc@, before, c);
            assert(spec_points(oc@, nc@, out@) + spec_join_row(
                oc@.subrange(i as int, ohi as int),
                nc@.subrange(j as int, nhi as int),
                row,
                inserted,
            ) =~= spec_points(oc@, nc@, before) + spec_join_row(a, b, row, inserted));
        }
    }
    proof {
        assert(spec_join_row(
            oc@.subrange(i as int, ohi as int),
            nc@.subrange(j as int, nhi as int),
            row,
            inserted,
        ) =~= Seq::<ComparePoint>::empty());
        assert(spec_points(oc@, nc@, out@) =~= start + whole);
    }
}

/// The positional coordinates of two cell maps: the outer join by `(row, col)`.
pub fn positional_coords(oc: &Vec<CellEntry>, nc: &Vec<CellEntry>) -> (cs: Vec<Compared>)
    ensures
        spec_compared_in(oc@, nc@, cs@),
        spec_points(oc@, nc@, cs@) == spec_join_maps(oc@, nc@),
{
    let mut out: Vec<Compared> = Vec::new();
    let ghost whole = spec_join_maps(oc@, nc@);
    let mut i: usize = 0;
    let mut j: usize = 0;
    proof {
        assert(oc@.subrange(0, oc@.len() as int) =~= oc@);
        assert(nc@.subrange(0, nc@.len() as int) =~= nc@);
        assert(spec_points(oc@, nc@, out@) + whole =~= whole);
    }
    while i < oc.len() || j < nc.len()
        invariant
            i <= oc@.len(),
            j <= nc@.len(),
            spec_compared_in(oc@, nc@, out@),
            spec_points(oc@, nc@, out@) + spec_join_maps(
                oc@.subrange(i as int, oc@.len() as int),
                nc@.subrange(j as int, nc@.len() as int),
            ) == whole,
        decreases oc@.len() - i + nc@.len() - j,
    {
        let ghost a = oc@.subrange(i as int, oc@.len() as int);
        let ghost b = nc@.subrange(j as int, nc@.len() as int);
        let ghost before = out@;
        let c: Compared;
        if j >= nc.len() || (i < oc.len() && (oc[i].row < nc[j].row || (oc[i].row == nc[j].row
            && oc[i].col < nc[j].col))) {
            c = Compared { key: CoordKey::Positional(oc[i].row, oc[i].col), old: Some(i), new: None };
            proof {
                assert(a.drop_first() =~= oc@.subrange(i + 1, oc@.len() as int));
                assert(a[0] == oc@[i as int]);
            }
            i += 1;
        } else if i >= oc.len() || (nc[j].row < oc[i].row || (nc[j].row == oc[i].row && nc[j].col
            < oc[i].col)) {
            c = Compared { key: CoordKey::Positional(nc[j].row, nc[j].col), old: None, new: Some(j) };
            proof {
                assert(b.drop_first() =~= nc@.subrange(j + 1, nc@.len() as int));
                assert(b[0] == nc@[j as int]);
            }
            j += 1;
        } else {
            c = Compared { key: CoordKey::Positional(oc[i].row, oc[i].col), old: Some(i), new: Some(j) };
            proof {
                assert(a.drop_first() =~= oc@.subrange(i + 1, oc@.len() as int));
                assert(b.drop_first() =~= nc@.subrange(j + 1, nc@.len() as int));
                assert(a[0] == oc@[i as int]);
                assert(b[0] == nc@[j as int]);
            }
            i += 1;
            j += 1;
        }
        out.push(c);
        proof {
            lemma_points_push(oc@, nc@, before, c);
            assert(spec_points(oc@, nc@, out@) + spec_join_maps(
                oc@.subrange(i as int, oc@.len() as int),
                nc@.subrange(j as int, nc@.len() as int),
            ) =~= spec_points(oc@, nc@, before) + spec_join_maps(a, b));
        }
    }
    proof {
        assert(spec_join_maps(
            oc@.subrange(i as int, oc@.len() as int),
            nc@.subrange(j as int, nc@.len() as int),
        ) =~= Seq::<ComparePoint>::empty());
        assert(spec_points(oc@, nc@, out@) =~= whole);
    }
    out
}

/// The old-space rows of a mapping: the matched rows (each with its new row)
/// and the removed rows, merged by old row, matched first on a tie.
pub open spec fn spec_old_space(matched: Seq<(u32, u32)>, removed: Seq<u32>) -> Seq<(u32, Option<u32>)>
    decreases matched.len() + removed.len(),
{
    if matched.len() == 0 && removed.len() == 0 {
        Seq::empty()
    } else if removed.len() == 0 || (matched.len() > 0 && matched[0].0 <= removed[0]) {
        seq![(matched[0].0, Some(matched[0].1))] + spec_old_space(matched.drop_first(), removed)
    } else {
        seq![(removed[0], None)] + spec_old_space(matched, removed.drop_first())
    }
}

/// The points of the old-space rows: for each, the outer join by column of
/// the old row's cells with its new row's cells (none for a removed row).
pub open spec fn spec_old_space_points(oc: Seq<CellEntry>, nc: Seq<CellEntry>, rows: Seq<(u32, Option<u32>)>) -> Seq<ComparePoint>
    decreases rows.len(),
{
    if rows.len() == 0 {
        Seq::empty()
    } else {
        let r = rows.last();
        spec_old_space_points(oc, nc, rows.drop_last()) + spec_join_row(
            spec_row_cells(oc, r.0),
            match r.1 {
                Some(n) => spec_row_cells(nc, n),
                None => Seq::empty(),
            },
            r.0,
            false,
        )
    }
}

/// The points of the inserted rows: each new row's cells, in the new row space.
pub open spec fn spec_inserted_points(nc: Seq<CellEntry>, rows: Seq<u32>) -> Seq<ComparePoint>
    decreases rows.len(),
{
    if rows.len() == 0 {
        Seq::empty()
    } else {
        spec_inserted_points(nc, rows.drop_last()) + spec_join_row(
            Seq::empty(),
            spec_row_cells(nc, rows.last()),
            rows.last(),
            true,
        )
    }
}

/// The merge of two point lists by `(row, col)`, the left one first on a tie.
pub open spec fn spec_merge_points(a: Seq<ComparePoint>, b: Seq<ComparePoint>) -> Seq<ComparePoint>
    decreases a.len() + b.len(),
{
    if a.len() == 0 {
        b
    } else if b.len() == 0 {
        a
    } else if spec_key_lt(spec_addr(b[0].key).0, spec_addr(b[0].key).1, spec_addr(a[0].key).0, spec_addr(a[0].key).1) {
        seq![b[0]] + spec_merge_points(a, b.drop_first())
    } else {
        seq![a[0]] + spec_merge_points(a.drop_first(), b)
    }
}

/// The points compared under a row mapping: the old-space points merged with
/// the inserted points, by `(row, col)`.
pub open spec fn spec_aligned_points(oc: Seq<CellEntry>, nc: Seq<CellEntry>, m: RowMapping) -> Seq<ComparePoint> {
    spec_merge_points(
        spec_old_space_points(oc, nc, spec_old_space(m.matched@, m.removed@)),
        spec_inserted_points(nc, m.inserted@),
    )
}

fn old_space_rows(matched: &Vec<(u32, u32)>, removed: &Vec<u32>) -> (r: Vec<(u32, Option<u32>)>)
    ensures
        r@ == spec_old_space(matched@, removed@),
{
    let mut out: Vec<(u32, Option<u32>)> = Vec::new();
    let mut i: usize = 0;
    let mut j: usize = 0;
    proof {
        assert(matched@.skip(0) =~= matched@);
        assert(removed@.skip(0) =~= removed@);
        assert(out@ + spec_old_space(matched@, removed@) =~= spec_old_space(matched@, removed@));
    }
    while i < matched.len() || j < removed.len()
        invariant
            i <= matched@.len(),
            j <= removed@.len(),
            out@ + spec_old_space(matched@.skip(i as int), removed@.skip(j as int)) == spec_old_space(matched@, removed@),
        decreases matched@.len() - i + removed@.len() - j,
    {
        let ghost x = matched@.skip(i as int);
        let ghost y = removed@.skip(j as int);
        if j >= removed.len() || (i < matched.len() && matched[i].0 <= removed[j]) {
            proof {
                assert(x.drop_first() =~= matched@.skip(i + 1));
            }
            out.push((matched[i].0, Some(matched[i].1)));
            i += 1;
        } else {
            proof {
                assert(y.drop_first() =~= removed@.skip(j + 1));
            }
            out.push((removed[j], None));
            j += 1;
        }
        proof {
            assert(out@ + spec_old_space(matched@.skip(i as int), removed@.skip(j as int)) =~= spec_old_space(matched@, removed@));
        }
    }
    proof {
        assert(spec_old_space(matched@.skip(i as int), removed@.skip(j as int)) =~= Seq::<(u32, Option<u32>)>::empty());
        assert(out@ =~= spec_old_space(matched@, removed@));
    }
    out
}

fn merge_points(oc: &Vec<CellEntry>, nc: &Vec<CellEntry>, a: &Vec<Compared>, b: &Vec<Compared>) -> (r: Vec<Compared>)
    requires
        spec_compared_in(oc@, nc@, a@),
        spec_compared_in(oc@, nc@, b@),
    ensures
        spec_compared_in(oc@, nc@, r@),
        spec_points(oc@, nc@, r@) == spec_merge_points(spec_points(oc@, nc@, a@), spec_points(oc@, nc@, b@)),
{
    let ghost pa = spec_points(oc@, nc@, a@);
    let ghost pb = spec_points(oc@, nc@, b@);
    let mut out: Vec<Compared> = Vec::new();
    let mut i: usize = 0;
    let mut j: usize = 0;
    proof {
        assert(pa.skip(0) =~= pa);
        assert(pb.skip(0) =~= pb);
        assert(spec_points(oc@, nc@, out@) + spec_merge_points(pa, pb) =~= spec_merge_points(pa, pb));
    }
    while i < a.len() || j < b.len()
        invariant
            i <= a@.len(),
            j <= b@.len(),
            pa == spec_points(oc@, nc@, a@),
            pb == spec_points(oc@, nc@, b@),
            spec_compared_in(oc@, nc@, a@),
            spec_compared_in(oc@, nc@, b@),
            spec_compared_in(oc@, nc@, out@),
            spec_points(oc@, nc@, out@) + spec_merge_points(pa.skip(i as int), pb.skip(j as int)) == spec_merge_points(pa, pb),
        decreases a@.len() - i + b@.len() - j,
    {
        let ghost x = pa.skip(i as int);
        let ghost y = pb.skip(j as int);
        let ghost before = out@;
        let take_b = if i >= a.len() {
            true
        } else if j >= b.len() {
            false
        } else {
            let (ar, ac) = a[i].key.addr();
            let (br, bc) = b[j].key.addr();
            br < ar || (br == ar && bc < ac)
        };
        let c: Compared;
        if take_b {
            c = b[j];
            proof {
                assert(y.drop_first() =~= pb.skip(j + 1));
                assert(y[0] == spec_point(oc@, nc@, c));
                if x.len() > 0 {
                    assert(x[0] == spec_point(oc@, nc@, a@[i as int]));
                }
            }
            j += 1;
        } else {
            c = a[i];
            proof {
                assert(x.drop_first() =~= pa.skip(i + 1));
                assert(x[0] == spec_point(oc@, nc@, c));
                if y.len() > 0 {
                    assert(y[0] == spec_point(oc@, nc@, b@[j as int]));
                } else {
                    assert(x =~= seq![x[0]] + x.drop_first());
                }
            }
            i += 1;
        }
        out.push(c);
        proof {
            lemma_points_push(oc@, nc@, before, c);
            assert(spec_points(oc@, nc@, out@) + spec_merge_points(pa.skip(i as int), pb.skip(j as int)) =~= spec_points(oc@, nc@, before) + spec_merge_points(x, y));
        }
    }
    proof {
        assert(spec_merge_points(pa.skip(i as int), pb.skip(j as int)) =~= Seq::<ComparePoint>::empty());
        assert(spec_points(oc@, nc@, out@) =~= spec_merge_points(pa, pb));
    }
    out
}

/// The coordinates compared under a row mapping (see `spec_aligned_points`).
#[verifier::rlimit(50)]
pub fn aligned_coords(oc: &Vec<CellEntry>, nc: &Vec<CellEntry>, m: &RowMapping) -> (cs: Vec<Compared>)
    requires
        spec_cells_sorted(oc@),
        spec_cells_sorted(nc@),
    ensures
        spec_compared_in(oc@, nc@, cs@),
        spec_points(oc@, nc@, cs@) == spec_aligned_points(oc@, nc@, *m),
{
    let ospans = row_spans(oc);
    let nspans = row_spans(nc);
    let rows = old_space_rows(&m.matched, &m.removed);
    let mut olds: Vec<Compared> = Vec::new();
    let mut k: usize = 0;
    while k < rows.len()
        invariant
            k <= rows@.len(),
            spec_cells_sorted(oc@),
            spec_cells_sorted(nc@),
            spec_spans_of(oc@, ospans@),
            spec_spans_of(nc@, nspans@),
            spec_compared_in(oc@, nc@, olds@),
            spec_points(oc@, nc@, olds@) == spec_old_space_points(oc@, nc@, rows@.take(k as int)),
        decreases rows@.len() - k,
    {
        let (o, partner) = rows[k];
        let (olo, ohi) = match find_span(oc, &ospans, o) {
            Some(sp) => (sp.lo, sp.hi),
            None => (0, 0),
        };
        let (nlo, nhi) = match partner {
            Some(n) => match find_span(nc, &nspans, n) {
                Some(sp) => (sp.lo, sp.hi),
                None => (0, 0),
            },
            None => (0, 0),
        };
        proof {
            assert(oc@.subrange(0, 0) =~= Seq::<CellEntry>::empty());
            assert(nc@.subrange(0, 0) =~= Seq::<CellEntry>::empty());
            assert(rows@.take(k + 1).drop_last() =~= rows@.take(k as int));
            assert(rows@.take(k + 1).last() == rows@[k as int]);
        }
        join_row(oc, olo, ohi, nc, nlo, nhi, o, false, &mut olds);
        k += 1;
    }
    proof {
        assert(rows@.take(rows@.len() as int) =~= rows@);
    }
    let mut ins: Vec<Compared> = Vec::new();
    let mut k: usize = 0;
    while k < m.inserted.len()
        invariant
            k <= m.inserted@.len(),
            spec_cells_sorted(nc@),
            spec_spans_of(nc@, nspans@),
            spec_compared_in(oc@, nc@, ins@),
            spec_points(oc@, nc@, ins@) == spec_inserted_points(nc@, m.inserted@.take(k as int)),
        decreases m.inserted@.len() - k,
    {
        let r = m.inserted[k];
        let (nlo, nhi) = match find_span(nc, &nspans, r) {
            Some(sp) => (sp.lo, sp.hi),
            None => (0, 0),
        };
        proof {
            assert(oc@.subrange(0, 0) =~= Seq::<CellEntry>::empty());
            assert(nc@.subrange(0, 0) =~= Seq::<CellEntry>::empty());
            assert(m.inserted@.take(k + 1).drop_last() =~= m.inserted@.take(k as int));
        }
        join_row(oc, 0, 0, nc, nlo, nhi, r, true, &mut ins);
        k += 1;
    }
    proof {
        assert(m.inserted@.take(m.inserted@.len() as int) =~= m.inserted@);
    }
    merge_points(oc, nc, &olds, &ins)
}

/// Mid-sheet cancellation polling interval, in cells.
pub const CANCEL_POLL_INTERVAL: usize = 50_000;

/// `Err(Cancelled)` if a cancellation predicate is configured and has fired.
pub fn check_cancel(opts: &DiffOptions) -> (r: Result<(), SheetsDiffError>)
    ensures
        r is Err ==> opts.execution.cancellation is Some && r == Err::<(), SheetsDiffError>(SheetsDiffError::Cancelled),
{
    match &opts.execution.cancellation {
        Some(c) => cancel_outcome(c.is_cancelled()),
        None => Ok(()),
    }
}

/// `a + b`, or `u64::MAX` where that does not fit.
pub open spec fn spec_sat_add(a: int, b: int) -> int {
    if a + b > u64::MAX {
        u64::MAX as int
    } else {
        a + b
    }
}

/// The old cell's value at a point; an absent cell reads as `Empty`.
pub open spec fn spec_old_value(p: ComparePoint) -> CellValue {
    match p.old {
        Some(e) => e.value,
        None => CellValue::Empty,
    }
}

/// The new cell's value at a point; an absent cell reads as `Empty`.
pub open spec fn spec_new_value(p: ComparePoint) -> CellValue {
    match p.new {
        Some(e) => e.value,
        None => CellValue::Empty,
    }
}

/// The old cell's formula at a point.
pub open spec fn spec_old_formula(p: ComparePoint) -> Option<String> {
    match p.old {
        Some(e) => e.formula,
        None => None,
    }
}

/// The new cell's formula at a point.
pub open spec fn spec_new_formula(p: ComparePoint) -> Option<String> {
    match p.new {
        Some(e) => e.formula,
        None => None,
    }
}

/// The value change at a point.
pub open spec fn spec_point_value<F: Fn(FloatQuestion) -> bool>(f: F, p: ComparePoint, opts: ComparisonOptions) -> Option<ValueChange> {
    spec_value_change(f, spec_old_value(p), spec_new_value(p), opts.value)
}

/// The formula change at a point.
pub open spec fn spec_point_formula(p: ComparePoint, opts: ComparisonOptions) -> Option<FormulaChange> {
    spec_formula_change(spec_old_formula(p), spec_new_formula(p), opts.formula)
}

/// The value or the formula differs at the point.
pub open spec fn spec_point_changed<F: Fn(FloatQuestion) -> bool>(f: F, p: ComparePoint, opts: ComparisonOptions) -> bool {
    spec_point_value(f, p, opts) is Some || spec_point_formula(p, opts) is Some
}

/// The points at which something differs, in order.
pub open spec fn spec_changed_points<F: Fn(FloatQuestion) -> bool>(f: F, ps: Seq<ComparePoint>, opts: ComparisonOptions) -> Seq<ComparePoint>
    decreases ps.len(),
{
    if ps.len() == 0 {
        Seq::empty()
    } else {
        let p = spec_changed_points(f, ps.drop_last(), opts);
        if spec_point_changed(f, ps.last(), opts) {
            p.push(ps.last())
        } else {
            p
        }
    }
}

/// The number of points whose value differs.
pub open spec fn spec_count_values<F: Fn(FloatQuestion) -> bool>(f: F, ps: Seq<ComparePoint>, opts: ComparisonOptions) -> nat
    decreases ps.len(),
{
    if ps.len() == 0 {
        0
    } else {
        spec_count_values(f, ps.drop_last(), opts) + if spec_point_value(f, ps.last(), opts) is Some {
            1nat
        } else {
            0nat
        }
    }
}

/// The number of points whose formula differs.
pub open spec fn spec_count_formulas<F: Fn(FloatQuestion) -> bool>(f: F, ps: Seq<ComparePoint>, opts: ComparisonOptions) -> nat
    decreases ps.len(),
{
    if ps.len() == 0 {
        0
    } else {
        spec_count_formulas(f, ps.drop_last(), opts) + if spec_point_formula(ps.last(), opts) is Some {
            1nat
        } else {
            0nat
        }
    }
}

/// `d` is the cell diff reported at point `p`.
pub open spec fn spec_is_cell_diff<F: Fn(FloatQuestion) -> bool>(d: CellDiff, p: ComparePoint, f: F, opts: ComparisonOptions) -> bool {
    &&& d.address.row == spec_addr(p.key).0
    &&& d.address.col == spec_addr(p.key).1
    &&& d.address.wf()
    &&& d.value == spec_point_value(f, p, opts)
    &&& d.formula == spec_point_formula(p, opts)
    &&& d.format is None
    &&& d.diagnostics@.len() == 0
}

/// The cell diffs are those of the changed points, in order.
pub open spec fn spec_cell_diffs<F: Fn(FloatQuestion) -> bool>(ds: Seq<CellDiff>, ps: Seq<ComparePoint>, f: F, opts: ComparisonOptions) -> bool {
    let ch = spec_changed_points(f, ps, opts);
    &&& ds.len() == ch.len()
    &&& forall|k: int| 0 <= k < ds.len() ==> spec_is_cell_diff(#[trigger] ds[k], ch[k], f, opts)
}

/// The points' addresses strictly increase in `(row, col)` order.
pub open spec fn spec_points_strictly_ordered(ps: Seq<ComparePoint>) -> bool {
    forall|i: int, j: int|
        0 <= i < j < ps.len() ==> spec_key_lt(
            spec_addr(#[trigger] ps[i].key).0,
            spec_addr(ps[i].key).1,
            spec_addr(#[trigger] ps[j].key).0,
            spec_addr(ps[j].key).1,
        )
}

/// Every point of the join is at the address of a cell of one of its maps.
proof fn lemma_join_members(a: Seq<CellEntry>, b: Seq<CellEntry>)
    ensures
        forall|k: int| 0 <= k < spec_join_maps(a, b).len() ==> {
            ||| exists|i: int| 0 <= i < a.len() && spec_addr(#[trigger] spec_join_maps(a, b)[k].key) == (a[i].row, a[i].col)
            ||| exists|j: int| 0 <= j < b.len() && spec_addr(spec_join_maps(a, b)[k].key) == (b[j].row, b[j].col)
        },
    decreases a.len() + b.len(),
{
    if a.len() == 0 && b.len() == 0 {
    } else if b.len() == 0 || (a.len() > 0 && spec_key_lt(a[0].row, a[0].col, b[0].row, b[0].col)) {
        lemma_join_members(a.drop_first(), b);
        let t = spec_join_maps(a.drop_first(), b);
        assert forall|k: int| 0 <= k < spec_join_maps(a, b).len() implies {
            ||| exists|i: int| 0 <= i < a.len() && spec_addr(#[trigger] spec_join_maps(a, b)[k].key) == (a[i].row, a[i].col)
            ||| exists|j: int| 0 <= j < b.len() && spec_addr(spec_join_maps(a, b)[k].key) == (b[j].row, b[j].col)
        } by {
            if k == 0 {
                assert(spec_addr(spec_join_maps(a, b)[k].key) == (a[0].row, a[0].col));
            } else {
                assert(spec_join_maps(a, b)[k] == t[k - 1]);
                if exists|i: int| 0 <= i < a.drop_first().len() && spec_addr(t[k - 1].key) == (a.drop_first()[i].row, a.drop_first()[i].col) {
                    let i = choose|i: int| 0 <= i < a.drop_first().len() && spec_addr(t[k - 1].key) == (a.drop_first()[i].row, a.drop_first()[i].col);
                    assert(a.drop_first()[i] == a[i + 1]);
                }
            }
        }
    } else if a.len() == 0 || spec_key_lt(b[0].row, b[0].col, a[0].row, a[0].col) {
        lemma_join_members(a, b.drop_first());
        let t = spec_join_maps(a, b.drop_first());
        assert forall|k: int| 0 <= k < spec_join_maps(a, b).len() implies {
            ||| exists|i: int| 0 <= i < a.len() && spec_addr(#[trigger] spec_join_maps(a, b)[k].key) == (a[i].row, a[i].col)
            ||| exists|j: int| 0 <= j < b.len() && spec_addr(spec_join_maps(a, b)[k].key) == (b[j].row, b[j].col)
        } by {
            if k == 0 {
                assert(spec_addr(spec_join_maps(a, b)[k].key) == (b[0].row, b[0].col));
            } else {
                assert(spec_join_maps(a, b)[k] == t[k - 1]);
                if exists|j: int| 0 <= j < b.drop_first().len() && spec_addr(t[k - 1].key) == (b.drop_first()[j].row, b.drop_first()[j].col) {
                    let j = choose|j: int| 0 <= j < b.drop_first().len() && spec_addr(t[k - 1].key) == (b.drop_first()[j].row, b.drop_first()[j].col);
                    assert(b.drop_first()[j] == b[j + 1]);
                }
            }
        }
    } else {
        lemma_join_members(a.drop_first(), b.drop_first());
        let t = spec_join_maps(a.drop_first(), b.drop_first());
        assert forall|k: int| 0 <= k < spec_join_maps(a, b).len() implies {
            ||| exists|i: int| 0 <= i < a.len() && spec_addr(#[trigger] spec_join_maps(a, b)[k].key) == (a[i].row, a[i].col)
            ||| exists|j: int| 0 <= j < b.len() && spec_addr(spec_join_maps(a, b)[k].key) == (b[j].row, b[j].col)
        } by {
            if k == 0 {
                assert(spec_addr(spec_join_maps(a, b)[k].key) == (a[0].row, a[0].col));
            } else {
                assert(spec_join_maps(a, b)[k] == t[k - 1]);
                if exists|i: int| 0 <= i < a.drop_first().len() && spec_addr(t[k - 1].key) == (a.drop_first()[i].row, a.drop_first()[i].col) {
                    let i = choose|i: int| 0 <= i < a.drop_first().len() && spec_addr(t[k - 1].key) == (a.drop_first()[i].row, a.drop_first()[i].col);
                    assert(a.drop_first()[i] == a[i + 1]);
                } else {
                    let j = choose|j: int| 0 <= j < b.drop_first().len() && spec_addr(t[k - 1].key) == (b.drop_first()[j].row, b.drop_first()[j].col);
                    assert(b.drop_first()[j] == b[j + 1]);
                }
            }
        }
    }
}

/// The join of two sorted maps is in strict `(row, col)` order.
proof fn lemma_join_ordered(a: Seq<CellEntry>, b: Seq<CellEntry>)
    requires
        spec_cells_sorted(a),
        spec_cells_sorted(b),
    ensures
        spec_points_strictly_ordered(spec_join_maps(a, b)),
    decreases a.len() + b.len(),
{
    let s = spec_join_maps(a, b);
    if a.len() == 0 && b.len() == 0 {
    } else {
        let (a2, b2) = if b.len() == 0 || (a.len() > 0 && spec_key_lt(a[0].row, a[0].col, b[0].row, b[0].col)) {
            (a.drop_first(), b)
        } else if a.len() == 0 || spec_key_lt(b[0].row, b[0].col, a[0].row, a[0].col) {
            (a, b.drop_first())
        } else {
            (a.drop_first(), b.drop_first())
        };
        assert(spec_cells_sorted(a2)) by {
            assert forall|i: int, j: int| 0 <= i < j < a2.len() implies spec_key_lt(#[trigger] a2[i].row, a2[i].col, #[trigger] a2[j].row, a2[j].col) by {
                if a2.len() < a.len() {
                    assert(a2[i] == a[i + 1] && a2[j] == a[j + 1]);
                }
            }
        }
        assert(spec_cells_sorted(b2)) by {
            assert forall|i: int, j: int| 0 <= i < j < b2.len() implies spec_key_lt(#[trigger] b2[i].row, b2[i].col, #[trigger] b2[j].row, b2[j].col) by {
                if b2.len() < b.len() {
                    assert(b2[i] == b[i + 1] && b2[j] == b[j + 1]);
                }
            }
        }
        lemma_join_ordered(a2, b2);
        lemma_join_members(a2, b2);
        let t = spec_join_maps(a2, b2);
        assert(s.len() == t.len() + 1);
        let h = spec_addr(s[0].key);
        assert forall|k: int| 0 <= k < t.len() implies spec_key_lt(h.0, h.1, spec_addr(#[trigger] t[k].key).0, spec_addr(t[k].key).1) by {
            if exists|i: int| 0 <= i < a2.len() && spec_addr(t[k].key) == (a2[i].row, a2[i].col) {
                let i = choose|i: int| 0 <= i < a2.len() && spec_addr(t[k].key) == (a2[i].row, a2[i].col);
                if a2.len() < a.len() {
                    assert(a2[i] == a[i + 1]);
                } else {
                    assert(a2[i] == a[i]);
                }
            } else {
                let j = choose|j: int| 0 <= j < b2.len() && spec_addr(t[k].key) == (b2[j].row, b2[j].col);
                if b2.len() < b.len() {
                    assert(b2[j] == b[j + 1]);
                } else {
                    assert(b2[j] == b[j]);
                }
            }
        }
        assert forall|i: int, j: int| 0 <= i < j < s.len() implies spec_key_lt(
            spec_addr(#[trigger] s[i].key).0,
            spec_addr(s[i].key).1,
            spec_addr(#[trigger] s[j].key).0,
            spec_addr(s[j].key).1,
        ) by {
            assert(s[j] == t[j - 1]);
            if i > 0 {
                assert(s[i] == t[i - 1]);
            }
        }
    }
}

/// The changed points are points of the list.
proof fn lemma_changed_members<F: Fn(FloatQuestion) -> bool>(f: F, ps: Seq<ComparePoint>, opts: ComparisonOptions)
    ensures
        forall|k: int| 0 <= k < spec_changed_points(f, ps, opts).len() ==> exists|i: int| 0 <= i < ps.len() && #[trigger] spec_changed_points(f, ps, opts)[k] == ps[i],
    decreases ps.len(),
{
    if ps.len() > 0 {
        lemma_changed_members(f, ps.drop_last(), opts);
        let p = spec_changed_points(f, ps.drop_last(), opts);
        assert forall|k: int| 0 <= k < spec_changed_points(f, ps, opts).len() implies exists|i: int| 0 <= i < ps.len() && #[trigger] spec_changed_points(f, ps, opts)[k] == ps[i] by {
            if k < p.len() {
                let i = choose|i: int| 0 <= i < ps.drop_last().len() && p[k] == ps.drop_last()[i];
                assert(spec_changed_points(f, ps, opts)[k] == ps[i]);
            } else {
                assert(spec_changed_points(f, ps, opts)[k] == ps[ps.len() - 1]);
            }
        }
    }
}

/// The changed points of strictly ordered points are strictly ordered.
proof fn lemma_changed_ordered<F: Fn(FloatQuestion) -> bool>(f: F, ps: Seq<ComparePoint>, opts: ComparisonOptions)
    requires
        spec_points_strictly_ordered(ps),
    ensures
        spec_points_strictly_ordered(spec_changed_points(f, ps, opts)),
    decreases ps.len(),
{
    if ps.len() > 0 {
        let q = ps.drop_last();
        assert(spec_points_strictly_ordered(q)) by {
            assert forall|i: int, j: int| 0 <= i < j < q.len() implies spec_key_lt(
                spec_addr(#[trigger] q[i].key).0,
                spec_addr(q[i].key).1,
                spec_addr(#[trigger] q[j].key).0,
                spec_addr(q[j].key).1,
            ) by {
                assert(q[i] == ps[i] && q[j] == ps[j]);
            }
        }
        lemma_changed_ordered(f, q, opts);
        lemma_changed_members(f, q, opts);
        let p = spec_changed_points(f, q, opts);
        let c = spec_changed_points(f, ps, opts);
        assert forall|i: int, j: int| 0 <= i < j < c.len() implies spec_key_lt(
            spec_addr(#[trigger] c[i].key).0,
            spec_addr(c[i].key).1,
            spec_addr(#[trigger] c[j].key).0,
            spec_addr(c[j].key).1,
        ) by {
            assert(c[i] == p[i]);
            if j < p.len() {
                assert(c[j] == p[j]);
            } else {
                let x = choose|x: int| 0 <= x < q.len() && p[i] == q[x];
                assert(c[j] == ps[ps.len() - 1]);
                assert(q[x] == ps[x]);
            }
        }
    }
}

/// Compared positionally, a sheet's cell diffs come in strict `(row, col)`
/// order: row-major, one cell diff per address.
pub proof fn lemma_positional_diffs_ordered<F: Fn(FloatQuestion) -> bool>(
    old_cells: Seq<CellEntry>,
    new_cells: Seq<CellEntry>,
    diffs: Seq<CellDiff>,
    f: F,
    opts: ComparisonOptions,
)
    requires
        spec_cells_sorted(old_cells),
        spec_cells_sorted(new_cells),
        spec_cell_diffs(diffs, spec_sheet_points(old_cells, new_cells, None), f, opts),
    ensures
        forall|i: int, j: int|
            0 <= i < j < diffs.len() ==> spec_key_lt(
                (#[trigger] diffs[i]).address.row,
                diffs[i].address.col,
                (#[trigger] diffs[j]).address.row,
                diffs[j].address.col,
            ),
{
    let ps = spec_join_maps(old_cells, new_cells);
    lemma_join_ordered(old_cells, new_cells);
    lemma_changed_ordered(f, ps, opts);
    let ch = spec_changed_points(f, ps, opts);
    assert forall|i: int, j: int| 0 <= i < j < diffs.len() implies spec_key_lt(
        (#[trigger] diffs[i]).address.row,
        diffs[i].address.col,
        (#[trigger] diffs[j]).address.row,
        diffs[j].address.col,
    ) by {
        assert(spec_is_cell_diff(diffs[i], ch[i], f, opts));
        assert(spec_is_cell_diff(diffs[j], ch[j], f, opts));
    }
}

/// The points' addresses never decrease in `(row, col)` order.
pub open spec fn spec_points_ordered(ps: Seq<ComparePoint>) -> bool {
    forall|i: int, j: int|
        0 <= i < j < ps.len() ==> !spec_key_lt(
            spec_addr(#[trigger] ps[j].key).0,
            spec_addr(ps[j].key).1,
            spec_addr(#[trigger] ps[i].key).0,
            spec_addr(ps[i].key).1,
        )
}

/// The entries' columns strictly increase.
pub open spec fn spec_cols_increasing(s: Seq<CellEntry>) -> bool {
    forall|i: int, j: int| 0 <= i < j < s.len() ==> (#[trigger] s[i]).col < (#[trigger] s[j]).col
}

/// `x` is an entry of row `r` of the map.
pub open spec fn spec_entry_of(s: Seq<CellEntry>, x: CellEntry, r: u32) -> bool {
    exists|i: int| 0 <= i < s.len() && #[trigger] s[i] == x && x.row == r
}

proof fn lemma_row_cells_members(s: Seq<CellEntry>, r: u32)
    ensures
        forall|k: int| 0 <= k < spec_row_cells(s, r).len() ==> spec_entry_of(s, #[trigger] spec_row_cells(s, r)[k], r),
    decreases s.len(),
{
    if s.len() > 0 {
        let d = s.drop_last();
        lemma_row_cells_members(d, r);
        let p = spec_row_cells(d, r);
        let c = spec_row_cells(s, r);
        assert forall|k: int| 0 <= k < c.len() implies spec_entry_of(s, #[trigger] c[k], r) by {
            if k < p.len() {
                assert(spec_entry_of(d, p[k], r));
                let i = choose|i: int| 0 <= i < d.len() && #[trigger] d[i] == p[k] && p[k].row == r;
                assert(c[k] == p[k]);
                assert(d[i] == s[i]);
            } else {
                assert(c[k] == s[s.len() - 1]);
            }
        }
    }
}

proof fn lemma_row_cells_increasing(s: Seq<CellEntry>, r: u32)
    requires
        spec_cells_sorted(s),
    ensures
        spec_cols_increasing(spec_row_cells(s, r)),
    decreases s.len(),
{
    if s.len() > 0 {
        let d = s.drop_last();
        assert(spec_cells_sorted(d)) by {
            assert forall|i: int, j: int| 0 <= i < j < d.len() implies spec_key_lt(#[trigger] d[i].row, d[i].col, #[trigger] d[j].row, d[j].col) by {
                assert(d[i] == s[i] && d[j] == s[j]);
            }
        }
        lemma_row_cells_increasing(d, r);
        lemma_row_cells_members(d, r);
        let p = spec_row_cells(d, r);
        let c = spec_row_cells(s, r);
        assert forall|i: int, j: int| 0 <= i < j < c.len() implies (#[trigger] c[i]).col < (#[trigger] c[j]).col by {
            if j < p.len() {
                assert(c[i] == p[i] && c[j] == p[j]);
            } else {
                assert(c[j] == s[s.len() - 1]);
                assert(c[i] == p[i]);
                assert(spec_entry_of(d, p[i], r));
                let x = choose|x: int| 0 <= x < d.len() && #[trigger] d[x] == p[i] && p[i].row == r;
                assert(d[x] == s[x]);
                assert(spec_key_lt(s[x].row, s[x].col, s[s.len() - 1].row, s[s.len() - 1].col));
            }
        }
    }
}

proof fn lemma_join_row_members(a: Seq<CellEntry>, b: Seq<CellEntry>, row: u32, inserted: bool)
    ensures
        forall|k: int| 0 <= k < spec_join_row(a, b, row, inserted).len() ==> {
            &&& spec_addr(#[trigger] spec_join_row(a, b, row, inserted)[k].key).0 == row
            &&& {
                ||| exists|i: int| 0 <= i < a.len() && spec_addr(spec_join_row(a, b, row, inserted)[k].key).1 == a[i].col
                ||| exists|j: int| 0 <= j < b.len() && spec_addr(spec_join_row(a, b, row, inserted)[k].key).1 == b[j].col
            }
        },
    decreases a.len() + b.len(),
{
    let s = spec_join_row(a, b, row, inserted);
    if a.len() == 0 && b.len() == 0 {
    } else {
        let (a2, b2) = if b.len() == 0 || (a.len() > 0 && a[0].col < b[0].col) {
            (a.drop_first(), b)
        } else if a.len() == 0 || b[0].col < a[0].col {
            (a, b.drop_first())
        } else {
            (a.drop_first(), b.drop_first())
        };
        lemma_join_row_members(a2, b2, row, inserted);
        let t = spec_join_row(a2, b2, row, inserted);
        assert forall|k: int| 0 <= k < s.len() implies {
            &&& spec_addr(#[trigger] s[k].key).0 == row
            &&& {
                ||| exists|i: int| 0 <= i < a.len() && spec_addr(s[k].key).1 == a[i].col
                ||| exists|j: int| 0 <= j < b.len() && spec_addr(s[k].key).1 == b[j].col
            }
        } by {
            if k == 0 {
                if a.len() > 0 && spec_addr(s[0].key).1 == a[0].col {
                } else {
                    assert(spec_addr(s[0].key).1 == b[0].col);
                }
            } else {
                assert(s[k] == t[k - 1]);
                if exists|i: int| 0 <= i < a2.len() && spec_addr(t[k - 1].key).1 == a2[i].col {
                    let i = choose|i: int| 0 <= i < a2.len() && spec_addr(t[k - 1].key).1 == a2[i].col;
                    if a2.len() < a.len() {
                        assert(a2[i] == a[i + 1]);
                    } else {
                        assert(a2[i] == a[i]);
                    }
                } else {
                    let j = choose|j: int| 0 <= j < b2.len() && spec_addr(t[k - 1].key).1 == b2[j].col;
                    if b2.len() < b.len() {
                        assert(b2[j] == b[j + 1]);
                    } else {
                        assert(b2[j] == b[j]);
                    }
                }
            }
        }
    }
}

proof fn lemma_join_row_ordered(a: Seq<CellEntry>, b: Seq<CellEntry>, row: u32, inserted: bool)
    requires
        spec_cols_increasing(a),
        spec_cols_increasing(b),
    ensures
        spec_points_strictly_ordered(spec_join_row(a, b, row, inserted)),
    decreases a.len() + b.len(),
{
    let s = spec_join_row(a, b, row, inserted);
    if a.len() == 0 && b.len() == 0 {
    } else {
        let (a2, b2) = if b.len() == 0 || (a.len() > 0 && a[0].col < b[0].col) {
            (a.drop_first(), b)
        } else if a.len() == 0 || b[0].col < a[0].col {
            (a, b.drop_first())
        } else {
            (a.drop_first(), b.drop_first())
        };
        assert(spec_cols_increasing(a2)) by {
            assert forall|i: int, j: int| 0 <= i < j < a2.len() implies (#[trigger] a2[i]).col < (#[trigger] a2[j]).col by {
                if a2.len() < a.len() {
                    assert(a2[i] == a[i + 1] && a2[j] == a[j + 1]);
                } else {
                    assert(a2[i] == a[i] && a2[j] == a[j]);
                }
            }
        }
        assert(spec_cols_increasing(b2)) by {
            assert forall|i: int, j: int| 0 <= i < j < b2.len() implies (#[trigger] b2[i]).col < (#[trigger] b2[j]).col by {
                if b2.len() < b.len() {
                    assert(b2[i] == b[i + 1] && b2[j] == b[j + 1]);
                } else {
                    assert(b2[i] == b[i] && b2[j] == b[j]);
                }
            }
        }
        lemma_join_row_ordered(a2, b2, row, inserted);
        lemma_join_row_members(a2, b2, row, inserted);
        let t = spec_join_row(a2, b2, row, inserted);
        let h = spec_addr(s[0].key);
        assert(h.0 == row);
        assert forall|k: int| 0 <= k < t.len() implies h.1 < spec_addr(#[trigger] t[k].key).1 && spec_addr(t[k].key).0 == row by {
            if exists|i: int| 0 <= i < a2.len() && spec_addr(t[k].key).1 == a2[i].col {
                let i = choose|i: int| 0 <= i < a2.len() && spec_addr(t[k].key).1 == a2[i].col;
                if a2.len() < a.len() {
                    assert(a2[i] == a[i + 1]);
                } else {
                    assert(a2[i] == a[i]);
                }
            } else {
                let j = choose|j: int| 0 <= j < b2.len() && spec_addr(t[k].key).1 == b2[j].col;
                if b2.len() < b.len() {
                    assert(b2[j] == b[j + 1]);
                } else {
                    assert(b2[j] == b[j]);
                }
            }
        }
        assert forall|i: int, j: int| 0 <= i < j < s.len() implies spec_key_lt(
            spec_addr(#[trigger] s[i].key).0,
            spec_addr(s[i].key).1,
            spec_addr(#[trigger] s[j].key).0,
            spec_addr(s[j].key).1,
        ) by {
            assert(s[j] == t[j - 1]);
            if i > 0 {
                assert(s[i] == t[i - 1]);
            }
        }
    }
}

/// `x` is the first component of some entry of the old-space rows.
pub open spec fn spec_space_row_in(rows: Seq<(u32, Option<u32>)>, x: u32) -> bool {
    exists|t: int| 0 <= t < rows.len() && #[trigger] rows[t].0 == x
}

proof fn lemma_old_space_members(matched: Seq<(u32, u32)>, removed: Seq<u32>)
    ensures
        forall|k: int| 0 <= k < spec_old_space(matched, removed).len() ==> {
            ||| exists|i: int| 0 <= i < matched.len() && #[trigger] spec_old_space(matched, removed)[k].0 == matched[i].0
            ||| exists|j: int| 0 <= j < removed.len() && spec_old_space(matched, removed)[k].0 == removed[j]
        },
    decreases matched.len() + removed.len(),
{
    let s = spec_old_space(matched, removed);
    if matched.len() == 0 && removed.len() == 0 {
    } else if removed.len() == 0 || (matched.len() > 0 && matched[0].0 <= removed[0]) {
        lemma_old_space_members(matched.drop_first(), removed);
        let t = spec_old_space(matched.drop_first(), removed);
        assert forall|k: int| 0 <= k < s.len() implies {
            ||| exists|i: int| 0 <= i < matched.len() && #[trigger] s[k].0 == matched[i].0
            ||| exists|j: int| 0 <= j < removed.len() && s[k].0 == removed[j]
        } by {
            if k == 0 {
                assert(s[0].0 == matched[0].0);
            } else {
                assert(s[k] == t[k - 1]);
                if exists|i: int| 0 <= i < matched.drop_first().len() && t[k - 1].0 == matched.drop_first()[i].0 {
                    let i = choose|i: int| 0 <= i < matched.drop_first().len() && t[k - 1].0 == matched.drop_first()[i].0;
                    assert(matched.drop_first()[i] == matched[i + 1]);
                }
            }
        }
    } else {
        lemma_old_space_members(matched, removed.drop_first());
        let t = spec_old_space(matched, removed.drop_first());
        assert forall|k: int| 0 <= k < s.len() implies {
            ||| exists|i: int| 0 <= i < matched.len() && #[trigger] s[k].0 == matched[i].0
            ||| exists|j: int| 0 <= j < removed.len() && s[k].0 == removed[j]
        } by {
            if k == 0 {
                assert(s[0].0 == removed[0]);
            } else {
                assert(s[k] == t[k - 1]);
                if exists|j: int| 0 <= j < removed.drop_first().len() && t[k - 1].0 == removed.drop_first()[j] {
                    let j = choose|j: int| 0 <= j < removed.drop_first().len() && t[k - 1].0 == removed.drop_first()[j];
                    assert(removed.drop_first()[j] == removed[j + 1]);
                }
            }
        }
    }
}

proof fn lemma_old_space_increasing(matched: Seq<(u32, u32)>, removed: Seq<u32>)
    requires
        forall|i: int, j: int| 0 <= i < j < matched.len() ==> (#[trigger] matched[i]).0 < (#[trigger] matched[j]).0,
        forall|i: int, j: int| 0 <= i < j < removed.len() ==> #[trigger] removed[i] < #[trigger] removed[j],
        forall|i: int, j: int| 0 <= i < matched.len() && 0 <= j < removed.len() ==> (#[trigger] matched[i]).0 != #[trigger] removed[j],
    ensures
        forall|i: int, j: int| 0 <= i < j < spec_old_space(matched, removed).len() ==> (#[trigger] spec_old_space(matched, removed)[i]).0 < (#[trigger] spec_old_space(matched, removed)[j]).0,
    decreases matched.len() + removed.len(),
{
    let s = spec_old_space(matched, removed);
    if matched.len() == 0 && removed.len() == 0 {
    } else {
        let take_m = removed.len() == 0 || (matched.len() > 0 && matched[0].0 <= removed[0]);
        let (m2, r2) = if take_m { (matched.drop_first(), removed) } else { (matched, removed.drop_first()) };
        assert forall|i: int, j: int| 0 <= i < j < m2.len() implies (#[trigger] m2[i]).0 < (#[trigger] m2[j]).0 by {
            if take_m { assert(m2[i] == matched[i + 1] && m2[j] == matched[j + 1]); }
        }
        assert forall|i: int, j: int| 0 <= i < j < r2.len() implies #[trigger] r2[i] < #[trigger] r2[j] by {
            if !take_m { assert(r2[i] == removed[i + 1] && r2[j] == removed[j + 1]); }
        }
        assert forall|i: int, j: int| 0 <= i < m2.len() && 0 <= j < r2.len() implies (#[trigger] m2[i]).0 != #[trigger] r2[j] by {
            if take_m { assert(m2[i] == matched[i + 1]); } else { assert(r2[j] == removed[j + 1]); }
        }
        lemma_old_space_increasing(m2, r2);
        lemma_old_space_members(m2, r2);
        let t = spec_old_space(m2, r2);
        let h = s[0].0;
        assert forall|k: int| 0 <= k < t.len() implies h < (#[trigger] t[k]).0 by {
            if exists|i: int| 0 <= i < m2.len() && t[k].0 == m2[i].0 {
                let i = choose|i: int| 0 <= i < m2.len() && t[k].0 == m2[i].0;
                if take_m {
                    assert(m2[i] == matched[i + 1]);
                } else {
                    assert(m2[i] == matched[i]);
                    if i > 0 {
                        assert(matched[0].0 < matched[i].0);
                    }
                    assert(matched[0].0 != removed[0]);
                }
            } else {
                let j = choose|j: int| 0 <= j < r2.len() && t[k].0 == r2[j];
                if take_m {
                    assert(r2[j] == removed[j]);
                    if j > 0 {
                        assert(removed[0] < removed[j]);
                    }
                    assert(matched[0].0 != removed[0]);
                } else {
                    assert(r2[j] == removed[j + 1]);
                }
            }
        }
        assert forall|i: int, j: int| 0 <= i < j < s.len() implies (#[trigger] s[i]).0 < (#[trigger] s[j]).0 by {
            assert(s[j] == t[j - 1]);
            if i > 0 {
                assert(s[i] == t[i - 1]);
            }
        }
    }
}

proof fn lemma_concat_ordered(p: Seq<ComparePoint>, q: Seq<ComparePoint>)
    requires
        spec_points_strictly_ordered(p),
        spec_points_strictly_ordered(q),
        forall|i: int, j: int| 0 <= i < p.len() && 0 <= j < q.len() ==> spec_key_lt(
            spec_addr(#[trigger] p[i].key).0,
            spec_addr(p[i].key).1,
            spec_addr(#[trigger] q[j].key).0,
            spec_addr(q[j].key).1,
        ),
    ensures
        spec_points_strictly_ordered(p + q),
{
    let s = p + q;
    assert forall|i: int, j: int| 0 <= i < j < s.len() implies spec_key_lt(
        spec_addr(#[trigger] s[i].key).0,
        spec_addr(s[i].key).1,
        spec_addr(#[trigger] s[j].key).0,
        spec_addr(s[j].key).1,
    ) by {
        if j < p.len() {
            assert(s[i] == p[i] && s[j] == p[j]);
        } else if i >= p.len() {
            assert(s[i] == q[i - p.len()] && s[j] == q[j - p.len()]);
        } else {
            assert(s[i] == p[i] && s[j] == q[j - p.len()]);
        }
    }
}

proof fn lemma_old_space_points_ordered(oc: Seq<CellEntry>, nc: Seq<CellEntry>, rows: Seq<(u32, Option<u32>)>)
    requires
        spec_cells_sorted(oc),
        spec_cells_sorted(nc),
        forall|i: int, j: int| 0 <= i < j < rows.len() ==> (#[trigger] rows[i]).0 < (#[trigger] rows[j]).0,
    ensures
        spec_points_strictly_ordered(spec_old_space_points(oc, nc, rows)),
        forall|k: int| 0 <= k < spec_old_space_points(oc, nc, rows).len() ==> spec_space_row_in(
            rows,
            spec_addr((#[trigger] spec_old_space_points(oc, nc, rows)[k]).key).0,
        ),
    decreases rows.len(),
{
    if rows.len() > 0 {
        let d = rows.drop_last();
        let r = rows.last();
        assert forall|i: int, j: int| 0 <= i < j < d.len() implies (#[trigger] d[i]).0 < (#[trigger] d[j]).0 by {
            assert(d[i] == rows[i] && d[j] == rows[j]);
        }
        lemma_old_space_points_ordered(oc, nc, d);
        let p = spec_old_space_points(oc, nc, d);
        let a = spec_row_cells(oc, r.0);
        let b = match r.1 {
            Some(n) => spec_row_cells(nc, n),
            None => Seq::empty(),
        };
        lemma_row_cells_increasing(oc, r.0);
        match r.1 {
            Some(n) => {
                lemma_row_cells_increasing(nc, n);
            },
            None => {},
        }
        lemma_join_row_ordered(a, b, r.0, false);
        lemma_join_row_members(a, b, r.0, false);
        let q = spec_join_row(a, b, r.0, false);
        assert forall|i: int, j: int| 0 <= i < p.len() && 0 <= j < q.len() implies spec_key_lt(
            spec_addr(#[trigger] p[i].key).0,
            spec_addr(p[i].key).1,
            spec_addr(#[trigger] q[j].key).0,
            spec_addr(q[j].key).1,
        ) by {
            assert(spec_space_row_in(d, spec_addr(p[i].key).0));
            let t = choose|t: int| 0 <= t < d.len() && #[trigger] d[t].0 == spec_addr(p[i].key).0;
            assert(d[t] == rows[t]);
            assert(rows[t].0 < rows[rows.len() - 1].0);
        }
        lemma_concat_ordered(p, q);
        let s = spec_old_space_points(oc, nc, rows);
        assert(s == p + q);
        assert forall|k: int| 0 <= k < s.len() implies spec_space_row_in(rows, spec_addr((#[trigger] s[k]).key).0) by {
            if k < p.len() {
                assert(s[k] == p[k]);
                assert(spec_space_row_in(d, spec_addr(p[k].key).0));
                let t = choose|t: int| 0 <= t < d.len() && #[trigger] d[t].0 == spec_addr(p[k].key).0;
                assert(d[t] == rows[t]);
            } else {
                assert(s[k] == q[k - p.len()]);
                assert(rows[rows.len() - 1] == r);
            }
        }
    }
}

/// `x` is one of the rows.
pub open spec fn spec_u32_in(rows: Seq<u32>, x: u32) -> bool {
    exists|t: int| 0 <= t < rows.len() && #[trigger] rows[t] == x
}

proof fn lemma_inserted_points_ordered(nc: Seq<CellEntry>, rows: Seq<u32>)
    requires
        spec_cells_sorted(nc),
        forall|i: int, j: int| 0 <= i < j < rows.len() ==> #[trigger] rows[i] < #[trigger] rows[j],
    ensures
        spec_points_strictly_ordered(spec_inserted_points(nc, rows)),
        forall|k: int| 0 <= k < spec_inserted_points(nc, rows).len() ==> spec_u32_in(
            rows,
            spec_addr((#[trigger] spec_inserted_points(nc, rows)[k]).key).0,
        ),
    decreases rows.len(),
{
    if rows.len() > 0 {
        let d = rows.drop_last();
        let r = rows.last();
        assert forall|i: int, j: int| 0 <= i < j < d.len() implies #[trigger] d[i] < #[trigger] d[j] by {
            assert(d[i] == rows[i] && d[j] == rows[j]);
        }
        lemma_inserted_points_ordered(nc, d);
        let p = spec_inserted_points(nc, d);
        let b = spec_row_cells(nc, r);
        lemma_row_cells_increasing(nc, r);
        lemma_join_row_ordered(Seq::empty(), b, r, true);
        lemma_join_row_members(Seq::empty(), b, r, true);
        let q = spec_join_row(Seq::empty(), b, r, true);
        assert forall|i: int, j: int| 0 <= i < p.len() && 0 <= j < q.len() implies spec_key_lt(
            spec_addr(#[trigger] p[i].key).0,
            spec_addr(p[i].key).1,
            spec_addr(#[trigger] q[j].key).0,
            spec_addr(q[j].key).1,
        ) by {
            assert(spec_u32_in(d, spec_addr(p[i].key).0));
            let t = choose|t: int| 0 <= t < d.len() && #[trigger] d[t] == spec_addr(p[i].key).0;
            assert(d[t] == rows[t]);
            assert(rows[t] < rows[rows.len() - 1]);
        }
        lemma_concat_ordered(p, q);
        let s = spec_inserted_points(nc, rows);
        assert(s == p + q);
        assert forall|k: int| 0 <= k < s.len() implies spec_u32_in(rows, spec_addr((#[trigger] s[k]).key).0) by {
            if k < p.len() {
                assert(s[k] == p[k]);
                assert(spec_u32_in(d, spec_addr(p[k].key).0));
                let t = choose|t: int| 0 <= t < d.len() && #[trigger] d[t] == spec_addr(p[k].key).0;
                assert(d[t] == rows[t]);
            } else {
                assert(s[k] == q[k - p.len()]);
                assert(rows[rows.len() - 1] == r);
            }
        }
    }
}

/// `x` is one of the points.
pub open spec fn spec_point_in(s: Seq<ComparePoint>, x: ComparePoint) -> bool {
    exists|i: int| 0 <= i < s.len() && #[trigger] s[i] == x
}

proof fn lemma_merge_members(a: Seq<ComparePoint>, b: Seq<ComparePoint>)
    ensures
        forall|k: int| 0 <= k < spec_merge_points(a, b).len() ==> spec_point_in(a, #[trigger] spec_merge_points(a, b)[k])
            || spec_point_in(b, spec_merge_points(a, b)[k]),
    decreases a.len() + b.len(),
{
    let s = spec_merge_points(a, b);
    if a.len() == 0 {
        assert forall|k: int| 0 <= k < s.len() implies spec_point_in(a, #[trigger] s[k]) || spec_point_in(b, s[k]) by {
            assert(b[k] == s[k]);
        }
    } else if b.len() == 0 {
        assert forall|k: int| 0 <= k < s.len() implies spec_point_in(a, #[trigger] s[k]) || spec_point_in(b, s[k]) by {
            assert(a[k] == s[k]);
        }
    } else if spec_key_lt(spec_addr(b[0].key).0, spec_addr(b[0].key).1, spec_addr(a[0].key).0, spec_addr(a[0].key).1) {
        lemma_merge_members(a, b.drop_first());
        let t = spec_merge_points(a, b.drop_first());
        assert forall|k: int| 0 <= k < s.len() implies spec_point_in(a, #[trigger] s[k]) || spec_point_in(b, s[k]) by {
            if k == 0 {
                assert(b[0] == s[0]);
            } else {
                assert(s[k] == t[k - 1]);
                if spec_point_in(b.drop_first(), t[k - 1]) {
                    let i = choose|i: int| 0 <= i < b.drop_first().len() && #[trigger] b.drop_first()[i] == t[k - 1];
                    assert(b[i + 1] == s[k]);
                }
            }
        }
    } else {
        lemma_merge_members(a.drop_first(), b);
        let t = spec_merge_points(a.drop_first(), b);
        assert forall|k: int| 0 <= k < s.len() implies spec_point_in(a, #[trigger] s[k]) || spec_point_in(b, s[k]) by {
            if k == 0 {
                assert(a[0] == s[0]);
            } else {
                assert(s[k] == t[k - 1]);
                if spec_point_in(a.drop_first(), t[k - 1]) {
                    let i = choose|i: int| 0 <= i < a.drop_first().len() && #[trigger] a.drop_first()[i] == t[k - 1];
                    assert(a[i + 1] == s[k]);
                }
            }
        }
    }
}

proof fn lemma_strict_is_ordered(s: Seq<ComparePoint>)
    requires
        spec_points_strictly_ordered(s),
    ensures
        spec_points_ordered(s),
{
    assert forall|i: int, j: int| 0 <= i < j < s.len() implies !spec_key_lt(
        spec_addr(#[trigger] s[j].key).0,
        spec_addr(s[j].key).1,
        spec_addr(#[trigger] s[i].key).0,
        spec_addr(s[i].key).1,
    ) by {
        assert(spec_key_lt(spec_addr(s[i].key).0, spec_addr(s[i].key).1, spec_addr(s[j].key).0, spec_addr(s[j].key).1));
    }
}

proof fn lemma_merge_ordered(a: Seq<ComparePoint>, b: Seq<ComparePoint>)
    requires
        spec_points_ordered(a),
        spec_points_ordered(b),
    ensures
        spec_points_ordered(spec_merge_points(a, b)),
    decreases a.len() + b.len(),
{
    let s = spec_merge_points(a, b);
    if a.len() == 0 || b.len() == 0 {
    } else {
        let take_b = spec_key_lt(spec_addr(b[0].key).0, spec_addr(b[0].key).1, spec_addr(a[0].key).0, spec_addr(a[0].key).1);
        let (a2, b2) = if take_b { (a, b.drop_first()) } else { (a.drop_first(), b) };
        assert(spec_points_ordered(a2)) by {
            assert forall|i: int, j: int| 0 <= i < j < a2.len() implies !spec_key_lt(
                spec_addr(#[trigger] a2[j].key).0,
                spec_addr(a2[j].key).1,
                spec_addr(#[trigger] a2[i].key).0,
                spec_addr(a2[i].key).1,
            ) by {
                if !take_b { assert(a2[i] == a[i + 1] && a2[j] == a[j + 1]); }
            }
        }
        assert(spec_points_ordered(b2)) by {
            assert forall|i: int, j: int| 0 <= i < j < b2.len() implies !spec_key_lt(
                spec_addr(#[trigger] b2[j].key).0,
                spec_addr(b2[j].key).1,
                spec_addr(#[trigger] b2[i].key).0,
                spec_addr(b2[i].key).1,
            ) by {
                if take_b { assert(b2[i] == b[i + 1] && b2[j] == b[j + 1]); }
            }
        }
        lemma_merge_ordered(a2, b2);
        lemma_merge_members(a2, b2);
        let t = spec_merge_points(a2, b2);
        let h = s[0];
        assert forall|k: int| 0 <= k < t.len() implies !spec_key_lt(
            spec_addr((#[trigger] t[k]).key).0,
            spec_addr(t[k].key).1,
            spec_addr(h.key).0,
            spec_addr(h.key).1,
        ) by {
            if spec_point_in(a2, t[k]) {
                let i = choose|i: int| 0 <= i < a2.len() && #[trigger] a2[i] == t[k];
                if take_b {
                    assert(a2[i] == a[i]);
                    if i > 0 {
                        assert(!spec_key_lt(spec_addr(a[i].key).0, spec_addr(a[i].key).1, spec_addr(a[0].key).0, spec_addr(a[0].key).1));
                    }
                } else {
                    assert(a2[i] == a[i + 1]);
                    assert(!spec_key_lt(spec_addr(a[i + 1].key).0, spec_addr(a[i + 1].key).1, spec_addr(a[0].key).0, spec_addr(a[0].key).1));
                }
            } else {
                let j = choose|j: int| 0 <= j < b2.len() && #[trigger] b2[j] == t[k];
                if take_b {
                    assert(b2[j] == b[j + 1]);
                    assert(!spec_key_lt(spec_addr(b[j + 1].key).0, spec_addr(b[j + 1].key).1, spec_addr(b[0].key).0, spec_addr(b[0].key).1));
                } else {
                    assert(b2[j] == b[j]);
                    if j > 0 {
                        assert(!spec_key_lt(spec_addr(b[j].key).0, spec_addr(b[j].key).1, spec_addr(b[0].key).0, spec_addr(b[0].key).1));
                    }
                }
            }
        }
        assert forall|i: int, j: int| 0 <= i < j < s.len() implies !spec_key_lt(
            spec_addr(#[trigger] s[j].key).0,
            spec_addr(s[j].key).1,
            spec_addr(#[trigger] s[i].key).0,
            spec_addr(s[i].key).1,
        ) by {
            assert(s[j] == t[j - 1]);
            if i > 0 {
                assert(s[i] == t[i - 1]);
            }
        }
    }
}

proof fn lemma_changed_ordered_weak<F: Fn(FloatQuestion) -> bool>(f: F, ps: Seq<ComparePoint>, opts: ComparisonOptions)
    requires
        spec_points_ordered(ps),
    ensures
        spec_points_ordered(spec_changed_points(f, ps, opts)),
    decreases ps.len(),
{
    if ps.len() > 0 {
        let q = ps.drop_last();
        assert(spec_points_ordered(q)) by {
            assert forall|i: int, j: int| 0 <= i < j < q.len() implies !spec_key_lt(
                spec_addr(#[trigger] q[j].key).0,
                spec_addr(q[j].key).1,
                spec_addr(#[trigger] q[i].key).0,
                spec_addr(q[i].key).1,
            ) by {
                assert(q[i] == ps[i] && q[j] == ps[j]);
            }
        }
        lemma_changed_ordered_weak(f, q, opts);
        lemma_changed_members(f, q, opts);
        let p = spec_changed_points(f, q, opts);
        let c = spec_changed_points(f, ps, opts);
        assert forall|i: int, j: int| 0 <= i < j < c.len() implies !spec_key_lt(
            spec_addr(#[trigger] c[j].key).0,
            spec_addr(c[j].key).1,
            spec_addr(#[trigger] c[i].key).0,
            spec_addr(c[i].key).1,
        ) by {
            assert(c[i] == p[i]);
            if j < p.len() {
                assert(c[j] == p[j]);
            } else {
                let x = choose|x: int| 0 <= x < q.len() && p[i] == q[x];
                assert(c[j] == ps[ps.len() - 1]);
                assert(q[x] == ps[x]);
            }
        }
    }
}

/// The cell diffs come in `(row, col)` order: none sorts before an earlier one.
pub open spec fn spec_diffs_in_order(diffs: Seq<CellDiff>) -> bool {
    forall|i: int, j: int|
        0 <= i < j < diffs.len() ==> !spec_key_lt(
            (#[trigger] diffs[j]).address.row,
            diffs[j].address.col,
            (#[trigger] diffs[i]).address.row,
            diffs[i].address.col,
        )
}

/// The points' keys are all of one row space: old-space (`Old`) or inserted
/// (`InsertedNew`).
pub open spec fn spec_keys_in_space(ps: Seq<ComparePoint>, inserted: bool) -> bool {
    forall|k: int| 0 <= k < ps.len() ==> if inserted {
        (#[trigger] ps[k]).key is InsertedNew
    } else {
        ps[k].key is Old
    }
}

/// Two points at one address are an old-space point followed by an inserted
/// one.
pub open spec fn spec_shared_split(ps: Seq<ComparePoint>) -> bool {
    forall|i: int, j: int|
        0 <= i < j < ps.len() && spec_addr((#[trigger] ps[i]).key) == spec_addr((#[trigger] ps[j]).key)
            ==> ps[i].key is Old && ps[j].key is InsertedNew
}

proof fn lemma_join_row_keys(a: Seq<CellEntry>, b: Seq<CellEntry>, row: u32, inserted: bool)
    ensures
        spec_keys_in_space(spec_join_row(a, b, row, inserted), inserted),
    decreases a.len() + b.len(),
{
    let s = spec_join_row(a, b, row, inserted);
    if a.len() == 0 && b.len() == 0 {
    } else {
        let t = if b.len() == 0 || (a.len() > 0 && a[0].col < b[0].col) {
            lemma_join_row_keys(a.drop_first(), b, row, inserted);
            spec_join_row(a.drop_first(), b, row, inserted)
        } else if a.len() == 0 || b[0].col < a[0].col {
            lemma_join_row_keys(a, b.drop_first(), row, inserted);
            spec_join_row(a, b.drop_first(), row, inserted)
        } else {
            lemma_join_row_keys(a.drop_first(), b.drop_first(), row, inserted);
            spec_join_row(a.drop_first(), b.drop_first(), row, inserted)
        };
        assert forall|k: int| 0 <= k < s.len() implies if inserted {
            (#[trigger] s[k]).key is InsertedNew
        } else {
            s[k].key is Old
        } by {
            if k > 0 {
                assert(s[k] == t[k - 1]);
            }
        }
    }
}

proof fn lemma_keys_concat(a: Seq<ComparePoint>, b: Seq<ComparePoint>, inserted: bool)
    requires
        spec_keys_in_space(a, inserted),
        spec_keys_in_space(b, inserted),
    ensures
        spec_keys_in_space(a + b, inserted),
{
    assert forall|k: int| 0 <= k < (a + b).len() implies if inserted {
        (#[trigger] (a + b)[k]).key is InsertedNew
    } else {
        (a + b)[k].key is Old
    } by {
        if k < a.len() {
            assert((a + b)[k] == a[k]);
        } else {
            assert((a + b)[k] == b[k - a.len()]);
        }
    }
}

proof fn lemma_old_space_keys(oc: Seq<CellEntry>, nc: Seq<CellEntry>, rows: Seq<(u32, Option<u32>)>)
    ensures
        spec_keys_in_space(spec_old_space_points(oc, nc, rows), false),
    decreases rows.len(),
{
    if rows.len() > 0 {
        let r = rows.last();
        lemma_old_space_keys(oc, nc, rows.drop_last());
        let b = match r.1 {
            Some(n) => spec_row_cells(nc, n),
            None => Seq::empty(),
        };
        lemma_join_row_keys(spec_row_cells(oc, r.0), b, r.0, false);
        lemma_keys_concat(spec_old_space_points(oc, nc, rows.drop_last()), spec_join_row(spec_row_cells(oc, r.0), b, r.0, false), false);
    }
}

proof fn lemma_inserted_keys(nc: Seq<CellEntry>, rows: Seq<u32>)
    ensures
        spec_keys_in_space(spec_inserted_points(nc, rows), true),
    decreases rows.len(),
{
    if rows.len() > 0 {
        lemma_inserted_keys(nc, rows.drop_last());
        lemma_join_row_keys(Seq::empty(), spec_row_cells(nc, rows.last()), rows.last(), true);
        lemma_keys_concat(
            spec_inserted_points(nc, rows.drop_last()),
            spec_join_row(Seq::empty(), spec_row_cells(nc, rows.last()), rows.last(), true),
            true,
        );
    }
}

proof fn lemma_merge_split(a: Seq<ComparePoint>, b: Seq<ComparePoint>)
    requires
        spec_points_strictly_ordered(a),
        spec_points_strictly_ordered(b),
        spec_keys_in_space(a, false),
        spec_keys_in_space(b, true),
    ensures
        spec_shared_split(spec_merge_points(a, b)),
    decreases a.len() + b.len(),
{
    let s = spec_merge_points(a, b);
    if a.len() == 0 {
        assert forall|i: int, j: int| 0 <= i < j < s.len() && spec_addr((#[trigger] s[i]).key) == spec_addr((#[trigger] s[j]).key)
            implies s[i].key is Old && s[j].key is InsertedNew by {
            assert(spec_key_lt(spec_addr(b[i].key).0, spec_addr(b[i].key).1, spec_addr(b[j].key).0, spec_addr(b[j].key).1));
        }
    } else if b.len() == 0 {
        assert forall|i: int, j: int| 0 <= i < j < s.len() && spec_addr((#[trigger] s[i]).key) == spec_addr((#[trigger] s[j]).key)
            implies s[i].key is Old && s[j].key is InsertedNew by {
            assert(spec_key_lt(spec_addr(a[i].key).0, spec_addr(a[i].key).1, spec_addr(a[j].key).0, spec_addr(a[j].key).1));
        }
    } else {
        let take_b = spec_key_lt(spec_addr(b[0].key).0, spec_addr(b[0].key).1, spec_addr(a[0].key).0, spec_addr(a[0].key).1);
        let (a2, b2) = if take_b { (a, b.drop_first()) } else { (a.drop_first(), b) };
        assert(spec_points_strictly_ordered(a2) && spec_keys_in_space(a2, false)) by {
            assert forall|i: int, j: int| 0 <= i < j < a2.len() implies spec_key_lt(
                spec_addr(#[trigger] a2[i].key).0,
                spec_addr(a2[i].key).1,
                spec_addr(#[trigger] a2[j].key).0,
                spec_addr(a2[j].key).1,
            ) by {
                if !take_b { assert(a2[i] == a[i + 1] && a2[j] == a[j + 1]); }
            }
            assert forall|k: int| 0 <= k < a2.len() implies (#[trigger] a2[k]).key is Old by {
                if !take_b { assert(a2[k] == a[k + 1]); }
            }
        }
        assert(spec_points_strictly_ordered(b2) && spec_keys_in_space(b2, true)) by {
            assert forall|i: int, j: int| 0 <= i < j < b2.len() implies spec_key_lt(
                spec_addr(#[trigger] b2[i].key).0,
                spec_addr(b2[i].key).1,
                spec_addr(#[trigger] b2[j].key).0,
                spec_addr(b2[j].key).1,
            ) by {
                if take_b { assert(b2[i] == b[i + 1] && b2[j] == b[j + 1]); }
            }
            assert forall|k: int| 0 <= k < b2.len() implies (#[trigger] b2[k]).key is InsertedNew by {
                if take_b { assert(b2[k] == b[k + 1]); }
            }
        }
        lemma_merge_split(a2, b2);
        lemma_merge_members(a2, b2);
        let t = spec_merge_points(a2, b2);
        let h = s[0];
        assert forall|i: int, j: int| 0 <= i < j < s.len() && spec_addr((#[trigger] s[i]).key) == spec_addr((#[trigger] s[j]).key)
            implies s[i].key is Old && s[j].key is InsertedNew by {
            assert(s[j] == t[j - 1]);
            if i > 0 {
                assert(s[i] == t[i - 1]);
            } else {
                let x = t[j - 1];
                if spec_point_in(a2, x) {
                    let k = choose|k: int| 0 <= k < a2.len() && #[trigger] a2[k] == x;
                    if take_b {
                        assert(a2[k] == a[k]);
                        if k > 0 {
                            assert(spec_key_lt(spec_addr(a[0].key).0, spec_addr(a[0].key).1, spec_addr(a[k].key).0, spec_addr(a[k].key).1));
                        }
                    } else {
                        assert(a2[k] == a[k + 1]);
                        assert(spec_key_lt(spec_addr(a[0].key).0, spec_addr(a[0].key).1, spec_addr(a[k + 1].key).0, spec_addr(a[k + 1].key).1));
                    }
                } else {
                    let k = choose|k: int| 0 <= k < b2.len() && #[trigger] b2[k] == x;
                    if take_b {
                        assert(b2[k] == b[k + 1]);
                        assert(spec_key_lt(spec_addr(b[0].key).0, spec_addr(b[0].key).1, spec_addr(b[k + 1].key).0, spec_addr(b[k + 1].key).1));
                    } else {
                        assert(b2[k] == b[k]);
                        assert(h == a[0]);
                    }
                }
            }
        }
    }
}

proof fn lemma_changed_split<F: Fn(FloatQuestion) -> bool>(f: F, ps: Seq<ComparePoint>, opts: ComparisonOptions)
    requires
        spec_shared_split(ps),
    ensures
        spec_shared_split(spec_changed_points(f, ps, opts)),
    decreases ps.len(),
{
    if ps.len() > 0 {
        let q = ps.drop_last();
        assert(spec_shared_split(q)) by {
            assert forall|i: int, j: int| 0 <= i < j < q.len() && spec_addr((#[trigger] q[i]).key) == spec_addr((#[trigger] q[j]).key)
                implies q[i].key is Old && q[j].key is InsertedNew by {
                assert(q[i] == ps[i] && q[j] == ps[j]);
            }
        }
        lemma_changed_split(f, q, opts);
        lemma_changed_members(f, q, opts);
        let p = spec_changed_points(f, q, opts);
        let c = spec_changed_points(f, ps, opts);
        assert forall|i: int, j: int| 0 <= i < j < c.len() && spec_addr((#[trigger] c[i]).key) == spec_addr((#[trigger] c[j]).key)
            implies c[i].key is Old && c[j].key is InsertedNew by {
            assert(c[i] == p[i]);
            if j < p.len() {
                assert(c[j] == p[j]);
            } else {
                let x = choose|x: int| 0 <= x < q.len() && p[i] == q[x];
                assert(c[j] == ps[ps.len() - 1]);
                assert(q[x] == ps[x]);
            }
        }
    }
}

/// Compared under a row mapping whose lists are in row order, two cell diffs
/// of a sheet share an address only as an old-space cell (of a matched or
/// removed row) followed by a cell of an inserted row: the two row spaces are
/// kept apart, so at most two cell diffs share an address, and none within
/// one row space.
pub proof fn lemma_aligned_diffs_shared<F: Fn(FloatQuestion) -> bool>(
    old_cells: Seq<CellEntry>,
    new_cells: Seq<CellEntry>,
    mapping: RowMapping,
    diffs: Seq<CellDiff>,
    f: F,
    opts: ComparisonOptions,
)
    requires
        spec_cells_sorted(old_cells),
        spec_cells_sorted(new_cells),
        spec_mapping_ordered(mapping),
        spec_cell_diffs(diffs, spec_sheet_points(old_cells, new_cells, Some(mapping)), f, opts),
    ensures
        forall|i: int, j: int|
            0 <= i < j < diffs.len() && (#[trigger] diffs[i]).address.row == (#[trigger] diffs[j]).address.row
                && diffs[i].address.col == diffs[j].address.col ==> {
                let ch = spec_changed_points(f, spec_sheet_points(old_cells, new_cells, Some(mapping)), opts);
                ch[i].key is Old && ch[j].key is InsertedNew
            },
{
    let rows = spec_old_space(mapping.matched@, mapping.removed@);
    lemma_old_space_increasing(mapping.matched@, mapping.removed@);
    lemma_old_space_points_ordered(old_cells, new_cells, rows);
    lemma_inserted_points_ordered(new_cells, mapping.inserted@);
    lemma_old_space_keys(old_cells, new_cells, rows);
    lemma_inserted_keys(new_cells, mapping.inserted@);
    let a = spec_old_space_points(old_cells, new_cells, rows);
    let b = spec_inserted_points(new_cells, mapping.inserted@);
    lemma_merge_split(a, b);
    let ps = spec_aligned_points(old_cells, new_cells, mapping);
    lemma_changed_split(f, ps, opts);
    let ch = spec_changed_points(f, ps, opts);
    assert forall|i: int, j: int|
        0 <= i < j < diffs.len() && (#[trigger] diffs[i]).address.row == (#[trigger] diffs[j]).address.row
            && diffs[i].address.col == diffs[j].address.col implies ch[i].key is Old && ch[j].key is InsertedNew by {
        assert(spec_is_cell_diff(diffs[i], ch[i], f, opts));
        assert(spec_is_cell_diff(diffs[j], ch[j], f, opts));
        assert(spec_addr(ch[i].key) == spec_addr(ch[j].key));
    }
}

/// Compared under a row mapping whose lists are in row order, a sheet's cell
/// diffs come in `(row, col)` order; an inserted row may share its number with
/// an old row, so two cell diffs may share an address.
pub proof fn lemma_aligned_diffs_ordered<F: Fn(FloatQuestion) -> bool>(
    old_cells: Seq<CellEntry>,
    new_cells: Seq<CellEntry>,
    mapping: RowMapping,
    diffs: Seq<CellDiff>,
    f: F,
    opts: ComparisonOptions,
)
    requires
        spec_cells_sorted(old_cells),
        spec_cells_sorted(new_cells),
        spec_mapping_ordered(mapping),
        spec_cell_diffs(diffs, spec_sheet_points(old_cells, new_cells, Some(mapping)), f, opts),
    ensures
        forall|i: int, j: int|
            0 <= i < j < diffs.len() ==> !spec_key_lt(
                (#[trigger] diffs[j]).address.row,
                diffs[j].address.col,
                (#[trigger] diffs[i]).address.row,
                diffs[i].address.col,
            ),
{
    let rows = spec_old_space(mapping.matched@, mapping.removed@);
    lemma_old_space_increasing(mapping.matched@, mapping.removed@);
    lemma_old_space_points_ordered(old_cells, new_cells, rows);
    lemma_inserted_points_ordered(new_cells, mapping.inserted@);
    let a = spec_old_space_points(old_cells, new_cells, rows);
    let b = spec_inserted_points(new_cells, mapping.inserted@);
    lemma_strict_is_ordered(a);
    lemma_strict_is_ordered(b);
    lemma_merge_ordered(a, b);
    let ps = spec_aligned_points(old_cells, new_cells, mapping);
    lemma_changed_ordered_weak(f, ps, opts);
    let ch = spec_changed_points(f, ps, opts);
    assert forall|i: int, j: int| 0 <= i < j < diffs.len() implies !spec_key_lt(
        (#[trigger] diffs[j]).address.row,
        diffs[j].address.col,
        (#[trigger] diffs[i]).address.row,
        diffs[i].address.col,
    ) by {
        assert(spec_is_cell_diff(diffs[i], ch[i], f, opts));
        assert(spec_is_cell_diff(diffs[j], ch[j], f, opts));
    }
}

/// The sheet summary counts the changed points.
pub open spec fn spec_sheet_summary<F: Fn(FloatQuestion) -> bool>(sm: SheetSummary, ps: Seq<ComparePoint>, f: F, opts: ComparisonOptions) -> bool {
    &&& sm.cells_changed == spec_changed_points(f, ps, opts).len()
    &&& sm.values_changed == spec_count_values(f, ps, opts)
    &&& sm.formulas_changed == spec_count_formulas(f, ps, opts)
}

proof fn lemma_changed_prefix<F: Fn(FloatQuestion) -> bool>(f: F, ps: Seq<ComparePoint>, opts: ComparisonOptions, k: int)
    requires
        0 <= k <= ps.len(),
    ensures
        spec_changed_points(f, ps.take(k), opts).len() <= spec_changed_points(f, ps, opts).len(),
    decreases ps.len() - k,
{
    if k < ps.len() {
        lemma_changed_prefix(f, ps, opts, k + 1);
        assert(ps.take(k + 1).drop_last() =~= ps.take(k));
    } else {
        assert(ps.take(k) =~= ps);
    }
}

proof fn lemma_counts_bounded<F: Fn(FloatQuestion) -> bool>(f: F, ps: Seq<ComparePoint>, opts: ComparisonOptions)
    ensures
        spec_count_values(f, ps, opts) <= spec_changed_points(f, ps, opts).len(),
        spec_count_formulas(f, ps, opts) <= spec_changed_points(f, ps, opts).len(),
        spec_changed_points(f, ps, opts).len() <= ps.len(),
    decreases ps.len(),
{
    if ps.len() > 0 {
        lemma_counts_bounded(f, ps.drop_last(), opts);
    }
}

/// Compares the cells at each point, in order, and reports a cell diff where
/// the value or the formula differs.
///
/// Fails with `LimitExceeded { DiffsReturned, .. }` when reporting a diff
/// would take the running diff total past `max_diffs_returned`; polls for
/// cancellation every 50,000 points.
pub fn compare_points<F: Fn(FloatQuestion) -> bool>(
    oc: &Vec<CellEntry>,
    nc: &Vec<CellEntry>,
    cs: &Vec<Compared>,
    opts: &DiffOptions,
    float_oracle: &F,
    total_diffs: &mut u64,
) -> (r: Result<(Vec<CellDiff>, SheetSummary), SheetsDiffError>)
    requires
        oracle_total(*float_oracle),
        oracle_deterministic(*float_oracle),
        spec_compared_in(oc@, nc@, cs@),
        opts.limits.max_diffs_returned matches Some(md) ==> *old(total_diffs) <= md,
    ensures
        ({
            let ps = spec_points(oc@, nc@, cs@);
            let n = spec_changed_points(*float_oracle, ps, opts.comparison).len();
            &&& r matches Ok(res) ==> {
                &&& spec_cell_diffs(res.0@, ps, *float_oracle, opts.comparison)
                &&& spec_sheet_summary(res.1, ps, *float_oracle, opts.comparison)
                &&& *final(total_diffs) == spec_sat_add(*old(total_diffs) as int, n as int)
            }
            &&& (opts.limits.max_diffs_returned matches Some(md) && *old(total_diffs) + n > md) ==> r is Err
            &&& r is Err ==> (opts.execution.cancellation is Some && r == Err::<(Vec<CellDiff>, SheetSummary), SheetsDiffError>(SheetsDiffError::Cancelled))
                || (opts.limits.max_diffs_returned matches Some(md) && *old(total_diffs) + n > md && r == Err::<(Vec<CellDiff>, SheetSummary), SheetsDiffError>(
                SheetsDiffError::LimitExceeded {
                    limit: LimitKind::DiffsReturned,
                    observed: spec_sat_add(md as int, 1) as u64,
                },
            ))
        }),
{
    let ghost ps = spec_points(oc@, nc@, cs@);
    let ghost f = *float_oracle;
    let ghost copts = opts.comparison;
    let ghost start = *total_diffs;
    let empty = CellValue::Empty;
    let mut diffs: Vec<CellDiff> = Vec::new();
    let mut summary = SheetSummary { cells_changed: 0, values_changed: 0, formulas_changed: 0 };
    let n = cs.len();
    let mut k: usize = 0;
    while k < n
        invariant
            n == cs@.len(),
            k <= n,
            ps == spec_points(oc@, nc@, cs@),
            f == *float_oracle,
            copts == opts.comparison,
            oracle_total(f),
            oracle_deterministic(f),
            spec_compared_in(oc@, nc@, cs@),
            empty == CellValue::Empty,
            start == *old(total_diffs),
            spec_cell_diffs(diffs@, ps.take(k as int), f, copts),
            spec_sheet_summary(summary, ps.take(k as int), f, copts),
            *total_diffs == spec_sat_add(start as int, spec_changed_points(f, ps.take(k as int), copts).len() as int),
            opts.limits.max_diffs_returned matches Some(md) ==> start + spec_changed_points(f, ps.take(k as int), copts).len() <= md,
        decreases n - k,
    {
        if (k + 1) % CANCEL_POLL_INTERVAL == 0 {
            check_cancel(opts)?;
        }
        let c = cs[k];
        let ghost p = spec_point(oc@, nc@, c);
        proof {
            assert(ps[k as int] == p);
            assert(ps.take(k + 1).drop_last() =~= ps.take(k as int));
            assert(ps.take(k + 1).last() == p);
            lemma_counts_bounded(f, ps.take(k as int), copts);
        }
        let (row, col) = c.key.addr();
        let old_value: &CellValue = match c.old {
            Some(i) => &oc[i].value,
            None => &empty,
        };
        let new_value: &CellValue = match c.new {
            Some(j) => &nc[j].value,
            None => &empty,
        };
        let old_formula: Option<&String> = match c.old {
            Some(i) => match &oc[i].formula {
                Some(t) => Some(t),
                None => None,
            },
            None => None,
        };
        let new_formula: Option<&String> = match c.new {
            Some(j) => match &nc[j].formula {
                Some(t) => Some(t),
                None => None,
            },
            None => None,
        };
        let value_change = compare_values(old_value, new_value, &opts.comparison.value, float_oracle);
        proof {
            lemma_compare_result_unique(f, *old_value, *new_value, copts.value, value_change);
            assert(*old_value == spec_old_value(p));
            assert(*new_value == spec_new_value(p));
        }
        let formula_change = compare_formulas(old_formula, new_formula, opts.comparison.formula);
        proof {
            assert(match old_formula {
                Some(t) => Some(*t),
                None => None,
            } == spec_old_formula(p));
            assert(match new_formula {
                Some(t) => Some(*t),
                None => None,
            } == spec_new_formula(p));
        }
        if value_change.is_some() || formula_change.is_some() {
            if let Some(md) = opts.limits.max_diffs_returned {
                if *total_diffs >= md {
                    proof {
                        lemma_changed_prefix(f, ps, copts, k + 1);
                        assert(spec_changed_points(f, ps.take(k + 1), copts) == spec_changed_points(f, ps.take(k as int), copts).push(p));
                    }
                    return Err(SheetsDiffError::LimitExceeded {
                        limit: LimitKind::DiffsReturned,
                        observed: total_diffs.saturating_add(1),
                    });
                }
            }
            if value_change.is_some() {
                summary.values_changed = summary.values_changed + 1;
            }
            if formula_change.is_some() {
                summary.formulas_changed = summary.formulas_changed + 1;
            }
            summary.cells_changed = summary.cells_changed + 1;
            *total_diffs = total_diffs.saturating_add(1);
            let ghost before = diffs@;
            diffs.push(CellDiff {
                address: CellAddress::new_unchecked(row, col),
                value: value_change,
                formula: formula_change,
                format: None,
                diagnostics: Vec::new(),
            });
            proof {
                let ch = spec_changed_points(f, ps.take(k + 1), copts);
                assert(ch == spec_changed_points(f, ps.take(k as int), copts).push(p));
                assert forall|q: int| 0 <= q < diffs@.len() implies spec_is_cell_diff(#[trigger] diffs@[q], ch[q], f, copts) by {
                    if q < before.len() {
                        assert(diffs@[q] == before[q]);
                    }
                }
            }
        }
        k += 1;
    }
    proof {
        assert(ps.take(n as int) =~= ps);
    }
    Ok((diffs, summary))
}

/// A sheet's cells as read: 1-based, in row-major order, empty cells included,
/// each with its formula text where it has one; and whether the sheet has
/// formula text at all.
pub struct SheetCells {
    pub cells: Vec<CellEntry>,
    pub has_formulas: bool,
}

/// The cells as read are strictly in row-major order, at 1-based coordinates.
pub open spec fn spec_raw_ok(raw: Seq<CellEntry>) -> bool {
    &&& spec_cells_sorted(raw)
    &&& forall|i: int| 0 <= i < raw.len() ==> #[trigger] raw[i].row >= 1 && raw[i].col >= 1
}

/// The populated cells: those whose value is not `Empty`, in order.
pub open spec fn spec_retained(raw: Seq<CellEntry>) -> Seq<CellEntry>
    decreases raw.len(),
{
    if raw.len() == 0 {
        Seq::empty()
    } else {
        let p = spec_retained(raw.drop_last());
        if raw.last().value is Empty {
            p
        } else {
            p.push(raw.last())
        }
    }
}

/// The top-left corner of the cells' bounding box.
pub open spec fn spec_start(s: Seq<CellEntry>) -> Option<(u32, u32)>
    decreases s.len(),
{
    if s.len() == 0 {
        None
    } else {
        spec_min_corner(spec_start(s.drop_last()), Some((s.last().row, s.last().col)))
    }
}

/// The bottom-right corner of the cells' bounding box.
pub open spec fn spec_end(s: Seq<CellEntry>) -> Option<(u32, u32)>
    decreases s.len(),
{
    if s.len() == 0 {
        None
    } else {
        spec_max_corner(spec_end(s.drop_last()), Some((s.last().row, s.last().col)))
    }
}

/// A retained numeric cell of a sheet with formulas, whose formula text is
/// missing, gets an informational note when cached values are compared.
pub open spec fn spec_needs_note(e: CellEntry, has_formulas: bool, include_cached: bool) -> bool {
    has_formulas && include_cached && e.formula is None && (e.value is Integer || e.value is Number)
}

/// The retained cells that get a note, in order.
pub open spec fn spec_noted(s: Seq<CellEntry>, has_formulas: bool, include_cached: bool) -> Seq<CellEntry>
    decreases s.len(),
{
    if s.len() == 0 {
        Seq::empty()
    } else {
        let p = spec_noted(s.drop_last(), has_formulas, include_cached);
        if spec_needs_note(s.last(), has_formulas, include_cached) {
            p.push(s.last())
        } else {
            p
        }
    }
}

/// `d` is the note that cell `e` of `sheet` has no formula text.
pub open spec fn spec_is_formula_note(d: Diagnostic, sheet: SheetRef, e: CellEntry) -> bool {
    &&& d.severity == Severity::Info
    &&& d.kind == DiagnosticKind::FormulaUnavailable
    &&& d.location.stage == DiffStage::Read
    &&& d.location.sheet_order == Some(sheet.index)
    &&& d.location.sheet_name == Some(sheet.name)
    &&& d.location.address matches Some(a) && a.row == e.row && a.col == e.col && a.wf()
    &&& d.message@ == "formula text unavailable for numeric cell at "@ + spec_a1(e.row as nat, e.col as nat)
}

/// `after` is `before` followed by one note per noted cell, in order.
pub open spec fn spec_notes_appended(before: Seq<Diagnostic>, after: Seq<Diagnostic>, sheet: SheetRef, noted: Seq<CellEntry>) -> bool {
    &&& after.len() == before.len() + noted.len()
    &&& after.take(before.len() as int) == before
    &&& forall|k: int| 0 <= k < noted.len() ==> spec_is_formula_note(#[trigger] after[before.len() + k], sheet, noted[k])
}

/// Grows the bounding box to contain `(row, col)`.
pub fn update_bounds(start: &mut Option<(u32, u32)>, end: &mut Option<(u32, u32)>, row: u32, col: u32)
    ensures
        *final(start) == spec_min_corner(*old(start), Some((row, col))),
        *final(end) == spec_max_corner(*old(end), Some((row, col))),
{
    *start = Some(match *start {
        None => (row, col),
        Some((r, c)) => (if r <= row { r } else { row }, if c <= col { c } else { col }),
    });
    *end = Some(match *end {
        None => (row, col),
        Some((r, c)) => (if r >= row { r } else { row }, if c >= col { c } else { col }),
    });
}

fn copy_formula(f: &Option<String>) -> (r: Option<String>)
    ensures
        r == *f,
{
    match f {
        Some(t) => Some(t.clone()),
        None => None,
    }
}

fn formula_note(sheet: &SheetRef, row: u32, col: u32) -> (d: Diagnostic)
    ensures
        spec_is_formula_note(d, *sheet, CellEntry { row, col, value: CellValue::Empty, formula: None }),
{
    let mut m = String::new();
    push_str(&mut m, "formula text unavailable for numeric cell at ");
    let a1 = cell_pos_to_a1(row, col);
    push_str(&mut m, a1.as_str());
    Diagnostic {
        severity: Severity::Info,
        kind: DiagnosticKind::FormulaUnavailable,
        location: DiagnosticLocation {
            stage: DiffStage::Read,
            sheet_order: Some(sheet.index),
            sheet_name: Some(sheet.name.clone()),
            address: Some(CellAddress::new_unchecked(row, col)),
        },
        message: m,
    }
}

/// Retains the populated cells of a sheet, in order, with their bounding box.
///
/// Each populated cell counts towards `max_cells_read`, summed over the whole
/// comparison; the bound fails the comparison with `observed` one past it.
/// Cancellation is polled every 50,000 cells read.
#[verifier::rlimit(60)]
pub fn read_sheet_cells(
    content: &SheetCells,
    sheet: &SheetRef,
    opts: &DiffOptions,
    total_cells_read: &mut u64,
    diagnostics: &mut Vec<Diagnostic>,
) -> (r: Result<(Vec<CellEntry>, Option<(u32, u32)>, Option<(u32, u32)>), SheetsDiffError>)
    requires
        spec_raw_ok(content.cells@),
        opts.limits.max_cells_read matches Some(m) ==> *old(total_cells_read) <= m,
    ensures
        ({
            let kept = spec_retained(content.cells@);
            let total = spec_sat_add(*old(total_cells_read) as int, kept.len() as int);
            let over = opts.limits.max_cells_read matches Some(m) && total > m;
            &&& r matches Ok(res) ==> {
                &&& res.0@ == kept
                &&& spec_cells_sorted(res.0@)
                &&& forall|i: int| 0 <= i < kept.len() ==> #[trigger] kept[i].row >= 1 && kept[i].col >= 1
                &&& res.1 == spec_start(kept)
                &&& res.2 == spec_end(kept)
                &&& *final(total_cells_read) == total
                &&& spec_notes_appended(
                    old(diagnostics)@,
                    final(diagnostics)@,
                    *sheet,
                    spec_noted(kept, content.has_formulas, opts.comparison.include_formula_cached_values),
                )
            }
            &&& over ==> r is Err
            &&& r is Err ==> (opts.execution.cancellation is Some && r == Err::<(Vec<CellEntry>, Option<(u32, u32)>, Option<(u32, u32)>), SheetsDiffError>(SheetsDiffError::Cancelled))
                || (over && r == Err::<(Vec<CellEntry>, Option<(u32, u32)>, Option<(u32, u32)>), SheetsDiffError>(
                SheetsDiffError::LimitExceeded {
                    limit: LimitKind::CellsRead,
                    observed: (opts.limits.max_cells_read.unwrap() + 1) as u64,
                },
            ))
        }),
{
    let ghost raw = content.cells@;
    let ghost start_total = *total_cells_read;
    let ghost before = diagnostics@;
    let hf = content.has_formulas;
    let inc = opts.comparison.include_formula_cached_values;
    let mut cells: Vec<CellEntry> = Vec::new();
    let mut start: Option<(u32, u32)> = None;
    let mut end: Option<(u32, u32)> = None;
    let ghost mut last_idx: int = 0;
    let n = content.cells.len();
    proof {
        assert(diagnostics@.take(before.len() as int) =~= before);
        assert(raw.take(0) =~= Seq::<CellEntry>::empty());
    }
    let mut i: usize = 0;
    while i < n
        invariant
            n == raw.len(),
            raw == content.cells@,
            i <= n,
            spec_raw_ok(raw),
            start_total == *old(total_cells_read),
            before == old(diagnostics)@,
            hf == content.has_formulas,
            inc == opts.comparison.include_formula_cached_values,
            cells@ == spec_retained(raw.take(i as int)),
            spec_cells_sorted(cells@),
            cells@.len() > 0 ==> 0 <= last_idx < i && cells@.last() == raw[last_idx],
            start == spec_start(cells@),
            end == spec_end(cells@),
            *total_cells_read == spec_sat_add(start_total as int, cells@.len() as int),
            opts.limits.max_cells_read matches Some(m) ==> *total_cells_read <= m,
            spec_notes_appended(before, diagnostics@, *sheet, spec_noted(cells@, hf, inc)),
        decreases n - i,
    {
        if (i + 1) % CANCEL_POLL_INTERVAL == 0 {
            let polled = check_cancel(opts);
            if polled.is_err() {
                return Err(SheetsDiffError::Cancelled);
            }
        }
        let e = &content.cells[i];
        proof {
            assert(raw.take(i + 1).drop_last() =~= raw.take(i as int));
            assert(raw.take(i + 1).last() == raw[i as int]);
        }
        if let CellValue::Empty = e.value {
        } else {
            *total_cells_read = total_cells_read.saturating_add(1);
            if let Some(m) = opts.limits.max_cells_read {
                if *total_cells_read > m {
                    proof {
                        lemma_retained_prefix(raw, i + 1);
                        assert(spec_retained(raw.take(i + 1)) == cells@.push(raw[i as int]));
                    }
                    return Err(SheetsDiffError::LimitExceeded {
                        limit: LimitKind::CellsRead,
                        observed: *total_cells_read,
                    });
                }
            }
            let ghost old_cells = cells@;
            let ghost old_diags = diagnostics@;
            if hf && inc && e.formula.is_none() && (matches!(e.value, CellValue::Integer(_)) || matches!(e.value, CellValue::Number(_))) {
                diagnostics.push(formula_note(sheet, e.row, e.col));
            }
            update_bounds(&mut start, &mut end, e.row, e.col);
            cells.push(CellEntry { row: e.row, col: e.col, value: e.value.clone(), formula: copy_formula(&e.formula) });
            proof {
                assert(cells@ == old_cells.push(raw[i as int]));
                assert(cells@.drop_last() =~= old_cells);
                if old_cells.len() > 0 {
                    assert(spec_key_lt(raw[last_idx].row, raw[last_idx].col, raw[i as int].row, raw[i as int].col));
                }
                assert forall|a: int, b: int| 0 <= a < b < cells@.len() implies spec_key_lt(#[trigger] cells@[a].row, cells@[a].col, #[trigger] cells@[b].row, cells@[b].col) by {
                    if b == cells@.len() - 1 && a < b - 1 {
                        assert(spec_key_lt(old_cells[a].row, old_cells[a].col, old_cells.last().row, old_cells.last().col));
                    }
                }
                last_idx = i as int;
                let nb = spec_noted(old_cells, hf, inc);
                let na = spec_noted(cells@, hf, inc);
                assert forall|k: int| 0 <= k < na.len() implies spec_is_formula_note(#[trigger] diagnostics@[before.len() + k], *sheet, na[k]) by {
                    if k < nb.len() {
                        assert(na[k] == nb[k]);
                        assert(diagnostics@[before.len() + k] == old_diags[before.len() + k]);
                    }
                }
                assert(diagnostics@.take(before.len() as int) =~= before);
            }
        }
        i += 1;
    }
    proof {
        assert(raw.take(n as int) =~= raw);
        lemma_retained_rows(raw);
    }
    Ok((cells, start, end))
}

proof fn lemma_retained_prefix(raw: Seq<CellEntry>, k: int)
    requires
        0 <= k <= raw.len(),
    ensures
        spec_retained(raw.take(k)).len() <= spec_retained(raw).len(),
    decreases raw.len() - k,
{
    if k < raw.len() {
        lemma_retained_prefix(raw, k + 1);
        assert(raw.take(k + 1).drop_last() =~= raw.take(k));
    } else {
        assert(raw.take(k) =~= raw);
    }
}

proof fn lemma_retained_rows(raw: Seq<CellEntry>)
    requires
        forall|i: int| 0 <= i < raw.len() ==> #[trigger] raw[i].row >= 1 && raw[i].col >= 1,
    ensures
        forall|i: int| 0 <= i < spec_retained(raw).len() ==> #[trigger] spec_retained(raw)[i].row >= 1 && spec_retained(raw)[i].col >= 1,
    decreases raw.len(),
{
    if raw.len() > 0 {
        lemma_retained_rows(raw.drop_last());
    }
}

/// The points compared for a sheet pair: the outer join by coordinate without
/// a row mapping, the aligned points with one.
pub open spec fn spec_sheet_points(oc: Seq<CellEntry>, nc: Seq<CellEntry>, mapping: Option<RowMapping>) -> Seq<ComparePoint> {
    match mapping {
        None => spec_join_maps(oc, nc),
        Some(m) => spec_aligned_points(oc, nc, m),
    }
}

/// The alignment summary of a mapping.
pub open spec fn spec_alignment_summary(mapping: Option<RowMapping>) -> Option<AlignmentSummary> {
    match mapping {
        None => None,
        Some(m) => Some(
            AlignmentSummary {
                inserted_rows: m.summary.inserted_rows,
                removed_rows: m.summary.removed_rows,
                matched_rows: m.summary.matched_rows,
                confidence: m.summary.confidence,
            },
        ),
    }
}

/// The change a sheet diff reports: an `Unchanged` pair with cell diffs is `Modified`.
pub open spec fn spec_sheet_change(pair_change: SheetChange, n_diffs: nat) -> SheetChange {
    if pair_change is Unchanged && n_diffs > 0 {
        SheetChange::Modified
    } else {
        pair_change
    }
}

/// `sd` is the diff of the sheet pair, given its compared points.
pub open spec fn spec_sheet_diff_of<F: Fn(FloatQuestion) -> bool>(
    sd: SheetDiff,
    pair: MatchedPair,
    ranges: (Option<(u32, u32)>, Option<(u32, u32)>, Option<(u32, u32)>, Option<(u32, u32)>),
    mapping: Option<RowMapping>,
    diagnostics: Seq<Diagnostic>,
    pts: Seq<ComparePoint>,
    f: F,
    opts: ComparisonOptions,
) -> bool {
    &&& sd.old_sheet == pair.old_sheet
    &&& sd.new_sheet == pair.new_sheet
    &&& sd.change == spec_sheet_change(pair.change, sd.cell_diffs@.len())
    &&& sd.compared_range.start == spec_min_corner(ranges.0, ranges.2)
    &&& sd.compared_range.end == spec_max_corner(ranges.1, ranges.3)
    &&& sd.alignment_summary == spec_alignment_summary(mapping)
    &&& sd.diagnostics@ == diagnostics
    &&& spec_cell_diffs(sd.cell_diffs@, pts, f, opts)
    &&& spec_sheet_summary(sd.summary, pts, f, opts)
}

/// Builds a sheet pair's diff from its two retained cell maps and an optional
/// row mapping.
///
/// Every coordinate is counted towards `max_cells_compared` (summed over the
/// comparison) before any is compared: a comparison that would exceed it is
/// refused with `observed` the new total.
pub fn build_sheet_diff<F: Fn(FloatQuestion) -> bool>(
    pair: &MatchedPair,
    old_map: &Vec<CellEntry>,
    old_start: Option<(u32, u32)>,
    old_end: Option<(u32, u32)>,
    new_map: &Vec<CellEntry>,
    new_start: Option<(u32, u32)>,
    new_end: Option<(u32, u32)>,
    mapping: Option<RowMapping>,
    opts: &DiffOptions,
    float_oracle: &F,
    total_diffs: &mut u64,
    total_cells_compared: &mut u64,
    sheet_diag: Vec<Diagnostic>,
) -> (r: Result<SheetDiff, SheetsDiffError>)
    requires
        spec_cells_sorted(old_map@),
        spec_cells_sorted(new_map@),
        oracle_total(*float_oracle),
        oracle_deterministic(*float_oracle),
        opts.limits.max_diffs_returned matches Some(md) ==> *old(total_diffs) <= md,
    ensures
        ({
            let pts = spec_sheet_points(old_map@, new_map@, mapping);
            let compared = spec_sat_add(*old(total_cells_compared) as int, pts.len() as int);
            let refused = opts.limits.max_cells_compared matches Some(mc) && compared > mc;
            let n = spec_changed_points(*float_oracle, pts, opts.comparison).len();
            &&& refused ==> r == Err::<SheetDiff, SheetsDiffError>(
                SheetsDiffError::LimitExceeded { limit: LimitKind::CellsCompared, observed: compared as u64 },
            ) && *final(total_cells_compared) == *old(total_cells_compared) && *final(total_diffs) == *old(total_diffs)
            &&& !refused ==> {
                &&& *final(total_cells_compared) == compared
                &&& (opts.limits.max_diffs_returned matches Some(md) && *old(total_diffs) + n > md) ==> r is Err
                &&& r is Err ==> (opts.execution.cancellation is Some && r == Err::<SheetDiff, SheetsDiffError>(SheetsDiffError::Cancelled))
                    || (opts.limits.max_diffs_returned matches Some(md) && *old(total_diffs) + n > md && r == Err::<SheetDiff, SheetsDiffError>(
                    SheetsDiffError::LimitExceeded {
                        limit: LimitKind::DiffsReturned,
                        observed: spec_sat_add(md as int, 1) as u64,
                    },
                ))
                &&& r matches Ok(sd) ==> {
                    &&& spec_sheet_diff_of(
                        sd,
                        *pair,
                        (old_start, old_end, new_start, new_end),
                        mapping,
                        sheet_diag@,
                        pts,
                        *float_oracle,
                        opts.comparison,
                    )
                    &&& *final(total_cells_compared) == compared
                    &&& *final(total_diffs) == spec_sat_add(*old(total_diffs) as int, n as int)
                }
            }
        }),
{
    let compared_range = ComparedRange::union(old_start, old_end, new_start, new_end);
    let coords = match &mapping {
        None => positional_coords(old_map, new_map),
        Some(m) => aligned_coords(old_map, new_map, m),
    };
    let sheet_cells_compared = coords.len() as u64;
    let observed = total_cells_compared.saturating_add(sheet_cells_compared);
    if let Some(mc) = opts.limits.max_cells_compared {
        if observed > mc {
            return Err(SheetsDiffError::LimitExceeded { limit: LimitKind::CellsCompared, observed });
        }
    }
    *total_cells_compared = observed;
    let (cell_diffs, summary) = compare_points(old_map, new_map, &coords, opts, float_oracle, total_diffs)?;
    let change = match pair.change {
        SheetChange::Unchanged => if cell_diffs.len() > 0 {
            SheetChange::Modified
        } else {
            SheetChange::Unchanged
        },
        other => other,
    };
    let alignment_summary = match &mapping {
        Some(m) => Some(
            AlignmentSummary {
                inserted_rows: m.summary.inserted_rows,
                removed_rows: m.summary.removed_rows,
                matched_rows: m.summary.matched_rows,
                confidence: m.summary.confidence,
            },
        ),
        None => None,
    };
    Ok(SheetDiff {
        old_sheet: match &pair.old_sheet {
            Some(s) => Some(s.clone()),
            None => None,
        },
        new_sheet: match &pair.new_sheet {
            Some(s) => Some(s.clone()),
            None => None,
        },
        change,
        cell_diffs,
        compared_range,
        alignment_summary,
        diagnostics: sheet_diag,
        summary,
    })
}

} // verus!