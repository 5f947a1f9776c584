//! Optional row alignment to reduce false-positive cascades after row
//! insertions and deletions.
//!
//! Default mode is `Positional`. `RowKey` and `RowSignature` modes are opt-in
//! via `DiffOptions.matching.alignment`; both match rows with a longest common
//! subsequence of their keys.

use vstd::prelude::*;

use crate::cells::{
    spec_value_same, value_same, lemma_run_cells, lemma_run_lookup, lemma_run_take, row_end, spec_cells_sorted, spec_row_cells,
    spec_row_run, spec_rows, spec_value_at, CellEntry,
};
use crate::error::SheetsDiffError;
use crate::model::{
    spec_display, Diagnostic, DiagnosticKind, DiagnosticLocation, DiffStage, MatchConfidence,
    Severity, SheetRef,
};
use crate::options::{cancel_outcome, AlignmentMode, Cancellation};
use crate::row_order::{
    lemma_row_key_mapping_ordered, lemma_row_key_mapping_places, lemma_signature_mapping_ordered,
    lemma_signature_mapping_places, spec_mapping_ordered, spec_mapping_places,
};
use crate::strings::{push_char, push_decimal, push_str, spec_decimal, str_equal};

verus! {

/// Populated when alignment mode is not `Positional`.
#[derive(Clone, Copy, PartialEq, Eq, Debug)]
pub struct AlignmentSummaryData {
    pub inserted_rows: usize,
    pub removed_rows: usize,
    pub matched_rows: usize,
    pub confidence: MatchConfidence,
}

/// Maps old 1-based row indices to new 1-based row indices for a sheet pair.
/// Rows absent from the map are inserted (new only) or removed (old only).
pub struct RowMapping {
    /// `(old_row, new_row)` for matched pairs, ascending in the old row.
    pub matched: Vec<(u32, u32)>,
    /// Rows in the old sheet with no match (removed), ascending.
    pub removed: Vec<u32>,
    /// Rows in the new sheet with no match (inserted), ascending.
    pub inserted: Vec<u32>,
    pub summary: AlignmentSummaryData,
}

/// A row's alignment key: the texts it is matched by.
pub struct KeyedRow {
    pub row: u32,
    pub key: Vec<String>,
}

/// The text of a key.
pub open spec fn spec_key(k: Vec<String>) -> Seq<Seq<char>> {
    k@.map_values(|s: String| s@)
}

/// The keys of a sequence of keyed rows.
pub open spec fn spec_keys(rows: Seq<KeyedRow>) -> Seq<Seq<Seq<char>>> {
    rows.map_values(|r: KeyedRow| spec_key(r.key))
}

/// Whether two keys hold the same texts.
pub fn keys_equal(a: &Vec<String>, b: &Vec<String>) -> (r: bool)
    ensures
        r == (spec_key(*a) == spec_key(*b)),
{
    if a.len() != b.len() {
        assert(spec_key(*a).len() != spec_key(*b).len());
        return false;
    }
    let mut i: usize = 0;
    while i < a.len()
        invariant
            a@.len() == b@.len(),
            i <= a@.len(),
            forall|k: int| 0 <= k < i ==> a@[k]@ == b@[k]@,
        decreases a@.len() - i,
    {
        if !str_equal(&a[i], &b[i]) {
            assert(spec_key(*a)[i as int] != spec_key(*b)[i as int]);
            return false;
        }
        i += 1;
    }
    assert(spec_key(*a) =~= spec_key(*b));
    true
}

/// `Exact` when every row on both sides was matched; `High` when matched rows
/// outnumber the rest; `Medium` otherwise.
pub open spec fn spec_confidence(n_matched: int, n_removed: int, n_inserted: int) -> MatchConfidence {
    if n_removed == 0 && n_inserted == 0 {
        MatchConfidence::Exact
    } else if n_matched > n_removed + n_inserted {
        MatchConfidence::High
    } else {
        MatchConfidence::Medium
    }
}

/// The confidence of an alignment with the given counts.
pub fn confidence_for(n_matched: usize, n_removed: usize, n_inserted: usize) -> (r: MatchConfidence)
    ensures
        r == spec_confidence(n_matched as int, n_removed as int, n_inserted as int),
{
    if n_removed == 0 && n_inserted == 0 {
        MatchConfidence::Exact
    } else if n_matched as u128 > n_removed as u128 + n_inserted as u128 {
        MatchConfidence::High
    } else {
        MatchConfidence::Medium
    }
}

/// The length of a longest common subsequence of `a[i..]` and `b[j..]`.
pub open spec fn spec_lcs<K>(a: Seq<K>, b: Seq<K>, i: int, j: int) -> nat
    decreases a.len() - i + b.len() - j,
{
    if i < 0 || j < 0 || i >= a.len() || j >= b.len() {
        0
    } else if a[i] == b[j] {
        1 + spec_lcs(a, b, i + 1, j + 1)
    } else {
        let x = spec_lcs(a, b, i + 1, j);
        let y = spec_lcs(a, b, i, j + 1);
        if x >= y {
            x
        } else {
            y
        }
    }
}

/// The pairs of positions the table walk from `(i, j)` matches: take equal
/// heads; otherwise drop the head of `a` when that keeps the longest common
/// subsequence, else the head of `b`.
pub open spec fn spec_traceback<K>(a: Seq<K>, b: Seq<K>, i: int, j: int) -> Seq<(int, int)>
    decreases a.len() - i + b.len() - j,
{
    if i < 0 || j < 0 || i >= a.len() || j >= b.len() {
        Seq::empty()
    } else if a[i] == b[j] {
        seq![(i, j)] + spec_traceback(a, b, i + 1, j + 1)
    } else if spec_lcs(a, b, i + 1, j) >= spec_lcs(a, b, i, j + 1) {
        spec_traceback(a, b, i + 1, j)
    } else {
        spec_traceback(a, b, i, j + 1)
    }
}

/// `cs` is a common subsequence of `a` and `b` at or after `(i, j)`: positions
/// strictly increasing on both sides, with equal elements.
pub open spec fn spec_common_subsequence<K>(a: Seq<K>, b: Seq<K>, cs: Seq<(int, int)>, i: int, j: int) -> bool {
    &&& forall|k: int| 0 <= k < cs.len() ==> spec_pair_in(a, b, #[trigger] cs[k], i, j)
    &&& forall|k: int, l: int| 0 <= k < l < cs.len() ==> spec_pair_before(#[trigger] cs[k], #[trigger] cs[l])
}

/// The pair of positions lies at or after `(i, j)` and matches equal elements.
pub open spec fn spec_pair_in<K>(a: Seq<K>, b: Seq<K>, p: (int, int), i: int, j: int) -> bool {
    i <= p.0 < a.len() && j <= p.1 < b.len() && a[p.0] == b[p.1]
}

/// The first pair of positions comes strictly before the second on both sides.
pub open spec fn spec_pair_before(p: (int, int), q: (int, int)) -> bool {
    p.0 < q.0 && p.1 < q.1
}

/// The table walk matches a common subsequence whose length is the longest.
pub proof fn lemma_traceback_is_lcs<K>(a: Seq<K>, b: Seq<K>, i: int, j: int)
    requires
        0 <= i,
        0 <= j,
    ensures
        spec_common_subsequence(a, b, spec_traceback(a, b, i, j), i, j),
        spec_traceback(a, b, i, j).len() == spec_lcs(a, b, i, j),
    decreases a.len() - i + b.len() - j,
{
    if i >= a.len() || j >= b.len() {
    } else if a[i] == b[j] {
        lemma_traceback_is_lcs(a, b, i + 1, j + 1);
        let rest = spec_traceback(a, b, i + 1, j + 1);
        let t = seq![(i, j)] + rest;
        assert forall|k: int, l: int| 0 <= k < l < t.len() implies spec_pair_before(#[trigger] t[k], #[trigger] t[l]) by {
            if k > 0 {
                assert(t[k] == rest[k - 1]);
            }
            assert(t[l] == rest[l - 1]);
        }
        assert forall|k: int| 0 <= k < t.len() implies spec_pair_in(a, b, #[trigger] t[k], i, j) by {
            if k > 0 {
                assert(t[k] == rest[k - 1]);
            }
        }
    } else if spec_lcs(a, b, i + 1, j) >= spec_lcs(a, b, i, j + 1) {
        lemma_traceback_is_lcs(a, b, i + 1, j);
    } else {
        lemma_traceback_is_lcs(a, b, i, j + 1);
    }
}

/// Dropping a head never lengthens the longest common subsequence.
pub proof fn lemma_lcs_monotone<K>(a: Seq<K>, b: Seq<K>, i: int, j: int)
    requires
        0 <= i,
        0 <= j,
    ensures
        spec_lcs(a, b, i + 1, j) <= spec_lcs(a, b, i, j),
        spec_lcs(a, b, i, j + 1) <= spec_lcs(a, b, i, j),
        spec_lcs(a, b, i, j) <= spec_lcs(a, b, i + 1, j + 1) + 1,
    decreases a.len() - i + b.len() - j,
{
    if i >= a.len() || j >= b.len() {
    } else {
        if i + 1 < a.len() && j + 1 < b.len() {
            lemma_lcs_monotone(a, b, i + 1, j);
            lemma_lcs_monotone(a, b, i, j + 1);
            lemma_lcs_monotone(a, b, i + 1, j + 1);
        } else if i + 1 < a.len() {
            lemma_lcs_monotone(a, b, i + 1, j);
        } else if j + 1 < b.len() {
            lemma_lcs_monotone(a, b, i, j + 1);
        }
    }
}

/// No common subsequence at or after `(i, j)` is longer than `spec_lcs(a, b, i, j)`.
pub proof fn lemma_lcs_is_longest<K>(a: Seq<K>, b: Seq<K>, cs: Seq<(int, int)>, i: int, j: int)
    requires
        0 <= i,
        0 <= j,
        spec_common_subsequence(a, b, cs, i, j),
    ensures
        cs.len() <= spec_lcs(a, b, i, j),
    decreases a.len() - i + b.len() - j,
{
    if cs.len() == 0 {
    } else if i >= a.len() || j >= b.len() {
        assert(spec_pair_in(a, b, cs[0], i, j));
    } else {
        let rest = cs.drop_first();
        assert forall|k: int, l: int| 0 <= k < l < rest.len() implies spec_pair_before(#[trigger] rest[k], #[trigger] rest[l]) by {
            assert(rest[k] == cs[k + 1]);
            assert(rest[l] == cs[l + 1]);
        }
        assert forall|k: int| 0 <= k < rest.len() implies spec_pair_in(a, b, #[trigger] rest[k], cs[0].0 + 1, cs[0].1 + 1) by {
            assert(rest[k] == cs[k + 1]);
            assert(spec_pair_before(cs[0], cs[k + 1]));
            assert(spec_pair_in(a, b, cs[k + 1], i, j));
        }
        assert(spec_pair_in(a, b, cs[0], i, j));
        lemma_lcs_monotone(a, b, i, j);
        if cs[0].0 == i && cs[0].1 == j {
            lemma_lcs_is_longest(a, b, rest, i + 1, j + 1);
        } else if cs[0].0 > i {
            assert forall|k: int| 0 <= k < cs.len() implies spec_pair_in(a, b, #[trigger] cs[k], i + 1, j) by {
                if k > 0 {
                    assert(spec_pair_before(cs[0], cs[k]));
                }
            }
            lemma_lcs_is_longest(a, b, cs, i + 1, j);
        } else {
            assert forall|k: int| 0 <= k < cs.len() implies spec_pair_in(a, b, #[trigger] cs[k], i, j + 1) by {
                if k > 0 {
                    assert(spec_pair_before(cs[0], cs[k]));
                }
            }
            lemma_lcs_is_longest(a, b, cs, i, j + 1);
        }
    }
}

proof fn lemma_lcs_bounded<K>(a: Seq<K>, b: Seq<K>, i: int, j: int)
    requires
        0 <= i,
        0 <= j,
    ensures
        spec_lcs(a, b, i, j) <= a.len() - i || i >= a.len(),
    decreases a.len() - i + b.len() - j,
{
    if i >= a.len() || j >= b.len() {
    } else if a[i] == b[j] {
        lemma_lcs_bounded(a, b, i + 1, j + 1);
    } else {
        lemma_lcs_bounded(a, b, i + 1, j);
        lemma_lcs_bounded(a, b, i, j + 1);
    }
}

/// One side's position of a pair of positions: the old side, or the new side.
pub open spec fn spec_side_pos(p: (int, int), second: bool) -> int {
    if second {
        p.1
    } else {
        p.0
    }
}

/// The number of pairs whose position on the side lies below `k`.
pub open spec fn spec_count_below(t: Seq<(int, int)>, second: bool, k: int) -> nat
    decreases t.len(),
{
    if t.len() == 0 {
        0
    } else {
        spec_count_below(t.drop_last(), second, k) + if spec_side_pos(t.last(), second) < k {
            1nat
        } else {
            0nat
        }
    }
}

/// The number of pairs whose position on the side is `x`.
pub open spec fn spec_count_at(t: Seq<(int, int)>, second: bool, x: int) -> nat
    decreases t.len(),
{
    if t.len() == 0 {
        0
    } else {
        spec_count_at(t.drop_last(), second, x) + if spec_side_pos(t.last(), second) == x {
            1nat
        } else {
            0nat
        }
    }
}

/// The pairs' positions on the side strictly increase.
pub open spec fn spec_side_increasing(t: Seq<(int, int)>, second: bool) -> bool {
    forall|k: int, l: int| 0 <= k < l < t.len() ==> spec_side_pos(#[trigger] t[k], second) < spec_side_pos(#[trigger] t[l], second)
}

proof fn lemma_count_split(t: Seq<(int, int)>, second: bool, k: int)
    ensures
        spec_count_below(t, second, k + 1) == spec_count_below(t, second, k) + spec_count_at(t, second, k),
    decreases t.len(),
{
    if t.len() > 0 {
        lemma_count_split(t.drop_last(), second, k);
    }
}

proof fn lemma_count_at(t: Seq<(int, int)>, second: bool, x: int)
    requires
        spec_side_increasing(t, second),
    ensures
        spec_count_at(t, second, x) <= 1,
        spec_count_at(t, second, x) == 1 <==> exists|m: int| 0 <= m < t.len() && spec_side_pos(#[trigger] t[m], second) == x,
    decreases t.len(),
{
    if t.len() > 0 {
        let d = t.drop_last();
        assert(spec_side_increasing(d, second)) by {
            assert forall|k: int, l: int| 0 <= k < l < d.len() implies spec_side_pos(#[trigger] d[k], second) < spec_side_pos(#[trigger] d[l], second) by {
                assert(d[k] == t[k] && d[l] == t[l]);
            }
        }
        lemma_count_at(d, second, x);
        if exists|m: int| 0 <= m < d.len() && spec_side_pos(#[trigger] d[m], second) == x {
            let m = choose|m: int| 0 <= m < d.len() && spec_side_pos(#[trigger] d[m], second) == x;
            assert(d[m] == t[m]);
            assert(spec_side_pos(t[m], second) < spec_side_pos(t[t.len() - 1], second));
        }
        if exists|m: int| 0 <= m < t.len() && spec_side_pos(#[trigger] t[m], second) == x {
            let m = choose|m: int| 0 <= m < t.len() && spec_side_pos(#[trigger] t[m], second) == x;
            if m < d.len() {
                assert(d[m] == t[m]);
            }
        }
    }
}

proof fn lemma_count_below_all(t: Seq<(int, int)>, second: bool, n: int)
    requires
        forall|m: int| 0 <= m < t.len() ==> spec_side_pos(#[trigger] t[m], second) < n,
    ensures
        spec_count_below(t, second, n) == t.len(),
    decreases t.len(),
{
    if t.len() > 0 {
        let d = t.drop_last();
        assert forall|m: int| 0 <= m < d.len() implies spec_side_pos(#[trigger] d[m], second) < n by {
            assert(d[m] == t[m]);
        }
        lemma_count_below_all(d, second, n);
        assert(spec_side_pos(t[t.len() - 1], second) < n);
    }
}

proof fn lemma_unused_len(rows: Seq<(u32, Seq<Seq<char>>)>, t: Seq<(int, int)>, second: bool, used: Set<int>, k: int)
    requires
        spec_side_increasing(t, second),
        forall|m: int| 0 <= m < t.len() ==> spec_side_pos(#[trigger] t[m], second) >= 0,
        forall|x: int| used.contains(x) <==> exists|m: int| 0 <= m < t.len() && spec_side_pos(#[trigger] t[m], second) == x,
        0 <= k,
    ensures
        spec_unused_rows(rows, used, k).len() + spec_count_below(t, second, k) == k,
    decreases k,
{
    if k == 0 {
        lemma_count_below_zero(t, second);
    } else {
        lemma_unused_len(rows, t, second, used, k - 1);
        lemma_count_split(t, second, k - 1);
        lemma_count_at(t, second, k - 1);
    }
}

proof fn lemma_count_below_zero(t: Seq<(int, int)>, second: bool)
    requires
        forall|m: int| 0 <= m < t.len() ==> spec_side_pos(#[trigger] t[m], second) >= 0,
    ensures
        spec_count_below(t, second, 0) == 0,
    decreases t.len(),
{
    if t.len() > 0 {
        let d = t.drop_last();
        assert forall|m: int| 0 <= m < d.len() implies spec_side_pos(#[trigger] d[m], second) >= 0 by {
            assert(d[m] == t[m]);
        }
        lemma_count_below_zero(d, second);
        assert(spec_side_pos(t[t.len() - 1], second) >= 0);
    }
}

/// Every keyed row is either matched or left out, never both: the matched
/// pairs and the removed rows together number the old rows, and the matched
/// pairs and the inserted rows the new rows.
pub proof fn lemma_lcs_partition(olds: Seq<(u32, Seq<Seq<char>>)>, news: Seq<(u32, Seq<Seq<char>>)>)
    ensures
        spec_lcs_matched(olds, news).len() + spec_lcs_removed(olds, news).len() == olds.len(),
        spec_lcs_matched(olds, news).len() + spec_lcs_inserted(olds, news).len() == news.len(),
{
    let a = spec_texts(olds);
    let b = spec_texts(news);
    let t = spec_lcs_pairs(olds, news);
    lemma_traceback_is_lcs(a, b, 0, 0);
    assert(spec_side_increasing(t, false)) by {
        assert forall|k: int, l: int| 0 <= k < l < t.len() implies spec_side_pos(#[trigger] t[k], false) < spec_side_pos(#[trigger] t[l], false) by {
            assert(spec_pair_before(t[k], t[l]));
        }
    }
    assert(spec_side_increasing(t, true)) by {
        assert forall|k: int, l: int| 0 <= k < l < t.len() implies spec_side_pos(#[trigger] t[k], true) < spec_side_pos(#[trigger] t[l], true) by {
            assert(spec_pair_before(t[k], t[l]));
        }
    }
    assert forall|m: int| 0 <= m < t.len() implies spec_side_pos(#[trigger] t[m], false) < olds.len() && spec_side_pos(t[m], false) >= 0 by {
        assert(spec_pair_in(a, b, t[m], 0, 0));
    }
    assert forall|m: int| 0 <= m < t.len() implies spec_side_pos(#[trigger] t[m], true) < news.len() && spec_side_pos(t[m], true) >= 0 by {
        assert(spec_pair_in(a, b, t[m], 0, 0));
    }
    lemma_count_below_all(t, false, olds.len() as int);
    lemma_count_below_all(t, true, news.len() as int);
    assert forall|x: int| spec_firsts(t).contains(x) <==> exists|m: int| 0 <= m < t.len() && spec_side_pos(#[trigger] t[m], false) == x by {
        if spec_firsts(t).contains(x) {
            let m = choose|m: int| 0 <= m < t.len() && #[trigger] t[m].0 == x;
            assert(spec_side_pos(t[m], false) == x);
        }
        if exists|m: int| 0 <= m < t.len() && spec_side_pos(#[trigger] t[m], false) == x {
            let m = choose|m: int| 0 <= m < t.len() && spec_side_pos(#[trigger] t[m], false) == x;
            assert(t[m].0 == x);
        }
    }
    assert forall|x: int| spec_seconds(t).contains(x) <==> exists|m: int| 0 <= m < t.len() && spec_side_pos(#[trigger] t[m], true) == x by {
        if spec_seconds(t).contains(x) {
            let m = choose|m: int| 0 <= m < t.len() && #[trigger] t[m].1 == x;
            assert(spec_side_pos(t[m], true) == x);
        }
        if exists|m: int| 0 <= m < t.len() && spec_side_pos(#[trigger] t[m], true) == x {
            let m = choose|m: int| 0 <= m < t.len() && spec_side_pos(#[trigger] t[m], true) == x;
            assert(t[m].1 == x);
        }
    }
    lemma_unused_len(olds, t, false, spec_firsts(t), olds.len() as int);
    lemma_unused_len(news, t, true, spec_seconds(t), news.len() as int);
}

/// `Err(Cancelled)` if a cancellation token is configured and has fired.
pub fn check_cancelled(cancellation: Option<&dyn Cancellation>) -> (r: Result<(), SheetsDiffError>)
    ensures
        r is Err ==> cancellation is Some && r == Err::<(), SheetsDiffError>(SheetsDiffError::Cancelled),
{
    match cancellation {
        Some(c) => cancel_outcome(c.is_cancelled()),
        None => Ok(()),
    }
}

/// The rows of `rows` whose position is not in `used`, in order.
pub open spec fn spec_unused_rows(rows: Seq<(u32, Seq<Seq<char>>)>, used: Set<int>, k: int) -> Seq<u32>
    decreases k,
{
    if k <= 0 {
        Seq::empty()
    } else {
        spec_unused_rows(rows, used, k - 1) + if used.contains(k - 1) {
            Seq::<u32>::empty()
        } else {
            seq![rows[k - 1].0]
        }
    }
}

/// The first positions of a list of position pairs.
pub open spec fn spec_firsts(t: Seq<(int, int)>) -> Set<int> {
    Set::new(|i: int| exists|k: int| 0 <= k < t.len() && #[trigger] t[k].0 == i)
}

/// The second positions of a list of position pairs.
pub open spec fn spec_seconds(t: Seq<(int, int)>) -> Set<int> {
    Set::new(|j: int| exists|k: int| 0 <= k < t.len() && #[trigger] t[k].1 == j)
}

/// Keyed rows as plain values: each row with the texts of its key.
pub open spec fn spec_abs_rows(rows: Seq<KeyedRow>) -> Seq<(u32, Seq<Seq<char>>)> {
    rows.map_values(|r: KeyedRow| (r.row, spec_key(r.key)))
}

/// The keys of plain keyed rows.
pub open spec fn spec_texts(rows: Seq<(u32, Seq<Seq<char>>)>) -> Seq<Seq<Seq<char>>> {
    rows.map_values(|r: (u32, Seq<Seq<char>>)| r.1)
}

/// The positions a longest-common-subsequence match of the keys pairs.
pub open spec fn spec_lcs_pairs(
    olds: Seq<(u32, Seq<Seq<char>>)>,
    news: Seq<(u32, Seq<Seq<char>>)>,
) -> Seq<(int, int)> {
    spec_traceback(spec_texts(olds), spec_texts(news), 0, 0)
}

/// The `(old row, new row)` pairs of the match.
pub open spec fn spec_lcs_matched(
    olds: Seq<(u32, Seq<Seq<char>>)>,
    news: Seq<(u32, Seq<Seq<char>>)>,
) -> Seq<(u32, u32)> {
    spec_lcs_pairs(olds, news).map_values(|p: (int, int)| (olds[p.0].0, news[p.1].0))
}

/// The old rows the match leaves out.
pub open spec fn spec_lcs_removed(
    olds: Seq<(u32, Seq<Seq<char>>)>,
    news: Seq<(u32, Seq<Seq<char>>)>,
) -> Seq<u32> {
    spec_unused_rows(olds, spec_firsts(spec_lcs_pairs(olds, news)), olds.len() as int)
}

/// The new rows the match leaves out.
pub open spec fn spec_lcs_inserted(
    olds: Seq<(u32, Seq<Seq<char>>)>,
    news: Seq<(u32, Seq<Seq<char>>)>,
) -> Seq<u32> {
    spec_unused_rows(news, spec_seconds(spec_lcs_pairs(olds, news)), news.len() as int)
}

/// The summary counts the mapping's lists, with the given confidence.
pub open spec fn spec_summary_counts(m: RowMapping, confidence: MatchConfidence) -> bool {
    &&& m.summary.matched_rows == m.matched@.len()
    &&& m.summary.removed_rows == m.removed@.len()
    &&& m.summary.inserted_rows == m.inserted@.len()
    &&& m.summary.confidence == confidence
}

/// The mapping a longest-common-subsequence match of the keyed rows gives:
/// the table-walk pairs (as rows), and the rows of each side it leaves out.
pub open spec fn spec_lcs_mapping(
    olds: Seq<(u32, Seq<Seq<char>>)>,
    news: Seq<(u32, Seq<Seq<char>>)>,
    m: RowMapping,
) -> bool {
    &&& m.matched@ == spec_lcs_matched(olds, news)
    &&& m.removed@ == spec_lcs_removed(olds, news)
    &&& m.inserted@ == spec_lcs_inserted(olds, news)
    &&& spec_summary_counts(
        m,
        spec_confidence(m.matched@.len() as int, m.removed@.len() as int, m.inserted@.len() as int),
    )
}

/// Match rows with a longest common subsequence of their keys.
///
/// `cancellation` is polled once per row of the table's fill.
pub fn lcs_match(
    old_rows: &Vec<KeyedRow>,
    new_rows: &Vec<KeyedRow>,
    cancellation: Option<&dyn Cancellation>,
) -> (r: Result<RowMapping, SheetsDiffError>)
    ensures
        r matches Ok(m) ==> spec_lcs_mapping(spec_abs_rows(old_rows@), spec_abs_rows(new_rows@), m),
        r is Err ==> cancellation is Some && r == Err::<RowMapping, SheetsDiffError>(SheetsDiffError::Cancelled),
{
    let ghost a = spec_keys(old_rows@);
    let ghost b = spec_keys(new_rows@);
    let ghost oa = spec_abs_rows(old_rows@);
    let ghost na = spec_abs_rows(new_rows@);
    proof {
        assert(spec_texts(oa) =~= a);
        assert(spec_texts(na) =~= b);
    }
    let m = old_rows.len();
    let n = new_rows.len();
    // table[m - i] holds row i of the table: table[m - i][j] == lcs(i, j).
    let mut table: Vec<Vec<usize>> = Vec::new();
    let mut last: Vec<usize> = Vec::new();
    last.push(0);
    let mut j0: usize = 0;
    while j0 < n
        invariant
            n == b.len(),
            j0 <= n,
            last@.len() == j0 + 1,
            forall|j: int| 0 <= j <= j0 ==> last@[j] == 0,
        decreases n - j0,
    {
        last.push(0);
        j0 += 1;
    }
    proof {
        assert forall|j: int| 0 <= j <= n implies last@[j] == spec_lcs(a, b, m as int, j) by {}
    }
    table.push(last);
    let mut i: usize = m;
    while i > 0
        invariant
            m == a.len(),
            n == b.len(),
            i <= m,
            a == spec_keys(old_rows@),
            b == spec_keys(new_rows@),
            table@.len() == m - i + 1,
            forall|k: int| 0 <= k < table@.len() ==> #[trigger] table@[k]@.len() == n + 1,
            forall|k: int, j: int|
                0 <= k < table@.len() && 0 <= j <= n ==> #[trigger] table@[k]@[j] == spec_lcs(a, b, m - k, j),
        decreases i,
    {
        check_cancelled(cancellation)?;
        let ii = i - 1;
        let mut cur: Vec<usize> = Vec::new();
        cur.push(0);
        let mut z: usize = 0;
        while z < n
            invariant
                z <= n,
                cur@.len() == z + 1,
                forall|q: int| 0 <= q <= z ==> cur@[q] == 0,
            decreases n - z,
        {
            cur.push(0);
            z += 1;
        }
        let below = &table[m - i];
        proof {
            assert(below@.len() == n + 1);
            assert(forall|j: int| 0 <= j <= n ==> below@[j] == spec_lcs(a, b, ii + 1, j));
            lemma_lcs_bounded(a, b, ii as int, n as int);
        }
        let mut j: usize = n;
        while j > 0
            invariant
                m == a.len(),
                n == b.len(),
                ii < m,
                j <= n,
                cur@.len() == n + 1,
                below@.len() == n + 1,
                forall|jj: int| 0 <= jj <= n ==> below@[jj] == spec_lcs(a, b, ii + 1, jj),
                forall|jj: int| j <= jj <= n ==> cur@[jj] == spec_lcs(a, b, ii as int, jj),
                a == spec_keys(old_rows@),
                b == spec_keys(new_rows@),
            decreases j,
        {
            let jj = j - 1;
            proof {
                lemma_lcs_bounded(a, b, ii as int, jj as int);
                lemma_lcs_monotone(a, b, ii as int, jj as int);
            }
            let eq = keys_equal(&old_rows[ii].key, &new_rows[jj].key);
            proof {
                assert(a[ii as int] == spec_key(old_rows@[ii as int].key));
                assert(b[jj as int] == spec_key(new_rows@[jj as int].key));
            }
            let v = if eq {
                below[jj + 1] + 1
            } else {
                let x = below[jj];
                let y = cur[jj + 1];
                if x >= y {
                    x
                } else {
                    y
                }
            };
            cur.set(jj, v);
            j = jj;
        }
        table.push(cur);
        i = ii;
    }
    // Trace back.
    let mut matched: Vec<(u32, u32)> = Vec::new();
    let mut old_used: Vec<bool> = Vec::new();
    let mut new_used: Vec<bool> = Vec::new();
    let mut z: usize = 0;
    while z < m
        invariant
            z <= m,
            old_used@.len() == z,
            forall|q: int| 0 <= q < z ==> !old_used@[q],
        decreases m - z,
    {
        old_used.push(false);
        z += 1;
    }
    let mut z: usize = 0;
    while z < n
        invariant
            z <= n,
            new_used@.len() == z,
            forall|q: int| 0 <= q < z ==> !new_used@[q],
        decreases n - z,
    {
        new_used.push(false);
        z += 1;
    }
    let ghost full = spec_traceback(a, b, 0, 0);
    let ghost mut done: Seq<(int, int)> = Seq::empty();
    let mut i: usize = 0;
    let mut j: usize = 0;
    while i < m && j < n
        invariant
            m == a.len(),
            n == b.len(),
            i <= m,
            j <= n,
            table@.len() == m + 1,
            forall|k: int| 0 <= k < table@.len() ==> #[trigger] table@[k]@.len() == n + 1,
            forall|k: int, jj: int|
                0 <= k < table@.len() && 0 <= jj <= n ==> #[trigger] table@[k]@[jj] == spec_lcs(a, b, m - k, jj),
            done + spec_traceback(a, b, i as int, j as int) == full,
            matched@ == done.map_values(|p: (int, int)| (old_rows@[p.0].row, new_rows@[p.1].row)),
            old_used@.len() == m,
            new_used@.len() == n,
            forall|q: int| 0 <= q < m ==> (old_used@[q] <==> exists|k: int| 0 <= k < done.len() && #[trigger] done[k].0 == q),
            forall|q: int| 0 <= q < n ==> (new_used@[q] <==> exists|k: int| 0 <= k < done.len() && #[trigger] done[k].1 == q),
            forall|k: int| 0 <= k < done.len() ==> #[trigger] done[k].0 < i && done[k].1 < j,
            a == spec_keys(old_rows@),
            b == spec_keys(new_rows@),
        decreases m - i + n - j,
    {
        let eq = keys_equal(&old_rows[i].key, &new_rows[j].key);
        proof {
            assert(a[i as int] == spec_key(old_rows@[i as int].key));
            assert(b[j as int] == spec_key(new_rows@[j as int].key));
        }
        if eq {
            matched.push((old_rows[i].row, new_rows[j].row));
            old_used.set(i, true);
            new_used.set(j, true);
            proof {
                let ghost prev_done = done;
                done = done.push((i as int, j as int));
                assert(done + spec_traceback(a, b, i + 1, j + 1) =~= prev_done + spec_traceback(a, b, i as int, j as int));
                assert(matched@ =~= done.map_values(|p: (int, int)| (old_rows@[p.0].row, new_rows@[p.1].row)));
                assert forall|k: int| 0 <= k < done.len() implies #[trigger] done[k].0 <= i && done[k].1 <= j by {
                    if k < prev_done.len() {
                        assert(done[k] == prev_done[k]);
                    }
                }
                assert forall|q: int| 0 <= q < m implies (old_used@[q] <==> exists|k: int| 0 <= k < done.len() && #[trigger] done[k].0 == q) by {
                    if q == i {
                        assert(done[done.len() - 1].0 == q);
                    } else if old_used@[q] {
                        let k = choose|k: int| 0 <= k < prev_done.len() && #[trigger] prev_done[k].0 == q;
                        assert(done[k] == prev_done[k]);
                    } else {
                        assert forall|k: int| 0 <= k < done.len() implies #[trigger] done[k].0 != q by {
                            if k < prev_done.len() {
                                assert(done[k] == prev_done[k]);
                            }
                        }
                    }
                }
                assert forall|q: int| 0 <= q < n implies (new_used@[q] <==> exists|k: int| 0 <= k < done.len() && #[trigger] done[k].1 == q) by {
                    if q == j {
                        assert(done[done.len() - 1].1 == q);
                    } else if new_used@[q] {
                        let k = choose|k: int| 0 <= k < prev_done.len() && #[trigger] prev_done[k].1 == q;
                        assert(done[k] == prev_done[k]);
                    } else {
                        assert forall|k: int| 0 <= k < done.len() implies #[trigger] done[k].1 != q by {
                            if k < prev_done.len() {
                                assert(done[k] == prev_done[k]);
                            }
                        }
                    }
                }
            }
            i += 1;
            j += 1;
            proof {
                assert forall|k: int| 0 <= k < done.len() implies #[trigger] done[k].0 < i && done[k].1 < j by {}
            }
        } else {
            let down = table[m - (i + 1)][j];
            let right = table[m - i][j + 1];
            if down >= right {
                i += 1;
            } else {
                j += 1;
            }
        }
    }
    proof {
        assert(spec_traceback(a, b, i as int, j as int) =~= Seq::<(int, int)>::empty());
        assert(done =~= full);
        lemma_traceback_is_lcs(a, b, 0, 0);
        assert(matched@ =~= spec_lcs_matched(oa, na)) by {
            assert forall|k: int| 0 <= k < full.len() implies #[trigger] matched@[k] == spec_lcs_matched(oa, na)[k] by {
                assert(spec_pair_in(a, b, full[k], 0, 0));
            }
        }
    }
    let mut removed: Vec<u32> = Vec::new();
    let mut q: usize = 0;
    while q < m
        invariant
            q <= m,
            m == old_rows@.len(),
            old_used@.len() == m,
            forall|p: int| 0 <= p < m ==> (old_used@[p] <==> spec_firsts(full).contains(p)),
            oa == spec_abs_rows(old_rows@),
            removed@ == spec_unused_rows(oa, spec_firsts(full), q as int),
        decreases m - q,
    {
        if !old_used[q] {
            removed.push(old_rows[q].row);
        }
        q += 1;
        assert(removed@ =~= spec_unused_rows(oa, spec_firsts(full), q as int));
    }
    let mut inserted: Vec<u32> = Vec::new();
    let mut q: usize = 0;
    while q < n
        invariant
            q <= n,
            n == new_rows@.len(),
            new_used@.len() == n,
            forall|p: int| 0 <= p < n ==> (new_used@[p] <==> spec_seconds(full).contains(p)),
            na == spec_abs_rows(new_rows@),
            inserted@ == spec_unused_rows(na, spec_seconds(full), q as int),
        decreases n - q,
    {
        if !new_used[q] {
            inserted.push(new_rows[q].row);
        }
        q += 1;
        assert(inserted@ =~= spec_unused_rows(na, spec_seconds(full), q as int));
    }
    let n_matched = matched.len();
    let n_removed = removed.len();
    let n_inserted = inserted.len();
    let confidence = confidence_for(n_matched, n_removed, n_inserted);
    Ok(RowMapping {
        matched,
        removed,
        inserted,
        summary: AlignmentSummaryData {
            inserted_rows: n_inserted,
            removed_rows: n_removed,
            matched_rows: n_matched,
            confidence,
        },
    })
}

/// A row of a sorted cell map together with the run of its entries.
#[derive(Clone, Copy, PartialEq, Eq, Debug)]
pub struct RowSpan {
    pub row: u32,
    pub lo: usize,
    pub hi: usize,
}

/// The span is the whole run of its row in `cells`.
pub open spec fn spec_span_ok(cells: Seq<CellEntry>, sp: RowSpan) -> bool {
    spec_row_run(cells, sp.lo as int, sp.hi as int) && cells[sp.lo as int].row == sp.row
}

/// The rows of a list of spans.
pub open spec fn spec_span_rows(s: Seq<RowSpan>) -> Seq<u32> {
    s.map_values(|sp: RowSpan| sp.row)
}

/// The key of row `r`: for each key column in turn, the display text of the
/// row's cell in that column, where it has one.
pub open spec fn spec_key_of(cells: Seq<CellEntry>, cols: Seq<u32>, r: u32) -> Seq<Seq<char>>
    decreases cols.len(),
{
    if cols.len() == 0 {
        Seq::empty()
    } else {
        spec_key_of(cells, cols.drop_last(), r) + match spec_value_at(cells, r, cols.last()) {
            Some(v) => seq![spec_display(v)],
            None => Seq::empty(),
        }
    }
}

/// When a row has a cell in every key column, its key is the display texts
/// of those cells, one per key column, in the order of the key columns.
pub proof fn lemma_key_is_every_column(cells: Seq<CellEntry>, cols: Seq<u32>, r: u32)
    requires
        forall|i: int| 0 <= i < cols.len() ==> spec_value_at(cells, r, #[trigger] cols[i]) is Some,
    ensures
        spec_key_of(cells, cols, r).len() == cols.len(),
        forall|i: int| 0 <= i < cols.len() ==> #[trigger] spec_key_of(cells, cols, r)[i] == spec_display(
            spec_value_at(cells, r, cols[i]).unwrap(),
        ),
    decreases cols.len(),
{
    if cols.len() > 0 {
        let d = cols.drop_last();
        assert forall|i: int| 0 <= i < d.len() implies spec_value_at(cells, r, #[trigger] d[i]) is Some by {
            assert(d[i] == cols[i]);
        }
        lemma_key_is_every_column(cells, cols.drop_last(), r);
        let k = spec_key_of(cells, cols, r);
        let pk = spec_key_of(cells, d, r);
        assert(spec_value_at(cells, r, cols[cols.len() - 1]) is Some);
        assert(k == pk + seq![spec_display(spec_value_at(cells, r, cols.last()).unwrap())]);
        assert forall|i: int| 0 <= i < cols.len() implies #[trigger] k[i] == spec_display(spec_value_at(cells, r, cols[i]).unwrap()) by {
            if i < d.len() {
                assert(k[i] == pk[i]);
                assert(d[i] == cols[i]);
            }
        }
    }
}

/// A row's key is empty exactly when the row has no cell in any key column.
pub proof fn lemma_key_empty_iff_no_key_cell(cells: Seq<CellEntry>, cols: Seq<u32>, r: u32)
    ensures
        spec_key_of(cells, cols, r).len() == 0 <==> forall|i: int| 0 <= i < cols.len() ==> spec_value_at(cells, r, #[trigger] cols[i]) is None,
    decreases cols.len(),
{
    if cols.len() > 0 {
        let d = cols.drop_last();
        lemma_key_empty_iff_no_key_cell(cells, d, r);
        if forall|i: int| 0 <= i < cols.len() ==> spec_value_at(cells, r, #[trigger] cols[i]) is None {
            assert forall|i: int| 0 <= i < d.len() implies spec_value_at(cells, r, #[trigger] d[i]) is None by {
                assert(d[i] == cols[i]);
            }
            assert(spec_value_at(cells, r, cols[cols.len() - 1]) is None);
        }
        if spec_key_of(cells, cols, r).len() == 0 {
            assert forall|i: int| 0 <= i < cols.len() implies spec_value_at(cells, r, #[trigger] cols[i]) is None by {
                if i < d.len() {
                    assert(d[i] == cols[i]);
                }
            }
        }
    }
}

/// Two rows with a cell in every key column have the same key exactly when
/// they show the same text in each key column: rows that differ in any key
/// column have different keys.
pub proof fn lemma_keys_distinguish_rows(cells: Seq<CellEntry>, cols: Seq<u32>, r1: u32, r2: u32)
    requires
        forall|i: int| 0 <= i < cols.len() ==> spec_value_at(cells, r1, #[trigger] cols[i]) is Some,
        forall|i: int| 0 <= i < cols.len() ==> spec_value_at(cells, r2, #[trigger] cols[i]) is Some,
    ensures
        spec_key_of(cells, cols, r1) == spec_key_of(cells, cols, r2) <==> forall|i: int|
            0 <= i < cols.len() ==> spec_display(spec_value_at(cells, r1, #[trigger] cols[i]).unwrap()) == spec_display(
                spec_value_at(cells, r2, cols[i]).unwrap(),
            ),
{
    lemma_key_is_every_column(cells, cols, r1);
    lemma_key_is_every_column(cells, cols, r2);
    let k1 = spec_key_of(cells, cols, r1);
    let k2 = spec_key_of(cells, cols, r2);
    if forall|i: int| 0 <= i < cols.len() ==> spec_display(spec_value_at(cells, r1, #[trigger] cols[i]).unwrap()) == spec_display(
        spec_value_at(cells, r2, cols[i]).unwrap(),
    ) {
        assert(k1 =~= k2);
    }
    if k1 == k2 {
        assert forall|i: int| 0 <= i < cols.len() implies spec_display(spec_value_at(cells, r1, #[trigger] cols[i]).unwrap()) == spec_display(
            spec_value_at(cells, r2, cols[i]).unwrap(),
        ) by {
            assert(k1[i] == k2[i]);
        }
    }
}

/// The rows among `rows` that have a key, each with its key, in order.
pub open spec fn spec_keyed_rows(cells: Seq<CellEntry>, cols: Seq<u32>, rows: Seq<u32>) -> Seq<
    (u32, Seq<Seq<char>>),
>
    decreases rows.len(),
{
    if rows.len() == 0 {
        Seq::empty()
    } else {
        let p = spec_keyed_rows(cells, cols, rows.drop_last());
        let k = spec_key_of(cells, cols, rows.last());
        if k.len() > 0 {
            p.push((rows.last(), k))
        } else {
            p
        }
    }
}

/// The rows among `rows` that have no key (no cell in any key column), in order.
pub open spec fn spec_keyless_rows(cells: Seq<CellEntry>, cols: Seq<u32>, rows: Seq<u32>) -> Seq<u32>
    decreases rows.len(),
{
    if rows.len() == 0 {
        Seq::empty()
    } else {
        let p = spec_keyless_rows(cells, cols, rows.drop_last());
        if spec_key_of(cells, cols, rows.last()).len() == 0 {
            p.push(rows.last())
        } else {
            p
        }
    }
}

/// The key of the row whose run is `[lo, hi)`.
fn row_key(cells: &Vec<CellEntry>, lo: usize, hi: usize, key_cols: &Vec<u32>) -> (k: Vec<String>)
    requires
        spec_cells_sorted(cells@),
        spec_row_run(cells@, lo as int, hi as int),
    ensures
        spec_key(k) == spec_key_of(cells@, key_cols@, cells@[lo as int].row),
{
    let ghost r = cells@[lo as int].row;
    let mut key: Vec<String> = Vec::new();
    let mut j: usize = 0;
    while j < key_cols.len()
        invariant
            j <= key_cols@.len(),
            spec_cells_sorted(cells@),
            spec_row_run(cells@, lo as int, hi as int),
            r == cells@[lo as int].row,
            spec_key(key) == spec_key_of(cells@, key_cols@.take(j as int), r),
        decreases key_cols@.len() - j,
    {
        let c = key_cols[j];
        let mut k = lo;
        while k < hi && cells[k].col != c
            invariant
                lo <= k <= hi,
                hi <= cells@.len(),
                forall|i: int| lo <= i < k ==> #[trigger] cells@[i].col != c,
            decreases hi - k,
        {
            k += 1;
        }
        proof {
            lemma_run_lookup(cells@, lo as int, hi as int, c, k as int);
            assert(key_cols@.take(j + 1).drop_last() =~= key_cols@.take(j as int));
            assert(key_cols@.take(j + 1).last() == c);
        }
        if k < hi {
            let text = cells[k].value.display_string();
            let ghost before = spec_key(key);
            key.push(text);
            proof {
                assert(spec_key(key) =~= before + seq![spec_display(cells@[k as int].value)]);
            }
        } else {
            proof {
                assert(spec_key(key) =~= spec_key(key) + Seq::<Seq<char>>::empty());
            }
        }
        j += 1;
    }
    proof {
        assert(key_cols@.take(key_cols@.len() as int) =~= key_cols@);
    }
    key
}

/// The rows that have a key, in row order, each with its key.
pub fn extract_row_keys(cells: &Vec<CellEntry>, key_cols: &Vec<u32>) -> (rows: Vec<KeyedRow>)
    requires
        spec_cells_sorted(cells@),
    ensures
        spec_abs_rows(rows@) == spec_keyed_rows(cells@, key_cols@, spec_rows(cells@)),
{
    let n = cells.len();
    let mut out: Vec<KeyedRow> = Vec::new();
    let mut i: usize = 0;
    while i < n
        invariant
            n == cells@.len(),
            i <= n,
            spec_cells_sorted(cells@),
            i < n ==> (i == 0 || cells@[i - 1].row != cells@[i as int].row),
            spec_abs_rows(out@) == spec_keyed_rows(cells@, key_cols@, spec_rows(cells@.take(i as int))),
        decreases n - i,
    {
        let hi = row_end(cells, i);
        let key = row_key(cells, i, hi, key_cols);
        let r = cells[i].row;
        proof {
            lemma_run_take(cells@, i as int, hi as int, hi as int);
            let rows = spec_rows(cells@.take(i as int));
            assert(rows.push(r).drop_last() =~= rows);
        }
        if key.len() > 0 {
            let ghost before = spec_abs_rows(out@);
            out.push(KeyedRow { row: r, key });
            proof {
                assert(spec_abs_rows(out@) =~= before.push((r, spec_key_of(cells@, key_cols@, r))));
            }
        }
        i = hi;
    }
    proof {
        assert(cells@.take(n as int) =~= cells@);
    }
    out
}

/// The rows that have a cell but none in any key column, in row order, each
/// with its run.
pub fn keyless_rows(cells: &Vec<CellEntry>, key_cols: &Vec<u32>) -> (rows: Vec<RowSpan>)
    requires
        spec_cells_sorted(cells@),
    ensures
        spec_span_rows(rows@) == spec_keyless_rows(cells@, key_cols@, spec_rows(cells@)),
        forall|k: int| 0 <= k < rows@.len() ==> spec_span_ok(cells@, #[trigger] rows@[k]),
{
    let n = cells.len();
    let mut out: Vec<RowSpan> = Vec::new();
    let mut i: usize = 0;
    while i < n
        invariant
            n == cells@.len(),
            i <= n,
            spec_cells_sorted(cells@),
            i < n ==> (i == 0 || cells@[i - 1].row != cells@[i as int].row),
            spec_span_rows(out@) == spec_keyless_rows(cells@, key_cols@, spec_rows(cells@.take(i as int))),
            forall|k: int| 0 <= k < out@.len() ==> spec_span_ok(cells@, #[trigger] out@[k]),
        decreases n - i,
    {
        let hi = row_end(cells, i);
        let key = row_key(cells, i, hi, key_cols);
        let r = cells[i].row;
        proof {
            lemma_run_take(cells@, i as int, hi as int, hi as int);
            let rows = spec_rows(cells@.take(i as int));
            assert(rows.push(r).drop_last() =~= rows);
        }
        if key.len() == 0 {
            let ghost before = spec_span_rows(out@);
            out.push(RowSpan { row: r, lo: i, hi });
            proof {
                assert(spec_span_rows(out@) =~= before.push(r));
            }
        }
        i = hi;
    }
    proof {
        assert(cells@.take(n as int) =~= cells@);
    }
    out
}

/// Number of distinct rows with at least one cell.
pub fn distinct_row_count(cells: &Vec<CellEntry>) -> (n: u64)
    requires
        spec_cells_sorted(cells@),
    ensures
        n == spec_rows(cells@).len(),
{
    let len = cells.len();
    let mut count: u64 = 0;
    let mut i: usize = 0;
    while i < len
        invariant
            len == cells@.len(),
            i <= len,
            spec_cells_sorted(cells@),
            i < len ==> (i == 0 || cells@[i - 1].row != cells@[i as int].row),
            count == spec_rows(cells@.take(i as int)).len(),
            count <= i,
        decreases len - i,
    {
        let hi = row_end(cells, i);
        proof {
            lemma_run_take(cells@, i as int, hi as int, hi as int);
        }
        count += 1;
        i = hi;
    }
    proof {
        assert(cells@.take(len as int) =~= cells@);
    }
    count
}

/// Whether the sample admits column `c` (no sample admits every column).
pub open spec fn spec_sampled(sample: Option<Seq<u32>>, c: u32) -> bool {
    match sample {
        None => true,
        Some(cols) => cols.contains(c),
    }
}

/// The signature texts of a list of entries: `"{col}:{display}"` for each
/// sampled entry, in order.
pub open spec fn spec_sig_of(es: Seq<CellEntry>, sample: Option<Seq<u32>>) -> Seq<Seq<char>>
    decreases es.len(),
{
    if es.len() == 0 {
        Seq::empty()
    } else {
        let p = spec_sig_of(es.drop_last(), sample);
        let e = es.last();
        if spec_sampled(sample, e.col) {
            p.push(spec_decimal(e.col as nat) + seq![':'] + spec_display(e.value))
        } else {
            p
        }
    }
}

/// The rows among `rows` with a non-empty signature, each with it, in order.
pub open spec fn spec_signed_rows(cells: Seq<CellEntry>, sample: Option<Seq<u32>>, rows: Seq<u32>) -> Seq<
    (u32, Seq<Seq<char>>),
>
    decreases rows.len(),
{
    if rows.len() == 0 {
        Seq::empty()
    } else {
        let p = spec_signed_rows(cells, sample, rows.drop_last());
        let k = spec_sig_of(spec_row_cells(cells, rows.last()), sample);
        if k.len() > 0 {
            p.push((rows.last(), k))
        } else {
            p
        }
    }
}

/// The rows among `rows` whose signature is empty (no cell in a sampled
/// column), in order.
pub open spec fn spec_unsigned_rows(cells: Seq<CellEntry>, sample: Option<Seq<u32>>, rows: Seq<u32>) -> Seq<u32>
    decreases rows.len(),
{
    if rows.len() == 0 {
        Seq::empty()
    } else {
        let p = spec_unsigned_rows(cells, sample, rows.drop_last());
        if spec_sig_of(spec_row_cells(cells, rows.last()), sample).len() == 0 {
            p.push(rows.last())
        } else {
            p
        }
    }
}

/// The sample as plain values.
pub open spec fn spec_sample_view(sample: Option<&Vec<u32>>) -> Option<Seq<u32>> {
    match sample {
        None => None,
        Some(v) => Some(v@),
    }
}

/// Whether `cols` lists `c`.
fn col_listed(cols: &Vec<u32>, c: u32) -> (r: bool)
    ensures
        r == cols@.contains(c),
{
    let mut i: usize = 0;
    while i < cols.len()
        invariant
            i <= cols@.len(),
            forall|k: int| 0 <= k < i ==> cols@[k] != c,
        decreases cols@.len() - i,
    {
        if cols[i] == c {
            return true;
        }
        i += 1;
    }
    false
}

/// The signature of the entries `[lo, hi)`.
fn run_signature(cells: &Vec<CellEntry>, lo: usize, hi: usize, sample: Option<&Vec<u32>>) -> (sig: Vec<String>)
    requires
        lo <= hi <= cells@.len(),
    ensures
        spec_key(sig) == spec_sig_of(cells@.subrange(lo as int, hi as int), spec_sample_view(sample)),
{
    let mut sig: Vec<String> = Vec::new();
    let mut t = lo;
    while t < hi
        invariant
            lo <= t <= hi,
            hi <= cells@.len(),
            spec_key(sig) == spec_sig_of(cells@.subrange(lo as int, t as int), spec_sample_view(sample)),
        decreases hi - t,
    {
        let e = &cells[t];
        let admitted = match sample {
            None => true,
            Some(cols) => col_listed(cols, e.col),
        };
        proof {
            assert(cells@.subrange(lo as int, t + 1).drop_last() =~= cells@.subrange(lo as int, t as int));
        }
        if admitted {
            let mut text = String::new();
            push_decimal(&mut text, e.col as u64);
            push_char(&mut text, ':');
            let shown = e.value.display_string();
            push_str(&mut text, shown.as_str());
            let ghost before = spec_key(sig);
            sig.push(text);
            proof {
                assert(text@ =~= spec_decimal(e.col as nat) + seq![':'] + spec_display(e.value));
                assert(spec_key(sig) =~= before.push(text@));
            }
        }
        t += 1;
    }
    sig
}

/// The rows with a non-empty signature, in row order, each with its
/// signature: its sampled cells as `"{col}:{display}"`, in column order.
pub fn compute_row_signatures(cells: &Vec<CellEntry>, sample_cols: Option<&Vec<u32>>) -> (rows: Vec<KeyedRow>)
    requires
        spec_cells_sorted(cells@),
    ensures
        spec_abs_rows(rows@) == spec_signed_rows(cells@, spec_sample_view(sample_cols), spec_rows(cells@)),
{
    let n = cells.len();
    let mut out: Vec<KeyedRow> = Vec::new();
    let mut i: usize = 0;
    while i < n
        invariant
            n == cells@.len(),
            i <= n,
            spec_cells_sorted(cells@),
            i < n ==> (i == 0 || cells@[i - 1].row != cells@[i as int].row),
            spec_abs_rows(out@) == spec_signed_rows(
                cells@,
                spec_sample_view(sample_cols),
                spec_rows(cells@.take(i as int)),
            ),
        decreases n - i,
    {
        let hi = row_end(cells, i);
        let sig = run_signature(cells, i, hi, sample_cols);
        let r = cells[i].row;
        proof {
            lemma_run_take(cells@, i as int, hi as int, hi as int);
            lemma_run_cells(cells@, i as int, hi as int);
            let rows = spec_rows(cells@.take(i as int));
            assert(rows.push(r).drop_last() =~= rows);
        }
        if sig.len() > 0 {
            let ghost before = spec_abs_rows(out@);
            out.push(KeyedRow { row: r, key: sig });
            proof {
                assert(spec_abs_rows(out@) =~= before.push(
                    (r, spec_sig_of(spec_row_cells(cells@, r), spec_sample_view(sample_cols))),
                ));
            }
        }
        i = hi;
    }
    proof {
        assert(cells@.take(n as int) =~= cells@);
    }
    out
}

/// The rows that have a cell but none in a sampled column, in row order.
pub fn unsigned_rows(cells: &Vec<CellEntry>, sample_cols: Option<&Vec<u32>>) -> (rows: Vec<u32>)
    requires
        spec_cells_sorted(cells@),
    ensures
        rows@ == spec_unsigned_rows(cells@, spec_sample_view(sample_cols), spec_rows(cells@)),
{
    let n = cells.len();
    let mut out: Vec<u32> = Vec::new();
    let mut i: usize = 0;
    while i < n
        invariant
            n == cells@.len(),
            i <= n,
            spec_cells_sorted(cells@),
            i < n ==> (i == 0 || cells@[i - 1].row != cells@[i as int].row),
            out@ == spec_unsigned_rows(cells@, spec_sample_view(sample_cols), spec_rows(cells@.take(i as int))),
        decreases n - i,
    {
        let hi = row_end(cells, i);
        let sig = run_signature(cells, i, hi, sample_cols);
        let r = cells[i].row;
        proof {
            lemma_run_take(cells@, i as int, hi as int, hi as int);
            lemma_run_cells(cells@, i as int, hi as int);
            let rows = spec_rows(cells@.take(i as int));
            assert(rows.push(r).drop_last() =~= rows);
        }
        if sig.len() == 0 {
            out.push(r);
        }
        i = hi;
    }
    proof {
        assert(cells@.take(n as int) =~= cells@);
    }
    out
}

/// Position `i` holds the first occurrence of its key.
pub open spec fn spec_first_occurrence(keys: Seq<Seq<Seq<char>>>, i: int) -> bool {
    forall|j: int| 0 <= j < i ==> keys[j] != keys[i]
}

/// The key at position `i` occurs again after it.
pub open spec fn spec_repeated_later(keys: Seq<Seq<Seq<char>>>, i: int) -> bool {
    exists|j: int| i < j < keys.len() && keys[j] == keys[i]
}

/// The keys that occur more than once among the first `k`-prefix positions'
/// first occurrences, each once, in order of first occurrence.
pub open spec fn spec_duplicate_keys(keys: Seq<Seq<Seq<char>>>, k: int) -> Seq<Seq<Seq<char>>>
    decreases k,
{
    if k <= 0 {
        Seq::empty()
    } else {
        let p = spec_duplicate_keys(keys, k - 1);
        if spec_first_occurrence(keys, k - 1) && spec_repeated_later(keys, k - 1) {
            p.push(keys[k - 1])
        } else {
            p
        }
    }
}

/// A copy of a key.
fn copy_key(k: &Vec<String>) -> (r: Vec<String>)
    ensures
        spec_key(r) == spec_key(*k),
{
    let mut out: Vec<String> = Vec::new();
    let mut i: usize = 0;
    while i < k.len()
        invariant
            i <= k@.len(),
            out@.len() == i,
            forall|q: int| 0 <= q < i ==> #[trigger] out@[q]@ == k@[q]@,
        decreases k@.len() - i,
    {
        out.push(k[i].clone());
        i += 1;
    }
    assert(spec_key(out) =~= spec_key(*k));
    out
}

/// The keys that more than one row shares, each once, in order of first
/// occurrence.
pub fn find_duplicate_keys(rows: &Vec<KeyedRow>) -> (dups: Vec<Vec<String>>)
    ensures
        dups@.map_values(|k: Vec<String>| spec_key(k)) == spec_duplicate_keys(
            spec_keys(rows@),
            rows@.len() as int,
        ),
{
    let ghost keys = spec_keys(rows@);
    let n = rows.len();
    let mut out: Vec<Vec<String>> = Vec::new();
    let mut i: usize = 0;
    while i < n
        invariant
            n == rows@.len(),
            keys == spec_keys(rows@),
            i <= n,
            out@.map_values(|k: Vec<String>| spec_key(k)) == spec_duplicate_keys(keys, i as int),
        decreases n - i,
    {
        proof {
            assert(keys[i as int] == spec_key(rows@[i as int].key));
        }
        let mut seen_before = false;
        let mut j: usize = 0;
        while j < i
            invariant
                i < n,
                n == rows@.len(),
                keys == spec_keys(rows@),
                j <= i,
                !seen_before ==> forall|q: int| 0 <= q < j ==> keys[q] != keys[i as int],
                seen_before ==> !spec_first_occurrence(keys, i as int),
            decreases i - j,
        {
            proof {
                assert(keys[j as int] == spec_key(rows@[j as int].key));
                assert(keys[i as int] == spec_key(rows@[i as int].key));
            }
            if keys_equal(&rows[j].key, &rows[i].key) {
                seen_before = true;
            }
            j += 1;
        }
        let mut seen_after = false;
        let mut j: usize = i + 1;
        while j < n
            invariant
                i < n,
                n == rows@.len(),
                keys == spec_keys(rows@),
                i < j <= n,
                !seen_after ==> forall|q: int| i < q < j ==> keys[q] != keys[i as int],
                seen_after ==> spec_repeated_later(keys, i as int),
            decreases n - j,
        {
            proof {
                assert(keys[j as int] == spec_key(rows@[j as int].key));
                assert(keys[i as int] == spec_key(rows@[i as int].key));
            }
            if keys_equal(&rows[j].key, &rows[i].key) {
                seen_after = true;
                assert(keys[j as int] == keys[i as int]);
            }
            j += 1;
        }
        if !seen_before && seen_after {
            let ghost before = out@.map_values(|k: Vec<String>| spec_key(k));
            out.push(copy_key(&rows[i].key));
            proof {
                assert(out@.map_values(|k: Vec<String>| spec_key(k)) =~= before.push(keys[i as int]));
            }
        }
        i += 1;
    }
    out
}

/// Two lists of entries hold the same values in the same columns.
pub open spec fn spec_entries_same(a: Seq<CellEntry>, b: Seq<CellEntry>) -> bool {
    &&& a.len() == b.len()
    &&& forall|k: int| 0 <= k < a.len() ==> #[trigger] a[k].col == b[k].col && spec_value_same(a[k].value, b[k].value)
}

/// Old row `r` and new row `s` hold the same values in the same columns.
pub open spec fn spec_rows_same(oc: Seq<CellEntry>, r: u32, nc: Seq<CellEntry>, s: u32) -> bool {
    spec_entries_same(spec_row_cells(oc, r), spec_row_cells(nc, s))
}

/// The first position at or after `from` in `avail` whose new row holds what
/// old row `r` holds.
pub open spec fn spec_first_same(oc: Seq<CellEntry>, r: u32, nc: Seq<CellEntry>, avail: Seq<u32>, from: int) -> Option<int>
    decreases avail.len() - from,
{
    if from < 0 || from >= avail.len() {
        None
    } else if spec_rows_same(oc, r, nc, avail[from]) {
        Some(from)
    } else {
        spec_first_same(oc, r, nc, avail, from + 1)
    }
}

/// Each old row in turn is paired with the first still-unpaired new row that
/// holds the same values in the same columns. The result: the pairs, the old
/// rows left over, and the new rows left over, each in order.
pub open spec fn spec_pairing(oc: Seq<CellEntry>, nc: Seq<CellEntry>, olds: Seq<u32>, news: Seq<u32>) -> (
    Seq<(u32, u32)>,
    Seq<u32>,
    Seq<u32>,
)
    decreases olds.len(),
{
    if olds.len() == 0 {
        (Seq::empty(), Seq::empty(), news)
    } else {
        let t = spec_pairing(oc, nc, olds.drop_last(), news);
        let r = olds.last();
        match spec_first_same(oc, r, nc, t.2, 0) {
            Some(q) => (t.0.push((r, t.2[q])), t.1, t.2.remove(q)),
            None => (t.0, t.1.push(r), t.2),
        }
    }
}

proof fn lemma_first_same(oc: Seq<CellEntry>, r: u32, nc: Seq<CellEntry>, avail: Seq<u32>, from: int, q: int)
    requires
        0 <= from <= q <= avail.len(),
        forall|x: int| from <= x < q ==> !spec_rows_same(oc, r, nc, #[trigger] avail[x]),
        q < avail.len() ==> spec_rows_same(oc, r, nc, avail[q]),
    ensures
        spec_first_same(oc, r, nc, avail, from) == if q < avail.len() {
            Some(q)
        } else {
            None::<int>
        },
    decreases q - from,
{
    if from < q {
        lemma_first_same(oc, r, nc, avail, from + 1, q);
    }
}

/// Whether two rows, given by their runs, hold the same values in the same columns.
fn rows_same(oc: &Vec<CellEntry>, o: RowSpan, nc: &Vec<CellEntry>, n: RowSpan) -> (r: bool)
    requires
        spec_cells_sorted(oc@),
        spec_cells_sorted(nc@),
        spec_span_ok(oc@, o),
        spec_span_ok(nc@, n),
    ensures
        r == spec_rows_same(oc@, o.row, nc@, n.row),
{
    proof {
        lemma_run_cells(oc@, o.lo as int, o.hi as int);
        lemma_run_cells(nc@, n.lo as int, n.hi as int);
    }
    let ghost a = oc@.subrange(o.lo as int, o.hi as int);
    let ghost b = nc@.subrange(n.lo as int, n.hi as int);
    if o.hi - o.lo != n.hi - n.lo {
        return false;
    }
    let len = o.hi - o.lo;
    let mut k: usize = 0;
    while k < len
        invariant
            len == o.hi - o.lo,
            len == n.hi - n.lo,
            o.hi <= oc@.len(),
            n.hi <= nc@.len(),
            a == oc@.subrange(o.lo as int, o.hi as int),
            b == nc@.subrange(n.lo as int, n.hi as int),
            spec_row_cells(oc@, o.row) == a,
            spec_row_cells(nc@, n.row) == b,
            k <= len,
            forall|q: int| 0 <= q < k ==> #[trigger] a[q].col == b[q].col && spec_value_same(a[q].value, b[q].value),
        decreases len - k,
    {
        let x = &oc[o.lo + k];
        let y = &nc[n.lo + k];
        proof {
            assert(a[k as int] == oc@[o.lo + k]);
            assert(b[k as int] == nc@[n.lo + k]);
        }
        if x.col != y.col || !value_same(&x.value, &y.value) {
            proof {
                assert(!(a[k as int].col == b[k as int].col && spec_value_same(a[k as int].value, b[k as int].value)));
            }
            return false;
        }
        k += 1;
    }
    true
}

/// Pairs keyless rows whose content is identical, the k-th such row on the old
/// side with the k-th on the new, in row order. Returns the pairs (old row,
/// new row) and the rows left over on each side.
pub fn pair_identical_rows(
    old_cells: &Vec<CellEntry>,
    new_cells: &Vec<CellEntry>,
    old_keyless: Vec<RowSpan>,
    new_keyless: Vec<RowSpan>,
) -> (r: (Vec<(u32, u32)>, Vec<u32>, Vec<u32>))
    requires
        spec_cells_sorted(old_cells@),
        spec_cells_sorted(new_cells@),
        forall|k: int| 0 <= k < old_keyless@.len() ==> spec_span_ok(old_cells@, #[trigger] old_keyless@[k]),
        forall|k: int| 0 <= k < new_keyless@.len() ==> spec_span_ok(new_cells@, #[trigger] new_keyless@[k]),
    ensures
        (r.0@, r.1@, r.2@) == spec_pairing(
            old_cells@,
            new_cells@,
            spec_span_rows(old_keyless@),
            spec_span_rows(new_keyless@),
        ),
{
    let ghost olds = spec_span_rows(old_keyless@);
    let ghost news = spec_span_rows(new_keyless@);
    let mut avail = new_keyless;
    let mut paired: Vec<(u32, u32)> = Vec::new();
    let mut old_rest: Vec<u32> = Vec::new();
    let n = old_keyless.len();
    let mut i: usize = 0;
    while i < n
        invariant
            n == old_keyless@.len(),
            i <= n,
            olds == spec_span_rows(old_keyless@),
            spec_cells_sorted(old_cells@),
            spec_cells_sorted(new_cells@),
            forall|k: int| 0 <= k < old_keyless@.len() ==> spec_span_ok(old_cells@, #[trigger] old_keyless@[k]),
            forall|k: int| 0 <= k < avail@.len() ==> spec_span_ok(new_cells@, #[trigger] avail@[k]),
            ({
                let t = spec_pairing(old_cells@, new_cells@, olds.take(i as int), news);
                &&& paired@ == t.0
                &&& old_rest@ == t.1
                &&& spec_span_rows(avail@) == t.2
            }),
        decreases n - i,
    {
        let o = old_keyless[i];
        let ghost av = spec_span_rows(avail@);
        let mut q: usize = 0;
        let mut found = false;
        while !found && q < avail.len()
            invariant
                q <= avail@.len(),
                av == spec_span_rows(avail@),
                spec_cells_sorted(old_cells@),
                spec_cells_sorted(new_cells@),
                spec_span_ok(old_cells@, o),
                forall|k: int| 0 <= k < avail@.len() ==> spec_span_ok(new_cells@, #[trigger] avail@[k]),
                forall|x: int| 0 <= x < q ==> !spec_rows_same(old_cells@, o.row, new_cells@, #[trigger] av[x]),
                found ==> q < avail@.len() && spec_rows_same(old_cells@, o.row, new_cells@, av[q as int]),
            decreases avail@.len() - q + if found { 0int } else { 1int },
        {
            if rows_same(old_cells, o, new_cells, avail[q]) {
                found = true;
            } else {
                q += 1;
            }
        }
        proof {
            lemma_first_same(old_cells@, o.row, new_cells@, av, 0, q as int);
            assert(olds.take(i + 1).drop_last() =~= olds.take(i as int));
            assert(olds.take(i + 1).last() == o.row);
        }
        if found {
            let nsp = avail.remove(q);
            paired.push((o.row, nsp.row));
            proof {
                assert(spec_span_rows(avail@) =~= av.remove(q as int));
            }
        } else {
            old_rest.push(o.row);
        }
        i += 1;
    }
    proof {
        assert(olds.take(n as int) =~= olds);
    }
    let mut new_rest: Vec<u32> = Vec::new();
    let mut k: usize = 0;
    while k < avail.len()
        invariant
            k <= avail@.len(),
            new_rest@ == spec_span_rows(avail@).take(k as int),
        decreases avail@.len() - k,
    {
        new_rest.push(avail[k].row);
        k += 1;
        assert(new_rest@ =~= spec_span_rows(avail@).take(k as int));
    }
    assert(new_rest@ =~= spec_span_rows(avail@));
    (paired, old_rest, new_rest)
}

/// The merge of two row lists: repeatedly the smaller head first (the left
/// one on a tie). Two ascending lists merge into their ascending union.
pub open spec fn spec_merge_rows(a: Seq<u32>, b: Seq<u32>) -> Seq<u32>
    decreases a.len() + b.len(),
{
    if a.len() == 0 {
        b
    } else if b.len() == 0 {
        a
    } else if a[0] <= b[0] {
        seq![a[0]] + spec_merge_rows(a.drop_first(), b)
    } else {
        seq![b[0]] + spec_merge_rows(a, b.drop_first())
    }
}

/// The merge of two lists of row pairs by their first row.
pub open spec fn spec_merge_pairs(a: Seq<(u32, u32)>, b: Seq<(u32, u32)>) -> Seq<(u32, u32)>
    decreases a.len() + b.len(),
{
    if a.len() == 0 {
        b
    } else if b.len() == 0 {
        a
    } else if a[0].0 <= b[0].0 {
        seq![a[0]] + spec_merge_pairs(a.drop_first(), b)
    } else {
        seq![b[0]] + spec_merge_pairs(a, b.drop_first())
    }
}

/// Merges two row lists (see `spec_merge_rows`).
pub fn merge_rows(a: &Vec<u32>, b: &Vec<u32>) -> (r: Vec<u32>)
    ensures
        r@ == spec_merge_rows(a@, b@),
{
    let mut out: Vec<u32> = Vec::new();
    let mut i: usize = 0;
    let mut j: usize = 0;
    proof {
        assert(a@.skip(0) =~= a@);
        assert(b@.skip(0) =~= b@);
        assert(out@ + spec_merge_rows(a@, b@) =~= spec_merge_rows(a@, b@));
    }
    while i < a.len() || j < b.len()
        invariant
            i <= a@.len(),
            j <= b@.len(),
            out@ + spec_merge_rows(a@.skip(i as int), b@.skip(j as int)) == spec_merge_rows(a@, b@),
        decreases a@.len() - i + b@.len() - j,
    {
        let ghost x = a@.skip(i as int);
        let ghost y = b@.skip(j as int);
        if j >= b.len() || (i < a.len() && a[i] <= b[j]) {
            proof {
                assert(x.drop_first() =~= a@.skip(i + 1));
                if y.len() == 0 {
                    assert(x =~= seq![x[0]] + x.drop_first());
                }
            }
            out.push(a[i]);
            i += 1;
        } else {
            proof {
                assert(y.drop_first() =~= b@.skip(j + 1));
                if x.len() == 0 {
                    assert(y =~= seq![y[0]] + y.drop_first());
                }
            }
            out.push(b[j]);
            j += 1;
        }
        proof {
            assert(out@ + spec_merge_rows(a@.skip(i as int), b@.skip(j as int)) =~= spec_merge_rows(a@, b@));
        }
    }
    proof {
        assert(a@.skip(i as int) =~= Seq::<u32>::empty());
        assert(out@ =~= out@ + spec_merge_rows(a@.skip(i as int), b@.skip(j as int)));
    }
    out
}

/// Merges two lists of row pairs by their first row (see `spec_merge_pairs`).
pub fn merge_pairs(a: &Vec<(u32, u32)>, b: &Vec<(u32, u32)>) -> (r: Vec<(u32, u32)>)
    ensures
        r@ == spec_merge_pairs(a@, b@),
{
    let mut out: Vec<(u32, u32)> = Vec::new();
    let mut i: usize = 0;
    let mut j: usize = 0;
    proof {
        assert(a@.skip(0) =~= a@);
        assert(b@.skip(0) =~= b@);
        assert(out@ + spec_merge_pairs(a@, b@) =~= spec_merge_pairs(a@, b@));
    }
    while i < a.len() || j < b.len()
        invariant
            i <= a@.len(),
            j <= b@.len(),
            out@ + spec_merge_pairs(a@.skip(i as int), b@.skip(j as int)) == spec_merge_pairs(a@, b@),
        decreases a@.len() - i + b@.len() - j,
    {
        let ghost x = a@.skip(i as int);
        let ghost y = b@.skip(j as int);
        if j >= b.len() || (i < a.len() && a[i].0 <= b[j].0) {
            proof {
                assert(x.drop_first() =~= a@.skip(i + 1));
                if y.len() == 0 {
                    assert(x =~= seq![x[0]] + x.drop_first());
                }
            }
            out.push(a[i]);
            i += 1;
        } else {
            proof {
                assert(y.drop_first() =~= b@.skip(j + 1));
                if x.len() == 0 {
                    assert(y =~= seq![y[0]] + y.drop_first());
                }
            }
            out.push(b[j]);
            j += 1;
        }
        proof {
            assert(out@ + spec_merge_pairs(a@.skip(i as int), b@.skip(j as int)) =~= spec_merge_pairs(a@, b@));
        }
    }
    proof {
        assert(a@.skip(i as int) =~= Seq::<(u32, u32)>::empty());
        assert(out@ =~= out@ + spec_merge_pairs(a@.skip(i as int), b@.skip(j as int)));
    }
    out
}

/// The location of a diagnostic about `sheet` itself: its order and name, no
/// cell address, at the compare stage.
pub open spec fn spec_sheet_location(loc: DiagnosticLocation, sheet: SheetRef) -> bool {
    &&& loc.stage == DiffStage::Compare
    &&& loc.sheet_order == Some(sheet.index)
    &&& loc.sheet_name == Some(sheet.name)
    &&& loc.address is None
}

/// The location of a diagnostic about `sheet` itself.
pub fn sheet_location(sheet: &SheetRef) -> (loc: DiagnosticLocation)
    ensures
        spec_sheet_location(loc, *sheet),
{
    DiagnosticLocation {
        stage: DiffStage::Compare,
        sheet_order: Some(sheet.index),
        sheet_name: Some(sheet.name.clone()),
        address: None,
    }
}

/// The message of the duplicate-key warning.
pub open spec fn spec_dup_message(a: nat, b: nat) -> Seq<char> {
    "duplicate alignment keys detected ("@ + spec_decimal(a) + " distinct key(s) repeated in old, "@
        + spec_decimal(b) + " in new); LCS matching may pair rows ambiguously among duplicates"@
}

/// `d` is the duplicate-key warning about `sheet` with counts `a` and `b`.
pub open spec fn spec_is_dup_diag(d: Diagnostic, sheet: SheetRef, a: nat, b: nat) -> bool {
    &&& d.severity == Severity::Warning
    &&& d.kind == (DiagnosticKind::DuplicateAlignmentKey { old_count: a as usize, new_count: b as usize })
    &&& spec_sheet_location(d.location, sheet)
    &&& d.message@ == spec_dup_message(a, b)
}

/// The message of the missing-key warning.
pub open spec fn spec_missing_message(old_count: nat, new_count: nat, paired: nat, old_rest: nat, new_rest: nat) -> Seq<char> {
    spec_decimal(old_count) + " row(s) in old and "@ + spec_decimal(new_count)
        + " in new have no cell in any alignment key column and cannot be matched by key; "@
        + spec_decimal(paired)
        + " pair(s) of rows with identical values were matched to each other, and the other "@
        + spec_decimal(old_rest) + " old / "@ + spec_decimal(new_rest)
        + " new row(s) are reported as removed / inserted rather than compared with a counterpart"@
}

/// `d` is the missing-key warning about `sheet` with the given counts.
pub open spec fn spec_is_missing_diag(
    d: Diagnostic,
    sheet: SheetRef,
    old_count: nat,
    new_count: nat,
    paired: nat,
    old_rest: nat,
    new_rest: nat,
) -> bool {
    &&& d.severity == Severity::Warning
    &&& d.kind == (DiagnosticKind::MissingAlignmentKey {
        old_count: old_count as usize,
        new_count: new_count as usize,
    })
    &&& spec_sheet_location(d.location, sheet)
    &&& d.message@ == spec_missing_message(old_count, new_count, paired, old_rest, new_rest)
}

/// The message of the alignment-bound warning.
pub open spec fn spec_bound_message(old_rows: nat, new_rows: nat, product: nat, limit: nat) -> Seq<char> {
    "alignment row product ("@ + spec_decimal(old_rows) + " old x "@ + spec_decimal(new_rows)
        + " new = "@ + spec_decimal(product) + ") exceeds max_alignment_product ("@
        + spec_decimal(limit) + "); sheet compared positionally instead"@
}

/// `d` is the alignment-bound warning about `sheet`.
pub open spec fn spec_is_bound_diag(d: Diagnostic, sheet: SheetRef, old_rows: nat, new_rows: nat, product: nat, limit: nat) -> bool {
    &&& d.severity == Severity::Warning
    &&& d.kind == (DiagnosticKind::AlignmentBoundExceeded { limit: limit as u64, observed: product as u64 })
    &&& spec_sheet_location(d.location, sheet)
    &&& d.message@ == spec_bound_message(old_rows, new_rows, product, limit)
}

fn dup_diag(sheet: &SheetRef, a: usize, b: usize) -> (d: Diagnostic)
    ensures
        spec_is_dup_diag(d, *sheet, a as nat, b as nat),
{
    let mut m = String::new();
    push_str(&mut m, "duplicate alignment keys detected (");
    push_decimal(&mut m, a as u64);
    push_str(&mut m, " distinct key(s) repeated in old, ");
    push_decimal(&mut m, b as u64);
    push_str(&mut m, " in new); LCS matching may pair rows ambiguously among duplicates");
    assert(m@ =~= spec_dup_message(a as nat, b as nat));
    Diagnostic {
        severity: Severity::Warning,
        kind: DiagnosticKind::DuplicateAlignmentKey { old_count: a, new_count: b },
        location: sheet_location(sheet),
        message: m,
    }
}

fn missing_diag(sheet: &SheetRef, old_count: usize, new_count: usize, paired: usize, old_rest: usize, new_rest: usize) -> (d: Diagnostic)
    ensures
        spec_is_missing_diag(
            d,
            *sheet,
            old_count as nat,
            new_count as nat,
            paired as nat,
            old_rest as nat,
            new_rest as nat,
        ),
{
    let mut m = String::new();
    push_decimal(&mut m, old_count as u64);
    push_str(&mut m, " row(s) in old and ");
    push_decimal(&mut m, new_count as u64);
    push_str(&mut m, " in new have no cell in any alignment key column and cannot be matched by key; ");
    push_decimal(&mut m, paired as u64);
    push_str(&mut m, " pair(s) of rows with identical values were matched to each other, and the other ");
    push_decimal(&mut m, old_rest as u64);
    push_str(&mut m, " old / ");
    push_decimal(&mut m, new_rest as u64);
    push_str(&mut m, " new row(s) are reported as removed / inserted rather than compared with a counterpart");
    assert(m@ =~= spec_missing_message(
        old_count as nat,
        new_count as nat,
        paired as nat,
        old_rest as nat,
        new_rest as nat,
    ));
    Diagnostic {
        severity: Severity::Warning,
        kind: DiagnosticKind::MissingAlignmentKey { old_count, new_count },
        location: sheet_location(sheet),
        message: m,
    }
}

fn bound_diag(sheet: &SheetRef, old_rows: u64, new_rows: u64, product: u64, limit: u64) -> (d: Diagnostic)
    ensures
        spec_is_bound_diag(d, *sheet, old_rows as nat, new_rows as nat, product as nat, limit as nat),
{
    let mut m = String::new();
    push_str(&mut m, "alignment row product (");
    push_decimal(&mut m, old_rows);
    push_str(&mut m, " old x ");
    push_decimal(&mut m, new_rows);
    push_str(&mut m, " new = ");
    push_decimal(&mut m, product);
    push_str(&mut m, ") exceeds max_alignment_product (");
    push_decimal(&mut m, limit);
    push_str(&mut m, "); sheet compared positionally instead");
    assert(m@ =~= spec_bound_message(old_rows as nat, new_rows as nat, product as nat, limit as nat));
    Diagnostic {
        severity: Severity::Warning,
        kind: DiagnosticKind::AlignmentBoundExceeded { limit, observed: product },
        location: sheet_location(sheet),
        message: m,
    }
}

/// `Exact` and `High` lowered to `Medium`; lower confidences kept.
pub open spec fn spec_at_most_medium(c: MatchConfidence) -> MatchConfidence {
    match c {
        MatchConfidence::Exact | MatchConfidence::High => MatchConfidence::Medium,
        other => other,
    }
}

/// The mapping row-key alignment gives: the longest-common-subsequence match
/// of the keyed rows; and, where some rows have no key, the keyless rows
/// paired by identical content merged in, the rest added to the removed and
/// inserted rows, and the confidence at most `Medium`.
pub open spec fn spec_row_key_mapping(oc: Seq<CellEntry>, nc: Seq<CellEntry>, cols: Seq<u32>, m: RowMapping) -> bool {
    let ka = spec_keyed_rows(oc, cols, spec_rows(oc));
    let kb = spec_keyed_rows(nc, cols, spec_rows(nc));
    let ola = spec_keyless_rows(oc, cols, spec_rows(oc));
    let nla = spec_keyless_rows(nc, cols, spec_rows(nc));
    if ola.len() == 0 && nla.len() == 0 {
        spec_lcs_mapping(ka, kb, m)
    } else {
        let pr = spec_pairing(oc, nc, ola, nla);
        &&& m.matched@ == spec_merge_pairs(spec_lcs_matched(ka, kb), pr.0)
        &&& m.removed@ == spec_merge_rows(spec_lcs_removed(ka, kb), pr.1)
        &&& m.inserted@ == spec_merge_rows(spec_lcs_inserted(ka, kb), pr.2)
        &&& spec_summary_counts(
            m,
            spec_at_most_medium(
                spec_confidence(m.matched@.len() as int, m.removed@.len() as int, m.inserted@.len() as int),
            ),
        )
    }
}

/// The warnings row-key alignment appends: one for duplicate keys if either
/// side has any, then one for rows with no key if either side has any.
pub open spec fn spec_row_key_diagnostics(
    before: Seq<Diagnostic>,
    after: Seq<Diagnostic>,
    oc: Seq<CellEntry>,
    nc: Seq<CellEntry>,
    cols: Seq<u32>,
    sheet: SheetRef,
) -> bool {
    let ka = spec_keyed_rows(oc, cols, spec_rows(oc));
    let kb = spec_keyed_rows(nc, cols, spec_rows(nc));
    let ola = spec_keyless_rows(oc, cols, spec_rows(oc));
    let nla = spec_keyless_rows(nc, cols, spec_rows(nc));
    let da = spec_duplicate_keys(spec_texts(ka), ka.len() as int).len();
    let db = spec_duplicate_keys(spec_texts(kb), kb.len() as int).len();
    let dup = da > 0 || db > 0;
    let miss = ola.len() > 0 || nla.len() > 0;
    let pr = spec_pairing(oc, nc, ola, nla);
    &&& after.len() == before.len() + (if dup { 1int } else { 0 }) + (if miss { 1int } else { 0 })
    &&& after.take(before.len() as int) == before
    &&& dup ==> spec_is_dup_diag(after[before.len() as int], sheet, da, db)
    &&& miss ==> spec_is_missing_diag(
        after.last(),
        sheet,
        ola.len(),
        nla.len(),
        pr.0.len(),
        pr.1.len(),
        pr.2.len(),
    )
}

/// `after` is `before` followed only by warnings located at `sheet` itself.
pub open spec fn spec_sheet_warnings_appended(before: Seq<Diagnostic>, after: Seq<Diagnostic>, sheet: SheetRef) -> bool {
    &&& before.len() <= after.len()
    &&& after.take(before.len() as int) == before
    &&& forall|k: int|
        before.len() <= k < after.len() ==> (#[trigger] after[k]).severity == Severity::Warning && spec_sheet_location(
            after[k].location,
            sheet,
        )
}

proof fn lemma_warnings_none(d: Seq<Diagnostic>, sheet: SheetRef)
    ensures
        spec_sheet_warnings_appended(d, d, sheet),
{
    assert(d.take(d.len() as int) =~= d);
}

proof fn lemma_warnings_push(before: Seq<Diagnostic>, mid: Seq<Diagnostic>, w: Diagnostic, sheet: SheetRef)
    requires
        spec_sheet_warnings_appended(before, mid, sheet),
        w.severity == Severity::Warning,
        spec_sheet_location(w.location, sheet),
    ensures
        spec_sheet_warnings_appended(before, mid.push(w), sheet),
{
    assert(mid.push(w).take(before.len() as int) =~= mid.take(before.len() as int));
    assert forall|k: int| before.len() <= k < mid.push(w).len() implies (#[trigger] mid.push(w)[k]).severity == Severity::Warning && spec_sheet_location(mid.push(w)[k].location, sheet) by {
        if k < mid.len() {
            assert(mid.push(w)[k] == mid[k]);
        }
    }
}

/// Row-key alignment: match rows by the texts of their key columns.
pub fn row_key_alignment(
    old_cells: &Vec<CellEntry>,
    new_cells: &Vec<CellEntry>,
    key_cols: &Vec<u32>,
    cancellation: Option<&dyn Cancellation>,
    sheet: &SheetRef,
    diagnostics: &mut Vec<Diagnostic>,
) -> (r: Result<RowMapping, SheetsDiffError>)
    requires
        spec_cells_sorted(old_cells@),
        spec_cells_sorted(new_cells@),
    ensures
        r is Err ==> cancellation is Some && r == Err::<RowMapping, SheetsDiffError>(SheetsDiffError::Cancelled),
        r matches Ok(m) ==> spec_row_key_mapping(old_cells@, new_cells@, key_cols@, m),
        spec_sheet_warnings_appended(old(diagnostics)@, final(diagnostics)@, *sheet),
        r is Ok ==> spec_row_key_diagnostics(
            old(diagnostics)@,
            final(diagnostics)@,
            old_cells@,
            new_cells@,
            key_cols@,
            *sheet,
        ),
{
    let ghost before = diagnostics@;
    proof {
        lemma_warnings_none(before, *sheet);
    }
    let old_keys = extract_row_keys(old_cells, key_cols);
    let new_keys = extract_row_keys(new_cells, key_cols);
    let old_dups = find_duplicate_keys(&old_keys);
    let new_dups = find_duplicate_keys(&new_keys);
    proof {
        assert(spec_keys(old_keys@) =~= spec_texts(spec_abs_rows(old_keys@)));
        assert(spec_keys(new_keys@) =~= spec_texts(spec_abs_rows(new_keys@)));
    }
    let dup = old_dups.len() > 0 || new_dups.len() > 0;
    if dup {
        let dd = dup_diag(sheet, old_dups.len(), new_dups.len());
        proof {
            lemma_warnings_push(before, diagnostics@, dd, *sheet);
        }
        diagnostics.push(dd);
    }
    let ghost mid = diagnostics@;
    let old_keyless = keyless_rows(old_cells, key_cols);
    let new_keyless = keyless_rows(new_cells, key_cols);
    let mut mapping = match lcs_match(&old_keys, &new_keys, cancellation) {
        Ok(m) => m,
        Err(e) => {
            return Err(e);
        },
    };
    if old_keyless.len() > 0 || new_keyless.len() > 0 {
        let old_count = old_keyless.len();
        let new_count = new_keyless.len();
        let (paired, old_rest, new_rest) = pair_identical_rows(old_cells, new_cells, old_keyless, new_keyless);
        let md = missing_diag(sheet, old_count, new_count, paired.len(), old_rest.len(), new_rest.len());
        proof {
            lemma_warnings_push(before, diagnostics@, md, *sheet);
        }
        diagnostics.push(md);
        let matched = merge_pairs(&mapping.matched, &paired);
        let removed = merge_rows(&mapping.removed, &old_rest);
        let inserted = merge_rows(&mapping.inserted, &new_rest);
        let n_matched = matched.len();
        let n_removed = removed.len();
        let n_inserted = inserted.len();
        let confidence = match confidence_for(n_matched, n_removed, n_inserted) {
            MatchConfidence::Exact => MatchConfidence::Medium,
            MatchConfidence::High => MatchConfidence::Medium,
            lower => lower,
        };
        mapping = RowMapping {
            matched,
            removed,
            inserted,
            summary: AlignmentSummaryData {
                inserted_rows: n_inserted,
                removed_rows: n_removed,
                matched_rows: n_matched,
                confidence,
            },
        };
        proof {
            assert(diagnostics@.take(before.len() as int) =~= before);
        }
    } else {
        proof {
            assert(diagnostics@.take(before.len() as int) =~= before);
        }
    }
    Ok(mapping)
}

/// The mapping row-signature alignment gives: the longest-common-subsequence
/// match of the rows with a signature, the rows without one (no cell in a
/// sampled column) added to the removed and inserted rows.
pub open spec fn spec_signature_mapping(oc: Seq<CellEntry>, nc: Seq<CellEntry>, sample: Option<Seq<u32>>, m: RowMapping) -> bool {
    let sa = spec_signed_rows(oc, sample, spec_rows(oc));
    let sb = spec_signed_rows(nc, sample, spec_rows(nc));
    &&& m.matched@ == spec_lcs_matched(sa, sb)
    &&& m.removed@ == spec_merge_rows(spec_lcs_removed(sa, sb), spec_unsigned_rows(oc, sample, spec_rows(oc)))
    &&& m.inserted@ == spec_merge_rows(spec_lcs_inserted(sa, sb), spec_unsigned_rows(nc, sample, spec_rows(nc)))
    &&& spec_summary_counts(
        m,
        spec_confidence(m.matched@.len() as int, m.removed@.len() as int, m.inserted@.len() as int),
    )
}

/// Row-signature alignment: match rows by the texts of their (sampled) cells;
/// a row with no cell in a sampled column is removed or inserted.
pub fn row_signature_alignment(
    old_cells: &Vec<CellEntry>,
    new_cells: &Vec<CellEntry>,
    sample_cols: Option<&Vec<u32>>,
    cancellation: Option<&dyn Cancellation>,
) -> (r: Result<RowMapping, SheetsDiffError>)
    requires
        spec_cells_sorted(old_cells@),
        spec_cells_sorted(new_cells@),
    ensures
        r is Err ==> cancellation is Some && r == Err::<RowMapping, SheetsDiffError>(SheetsDiffError::Cancelled),
        r matches Ok(m) ==> spec_signature_mapping(old_cells@, new_cells@, spec_sample_view(sample_cols), m),
{
    let old_sigs = compute_row_signatures(old_cells, sample_cols);
    let new_sigs = compute_row_signatures(new_cells, sample_cols);
    let m = lcs_match(&old_sigs, &new_sigs, cancellation)?;
    let old_rest = unsigned_rows(old_cells, sample_cols);
    let new_rest = unsigned_rows(new_cells, sample_cols);
    let removed = merge_rows(&m.removed, &old_rest);
    let inserted = merge_rows(&m.inserted, &new_rest);
    let matched = m.matched;
    let n_matched = matched.len();
    let n_removed = removed.len();
    let n_inserted = inserted.len();
    let confidence = confidence_for(n_matched, n_removed, n_inserted);
    Ok(RowMapping {
        matched,
        removed,
        inserted,
        summary: AlignmentSummaryData {
            inserted_rows: n_inserted,
            removed_rows: n_removed,
            matched_rows: n_matched,
            confidence,
        },
    })
}

/// `a * b`, or `u64::MAX` where that does not fit.
pub open spec fn spec_saturating_product(a: nat, b: nat) -> nat {
    if a * b > u64::MAX {
        u64::MAX as nat
    } else {
        a * b
    }
}

/// The alignment-table bound is set and the distinct-row product exceeds it.
pub open spec fn spec_bound_exceeded(oc: Seq<CellEntry>, nc: Seq<CellEntry>, limit: Option<u64>) -> bool {
    match limit {
        Some(l) => spec_saturating_product(spec_rows(oc).len(), spec_rows(nc).len()) > l,
        None => false,
    }
}

/// The sample of a row-signature mode as plain values.
pub open spec fn spec_opt_cols(c: Option<Vec<u32>>) -> Option<Seq<u32>> {
    match c {
        Some(v) => Some(v@),
        None => None,
    }
}

/// Computes a row mapping under the configured alignment mode.
///
/// `None` when the mode is `Positional`, or when the product of the two sides'
/// distinct row counts exceeds `max_alignment_product`: then the sheet is
/// compared positionally and an `AlignmentBoundExceeded` warning about `sheet`
/// is appended. It never errors but for cancellation, polled once per row of
/// the alignment table's fill.
pub fn compute_row_mapping(
    old_cells: &Vec<CellEntry>,
    new_cells: &Vec<CellEntry>,
    mode: &AlignmentMode,
    max_alignment_product: Option<u64>,
    cancellation: Option<&dyn Cancellation>,
    sheet: &SheetRef,
    diagnostics: &mut Vec<Diagnostic>,
) -> (r: Result<Option<RowMapping>, SheetsDiffError>)
    requires
        spec_cells_sorted(old_cells@),
        spec_cells_sorted(new_cells@),
    ensures
        r is Err ==> cancellation is Some && !(*mode is Positional) && r == Err::<Option<RowMapping>, SheetsDiffError>(
            SheetsDiffError::Cancelled,
        ),
        *mode is Positional ==> r == Ok::<Option<RowMapping>, SheetsDiffError>(None) && final(diagnostics)@
            == old(diagnostics)@,
        !(*mode is Positional) && spec_bound_exceeded(old_cells@, new_cells@, max_alignment_product) ==> {
            let a = spec_rows(old_cells@).len();
            let b = spec_rows(new_cells@).len();
            &&& r == Ok::<Option<RowMapping>, SheetsDiffError>(None)
            &&& final(diagnostics)@.len() == old(diagnostics)@.len() + 1
            &&& final(diagnostics)@.drop_last() == old(diagnostics)@
            &&& spec_is_bound_diag(
                final(diagnostics)@.last(),
                *sheet,
                a,
                b,
                spec_saturating_product(a, b),
                max_alignment_product.unwrap() as nat,
            )
        },
        !(*mode is Positional) && !spec_bound_exceeded(old_cells@, new_cells@, max_alignment_product) ==> {
            &&& !(r matches Ok(None))
            &&& (r matches Ok(Some(m)) ==> match *mode {
                AlignmentMode::RowKey { columns } => spec_row_key_mapping(old_cells@, new_cells@, columns@, m)
                    && spec_row_key_diagnostics(
                    old(diagnostics)@,
                    final(diagnostics)@,
                    old_cells@,
                    new_cells@,
                    columns@,
                    *sheet,
                ),
                AlignmentMode::RowSignature { sample_columns } => spec_signature_mapping(
                    old_cells@,
                    new_cells@,
                    spec_opt_cols(sample_columns),
                    m,
                ) && final(diagnostics)@ == old(diagnostics)@,
                AlignmentMode::Positional => true,
            })
        },
        r matches Ok(Some(m)) ==> spec_mapping_ordered(m) && spec_mapping_places(old_cells@, new_cells@, m),
        spec_sheet_warnings_appended(old(diagnostics)@, final(diagnostics)@, *sheet),
{
    proof {
        lemma_warnings_none(diagnostics@, *sheet);
    }
    if let AlignmentMode::Positional = mode {
        return Ok(None);
    }
    if let Some(limit) = max_alignment_product {
        let old_rows = distinct_row_count(old_cells);
        let new_rows = distinct_row_count(new_cells);
        let product = match old_rows.checked_mul(new_rows) {
            Some(p) => p,
            None => u64::MAX,
        };
        if product > limit {
            let bd = bound_diag(sheet, old_rows, new_rows, product, limit);
            proof {
                lemma_warnings_push(old(diagnostics)@, diagnostics@, bd, *sheet);
            }
            diagnostics.push(bd);
            proof {
                assert(diagnostics@.drop_last() =~= old(diagnostics)@);
            }
            return Ok(None);
        }
    }
    match mode {
        AlignmentMode::Positional => Ok(None),
        AlignmentMode::RowKey { columns } => {
            let m = row_key_alignment(old_cells, new_cells, columns, cancellation, sheet, diagnostics)?;
            proof {
                lemma_row_key_mapping_ordered(old_cells@, new_cells@, columns@, m);
                lemma_row_key_mapping_places(old_cells@, new_cells@, columns@, m);
            }
            Ok(Some(m))
        },
        AlignmentMode::RowSignature { sample_columns } => {
            let sample: Option<&Vec<u32>> = match sample_columns {
                Some(v) => Some(v),
                None => None,
            };
            let m = row_signature_alignment(old_cells, new_cells, sample, cancellation)?;
            proof {
                lemma_signature_mapping_ordered(old_cells@, new_cells@, spec_sample_view(sample), m);
                lemma_signature_mapping_places(old_cells@, new_cells@, spec_sample_view(sample), m);
            }
            Ok(Some(m))
        },
    }
}

} // verus!