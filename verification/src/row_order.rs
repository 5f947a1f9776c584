//! Row order of an alignment's result: the rows it matches, removes and
//! inserts each come in increasing order, and no row is both matched and
//! removed.

use vstd::prelude::*;

use crate::align::{
    lemma_traceback_is_lcs, spec_first_same, spec_firsts, spec_pairing, spec_key_of, spec_keyed_rows, spec_keyless_rows, spec_lcs_inserted,
    spec_lcs_matched, spec_lcs_pairs, spec_lcs_removed, spec_pair_before, spec_pair_in, spec_seconds, spec_sig_of,
    spec_signed_rows, spec_texts, spec_unused_rows, spec_lcs_mapping, spec_row_key_mapping, spec_merge_rows,
    spec_merge_pairs, spec_signature_mapping, spec_unsigned_rows, RowMapping,
};
use crate::cells::{lemma_rows_last, spec_cells_sorted, spec_row_cells, spec_rows, CellEntry};

verus! {

/// The rows strictly increase.
pub open spec fn spec_incr(s: Seq<u32>) -> bool {
    forall|i: int, j: int| 0 <= i < j < s.len() ==> #[trigger] s[i] < #[trigger] s[j]
}

/// `x` is one of the rows.
pub open spec fn spec_has_row(s: Seq<u32>, x: u32) -> bool {
    exists|t: int| 0 <= t < s.len() && #[trigger] s[t] == x
}

/// No row is in both lists.
pub open spec fn spec_disjoint(a: Seq<u32>, b: Seq<u32>) -> bool {
    forall|i: int, j: int| 0 <= i < a.len() && 0 <= j < b.len() ==> #[trigger] a[i] != #[trigger] b[j]
}

/// The first rows of a list of row pairs.
pub open spec fn spec_fsts(p: Seq<(u32, u32)>) -> Seq<u32> {
    p.map_values(|x: (u32, u32)| x.0)
}

/// The row numbers of a list of rows, each with its texts.
pub open spec fn spec_row_nums(a: Seq<(u32, Seq<Seq<char>>)>) -> Seq<u32> {
    a.map_values(|x: (u32, Seq<Seq<char>>)| x.0)
}

proof fn lemma_drop_last_incr(rows: Seq<u32>)
    requires
        spec_incr(rows),
        rows.len() > 0,
    ensures
        spec_incr(rows.drop_last()),
        forall|x: u32| #[trigger] spec_has_row(rows.drop_last(), x) ==> x < rows.last() && spec_has_row(rows, x),
{
    let d = rows.drop_last();
    assert forall|i: int, j: int| 0 <= i < j < d.len() implies #[trigger] d[i] < #[trigger] d[j] by {
        assert(d[i] == rows[i] && d[j] == rows[j]);
    }
    assert forall|x: u32| #[trigger] spec_has_row(d, x) implies x < rows.last() && spec_has_row(rows, x) by {
        let t = choose|t: int| 0 <= t < d.len() && #[trigger] d[t] == x;
        assert(rows[t] == x);
    }
}

/// Appending a row above every row of an increasing list keeps it increasing.
proof fn lemma_push_incr(p: Seq<u32>, x: u32)
    requires
        spec_incr(p),
        forall|y: u32| spec_has_row(p, y) ==> y < x,
    ensures
        spec_incr(p.push(x)),
        forall|y: u32| spec_has_row(p.push(x), y) <==> spec_has_row(p, y) || y == x,
{
    let s = p.push(x);
    assert forall|i: int, j: int| 0 <= i < j < s.len() implies #[trigger] s[i] < #[trigger] s[j] by {
        assert(s[i] == p[i]);
        if j == s.len() - 1 {
            assert(spec_has_row(p, p[i]));
        } else {
            assert(s[j] == p[j]);
        }
    }
    assert forall|y: u32| spec_has_row(s, y) <==> spec_has_row(p, y) || y == x by {
        if spec_has_row(s, y) {
            let t = choose|t: int| 0 <= t < s.len() && #[trigger] s[t] == y;
            if t < p.len() {
                assert(p[t] == y);
            }
        }
        if spec_has_row(p, y) {
            let t = choose|t: int| 0 <= t < p.len() && #[trigger] p[t] == y;
            assert(s[t] == y);
        }
        if y == x {
            assert(s[s.len() - 1] == y);
        }
    }
}

/// The rows with a key come in increasing order, each a row of `rows` with a
/// non-empty key.
pub proof fn lemma_keyed_rows_incr(cells: Seq<CellEntry>, cols: Seq<u32>, rows: Seq<u32>)
    requires
        spec_incr(rows),
    ensures
        spec_incr(spec_row_nums(spec_keyed_rows(cells, cols, rows))),
        forall|x: u32| #[trigger] spec_has_row(spec_row_nums(spec_keyed_rows(cells, cols, rows)), x)
            ==> spec_has_row(rows, x) && spec_key_of(cells, cols, x).len() > 0,
    decreases rows.len(),
{
    if rows.len() > 0 {
        let d = rows.drop_last();
        lemma_drop_last_incr(rows);
        lemma_keyed_rows_incr(cells, cols, d);
        let q = spec_keyed_rows(cells, cols, d);
        let p = spec_row_nums(q);
        let s = spec_row_nums(spec_keyed_rows(cells, cols, rows));
        let k = spec_key_of(cells, cols, rows.last());
        assert forall|y: u32| spec_has_row(p, y) implies y < rows.last() && spec_has_row(rows, y) by {
            assert(spec_has_row(d, y));
        }
        assert(spec_has_row(rows, rows.last())) by {
            assert(rows[rows.len() - 1] == rows.last());
        }
        if k.len() > 0 {
            assert(s =~= p.push(rows.last()));
            lemma_push_incr(p, rows.last());
            assert forall|x: u32| #[trigger] spec_has_row(s, x) implies spec_has_row(rows, x) && spec_key_of(cells, cols, x).len() > 0 by {
                if x != rows.last() {
                    assert(spec_has_row(p, x));
                }
            }
        } else {
            assert(s =~= p);
        }
    }
}

/// The rows without a key come in increasing order, each a row of `rows`
/// with an empty key.
pub proof fn lemma_keyless_rows_incr(cells: Seq<CellEntry>, cols: Seq<u32>, rows: Seq<u32>)
    requires
        spec_incr(rows),
    ensures
        spec_incr(spec_keyless_rows(cells, cols, rows)),
        forall|x: u32| #[trigger] spec_has_row(spec_keyless_rows(cells, cols, rows), x)
            ==> spec_has_row(rows, x) && spec_key_of(cells, cols, x).len() == 0,
    decreases rows.len(),
{
    if rows.len() > 0 {
        let d = rows.drop_last();
        lemma_drop_last_incr(rows);
        lemma_keyless_rows_incr(cells, cols, d);
        let p = spec_keyless_rows(cells, cols, d);
        let s = spec_keyless_rows(cells, cols, rows);
        assert forall|y: u32| spec_has_row(p, y) implies y < rows.last() && spec_has_row(rows, y) by {
            assert(spec_has_row(d, y));
        }
        assert(spec_has_row(rows, rows.last())) by {
            assert(rows[rows.len() - 1] == rows.last());
        }
        if spec_key_of(cells, cols, rows.last()).len() == 0 {
            lemma_push_incr(p, rows.last());
            assert forall|x: u32| #[trigger] spec_has_row(s, x) implies spec_has_row(rows, x) && spec_key_of(cells, cols, x).len() == 0 by {
                if x != rows.last() {
                    assert(spec_has_row(p, x));
                }
            }
        }
    }
}

/// The rows with a signature come in increasing order, each a row of `rows`.
pub proof fn lemma_signed_rows_incr(cells: Seq<CellEntry>, sample: Option<Seq<u32>>, rows: Seq<u32>)
    requires
        spec_incr(rows),
    ensures
        spec_incr(spec_row_nums(spec_signed_rows(cells, sample, rows))),
        forall|x: u32| #[trigger] spec_has_row(spec_row_nums(spec_signed_rows(cells, sample, rows)), x) ==> spec_has_row(rows, x)
            && spec_sig_of(spec_row_cells(cells, x), sample).len() > 0,
    decreases rows.len(),
{
    if rows.len() > 0 {
        let d = rows.drop_last();
        lemma_drop_last_incr(rows);
        lemma_signed_rows_incr(cells, sample, d);
        let p = spec_row_nums(spec_signed_rows(cells, sample, d));
        let s = spec_row_nums(spec_signed_rows(cells, sample, rows));
        let k = spec_sig_of(spec_row_cells(cells, rows.last()), sample);
        assert forall|y: u32| spec_has_row(p, y) implies y < rows.last() && spec_has_row(rows, y) by {
            assert(spec_has_row(d, y));
        }
        assert(spec_has_row(rows, rows.last())) by {
            assert(rows[rows.len() - 1] == rows.last());
        }
        if k.len() > 0 {
            assert(s =~= p.push(rows.last()));
            lemma_push_incr(p, rows.last());
            assert forall|x: u32| #[trigger] spec_has_row(s, x) implies spec_has_row(rows, x)
                && spec_sig_of(spec_row_cells(cells, x), sample).len() > 0 by {
                if x != rows.last() {
                    assert(spec_has_row(p, x));
                }
            }
        } else {
            assert(s =~= p);
        }
    }
}

/// The rows left unused among the first `k` come in increasing order, each
/// the row of an unused position below `k`.
proof fn lemma_unused_rows_incr(rows: Seq<(u32, Seq<Seq<char>>)>, used: Set<int>, k: int)
    requires
        spec_incr(spec_row_nums(rows)),
        0 <= k <= rows.len(),
    ensures
        spec_incr(spec_unused_rows(rows, used, k)),
        forall|x: u32| #[trigger] spec_has_row(spec_unused_rows(rows, used, k), x)
            ==> exists|p: int| 0 <= p < k && !used.contains(p) && #[trigger] rows[p].0 == x,
    decreases k,
{
    if k > 0 {
        lemma_unused_rows_incr(rows, used, k - 1);
        let p = spec_unused_rows(rows, used, k - 1);
        let s = spec_unused_rows(rows, used, k);
        let x = rows[k - 1].0;
        if used.contains(k - 1) {
            assert(s =~= p);
        } else {
            assert(s =~= p.push(x));
            assert forall|y: u32| spec_has_row(p, y) implies y < x by {
                let q = choose|q: int| 0 <= q < k - 1 && !used.contains(q) && #[trigger] rows[q].0 == y;
                assert(spec_row_nums(rows)[q] == y);
                assert(spec_row_nums(rows)[k - 1] == x);
            }
            lemma_push_incr(p, x);
            assert forall|y: u32| spec_has_row(s, y) implies exists|q: int| 0 <= q < k && !used.contains(q) && #[trigger] rows[q].0 == y by {
                if y != x {
                    assert(spec_has_row(p, y));
                }
            }
        }
    }
}

/// A longest-common-subsequence match of rows given in increasing order: its
/// matched old rows, removed rows and inserted rows each come in increasing
/// order, no old row is both matched and removed, and each row is one of its
/// side's.
pub proof fn lemma_lcs_ordered(olds: Seq<(u32, Seq<Seq<char>>)>, news: Seq<(u32, Seq<Seq<char>>)>)
    requires
        spec_incr(spec_row_nums(olds)),
        spec_incr(spec_row_nums(news)),
    ensures
        spec_incr(spec_fsts(spec_lcs_matched(olds, news))),
        spec_incr(spec_lcs_removed(olds, news)),
        spec_incr(spec_lcs_inserted(olds, news)),
        spec_disjoint(spec_fsts(spec_lcs_matched(olds, news)), spec_lcs_removed(olds, news)),
        forall|x: u32| #[trigger] spec_has_row(spec_fsts(spec_lcs_matched(olds, news)), x) ==> spec_has_row(spec_row_nums(olds), x),
        forall|x: u32| #[trigger] spec_has_row(spec_lcs_removed(olds, news), x) ==> spec_has_row(spec_row_nums(olds), x),
        forall|x: u32| #[trigger] spec_has_row(spec_lcs_inserted(olds, news), x) ==> spec_has_row(spec_row_nums(news), x),
{
    let a = spec_texts(olds);
    let b = spec_texts(news);
    let t = spec_lcs_pairs(olds, news);
    let on = spec_row_nums(olds);
    let nn = spec_row_nums(news);
    let f = spec_fsts(spec_lcs_matched(olds, news));
    let rem = spec_lcs_removed(olds, news);
    let ins = spec_lcs_inserted(olds, news);
    lemma_traceback_is_lcs(a, b, 0, 0);
    assert forall|k: int| 0 <= k < t.len() implies 0 <= (#[trigger] t[k]).0 < olds.len() && 0 <= t[k].1 < news.len() by {
        assert(spec_pair_in(a, b, t[k], 0, 0));
    }
    assert forall|k: int| 0 <= k < f.len() implies #[trigger] f[k] == on[t[k].0] by {
    }
    assert forall|i: int, j: int| 0 <= i < j < f.len() implies #[trigger] f[i] < #[trigger] f[j] by {
        assert(spec_pair_before(t[i], t[j]));
        assert(f[i] == on[t[i].0] && f[j] == on[t[j].0]);
    }
    lemma_unused_rows_incr(olds, spec_firsts(t), olds.len() as int);
    lemma_unused_rows_incr(news, spec_seconds(t), news.len() as int);
    assert forall|i: int, j: int| 0 <= i < f.len() && 0 <= j < rem.len() implies #[trigger] f[i] != #[trigger] rem[j] by {
        assert(spec_has_row(rem, rem[j]));
        let p = choose|p: int| 0 <= p < olds.len() && !spec_firsts(t).contains(p) && #[trigger] olds[p].0 == rem[j];
        assert(spec_firsts(t).contains(t[i].0));
        assert(on[p] == olds[p].0 && on[t[i].0] == olds[t[i].0].0);
        if p < t[i].0 {
            assert(on[p] < on[t[i].0]);
        } else {
            assert(p != t[i].0);
            assert(on[t[i].0] < on[p]);
        }
    }
    assert forall|x: u32| #[trigger] spec_has_row(f, x) implies spec_has_row(on, x) by {
        let k = choose|k: int| 0 <= k < f.len() && #[trigger] f[k] == x;
        assert(on[t[k].0] == x);
    }
    assert forall|x: u32| #[trigger] spec_has_row(rem, x) implies spec_has_row(on, x) by {
        let p = choose|p: int| 0 <= p < olds.len() && !spec_firsts(t).contains(p) && #[trigger] olds[p].0 == x;
        assert(on[p] == x);
    }
    assert forall|x: u32| #[trigger] spec_has_row(ins, x) implies spec_has_row(nn, x) by {
        let p = choose|p: int| 0 <= p < news.len() && !spec_seconds(t).contains(p) && #[trigger] news[p].0 == x;
        assert(nn[p] == x);
    }
}

proof fn lemma_first_same_range(oc: Seq<CellEntry>, r: u32, nc: Seq<CellEntry>, avail: Seq<u32>, from: int)
    requires
        0 <= from,
    ensures
        spec_first_same(oc, r, nc, avail, from) matches Some(q) ==> from <= q < avail.len(),
    decreases avail.len() - from,
{
    if from < avail.len() {
        lemma_first_same_range(oc, r, nc, avail, from + 1);
    }
}

/// Removing one row of an increasing list keeps it increasing, and keeps
/// only rows it had.
proof fn lemma_remove_incr(p: Seq<u32>, q: int)
    requires
        spec_incr(p),
        0 <= q < p.len(),
    ensures
        spec_incr(p.remove(q)),
        forall|y: u32| #[trigger] spec_has_row(p.remove(q), y) ==> spec_has_row(p, y),
{
    let s = p.remove(q);
    assert forall|i: int| 0 <= i < s.len() implies #[trigger] s[i] == if i < q { p[i] } else { p[i + 1] } by {
    }
    assert forall|i: int, j: int| 0 <= i < j < s.len() implies #[trigger] s[i] < #[trigger] s[j] by {
        let pi = if i < q { i } else { i + 1 };
        let pj = if j < q { j } else { j + 1 };
        assert(s[i] == p[pi] && s[j] == p[pj]);
    }
    assert forall|y: u32| spec_has_row(s, y) implies spec_has_row(p, y) by {
        let t = choose|t: int| 0 <= t < s.len() && #[trigger] s[t] == y;
        let pt = if t < q { t } else { t + 1 };
        assert(p[pt] == y);
    }
}

/// Pairing rows given in increasing order by identical content: the paired
/// old rows, the old rows left over and the new rows left over each come in
/// increasing order, no old row is both paired and left over, and each row
/// is one of its side's.
pub proof fn lemma_pairing_ordered(oc: Seq<CellEntry>, nc: Seq<CellEntry>, olds: Seq<u32>, news: Seq<u32>)
    requires
        spec_incr(olds),
        spec_incr(news),
    ensures
        spec_incr(spec_fsts(spec_pairing(oc, nc, olds, news).0)),
        spec_incr(spec_pairing(oc, nc, olds, news).1),
        spec_incr(spec_pairing(oc, nc, olds, news).2),
        spec_disjoint(spec_fsts(spec_pairing(oc, nc, olds, news).0), spec_pairing(oc, nc, olds, news).1),
        forall|x: u32| #[trigger] spec_has_row(spec_fsts(spec_pairing(oc, nc, olds, news).0), x) ==> spec_has_row(olds, x),
        forall|x: u32| #[trigger] spec_has_row(spec_pairing(oc, nc, olds, news).1, x) ==> spec_has_row(olds, x),
        forall|x: u32| #[trigger] spec_has_row(spec_pairing(oc, nc, olds, news).2, x) ==> spec_has_row(news, x),
    decreases olds.len(),
{
    let pr = spec_pairing(oc, nc, olds, news);
    if olds.len() == 0 {
        assert(spec_fsts(pr.0) =~= Seq::<u32>::empty());
    } else {
        let d = olds.drop_last();
        lemma_drop_last_incr(olds);
        lemma_pairing_ordered(oc, nc, d, news);
        let t = spec_pairing(oc, nc, d, news);
        let r = olds.last();
        let f = spec_fsts(t.0);
        assert forall|y: u32| spec_has_row(f, y) implies y < r && spec_has_row(olds, y) by {
            assert(spec_has_row(d, y));
        }
        assert forall|y: u32| spec_has_row(t.1, y) implies y < r && spec_has_row(olds, y) by {
            assert(spec_has_row(d, y));
        }
        assert(spec_has_row(olds, r)) by {
            assert(olds[olds.len() - 1] == r);
        }
        lemma_first_same_range(oc, r, nc, t.2, 0);
        match spec_first_same(oc, r, nc, t.2, 0) {
            Some(q) => {
                assert(spec_fsts(pr.0) =~= f.push(r));
                lemma_push_incr(f, r);
                lemma_remove_incr(t.2, q);
                assert forall|i: int, j: int| 0 <= i < spec_fsts(pr.0).len() && 0 <= j < pr.1.len() implies #[trigger] spec_fsts(pr.0)[i] != #[trigger] pr.1[j] by {
                    assert(spec_has_row(t.1, t.1[j]));
                    if i < f.len() {
                        assert(spec_fsts(pr.0)[i] == f[i]);
                    }
                }
                assert forall|x: u32| #[trigger] spec_has_row(spec_fsts(pr.0), x) implies spec_has_row(olds, x) by {
                    if x != r {
                        assert(spec_has_row(f, x));
                    }
                }
                assert forall|x: u32| #[trigger] spec_has_row(pr.2, x) implies spec_has_row(news, x) by {
                    assert(spec_has_row(t.2, x));
                }
            },
            None => {
                assert(pr.1 == t.1.push(r));
                assert forall|y: u32| spec_has_row(t.1, y) implies y < r by {
                    assert(spec_has_row(d, y));
                }
                lemma_push_incr(t.1, r);
                assert forall|i: int, j: int| 0 <= i < f.len() && 0 <= j < pr.1.len() implies #[trigger] f[i] != #[trigger] pr.1[j] by {
                    assert(spec_has_row(f, f[i]));
                    if j < t.1.len() {
                        assert(pr.1[j] == t.1[j]);
                    }
                }
                assert forall|x: u32| #[trigger] spec_has_row(pr.1, x) implies spec_has_row(olds, x) by {
                    if x != r {
                        assert(spec_has_row(t.1, x));
                    }
                }
            },
        }
    }
}

/// The mapping's lists are in row order: the matched old rows and the removed
/// rows each strictly increase and share no row, and the inserted rows
/// strictly increase.
pub open spec fn spec_mapping_ordered(m: RowMapping) -> bool {
    &&& forall|i: int, j: int| 0 <= i < j < m.matched@.len() ==> (#[trigger] m.matched@[i]).0 < (#[trigger] m.matched@[j]).0
    &&& forall|i: int, j: int| 0 <= i < j < m.removed@.len() ==> #[trigger] m.removed@[i] < #[trigger] m.removed@[j]
    &&& forall|i: int, j: int| 0 <= i < m.matched@.len() && 0 <= j < m.removed@.len() ==> (#[trigger] m.matched@[i]).0 != #[trigger] m.removed@[j]
    &&& forall|i: int, j: int| 0 <= i < j < m.inserted@.len() ==> #[trigger] m.inserted@[i] < #[trigger] m.inserted@[j]
}

proof fn lemma_disjoint_by_rows(a: Seq<u32>, b: Seq<u32>)
    requires
        forall|x: u32| !(spec_has_row(a, x) && spec_has_row(b, x)),
    ensures
        spec_disjoint(a, b),
{
    assert forall|i: int, j: int| 0 <= i < a.len() && 0 <= j < b.len() implies #[trigger] a[i] != #[trigger] b[j] by {
        assert(spec_has_row(a, a[i]));
        assert(spec_has_row(b, b[j]));
    }
}

proof fn lemma_ordered_from_lists(m: RowMapping)
    requires
        spec_incr(spec_fsts(m.matched@)),
        spec_incr(m.removed@),
        spec_incr(m.inserted@),
        spec_disjoint(spec_fsts(m.matched@), m.removed@),
    ensures
        spec_mapping_ordered(m),
{
    let f = spec_fsts(m.matched@);
    assert forall|i: int, j: int| 0 <= i < j < m.matched@.len() implies (#[trigger] m.matched@[i]).0 < (#[trigger] m.matched@[j]).0 by {
        assert(f[i] == m.matched@[i].0 && f[j] == m.matched@[j].0);
    }
    assert forall|i: int, j: int| 0 <= i < m.matched@.len() && 0 <= j < m.removed@.len() implies (#[trigger] m.matched@[i]).0 != #[trigger] m.removed@[j] by {
        assert(f[i] == m.matched@[i].0);
    }
}

/// A longest-common-subsequence match of rows given in increasing order
/// gives a mapping in row order.
pub proof fn lemma_lcs_mapping_ordered(olds: Seq<(u32, Seq<Seq<char>>)>, news: Seq<(u32, Seq<Seq<char>>)>, m: RowMapping)
    requires
        spec_incr(spec_row_nums(olds)),
        spec_incr(spec_row_nums(news)),
        spec_lcs_mapping(olds, news, m),
    ensures
        spec_mapping_ordered(m),
{
    lemma_lcs_ordered(olds, news);
    lemma_ordered_from_lists(m);
}

/// Row-signature alignment of two sorted maps gives a mapping in row order:
/// the signed rows' match and the unsigned rows hold different rows, so the
/// merged lists stay increasing.
pub proof fn lemma_signature_mapping_ordered(oc: Seq<CellEntry>, nc: Seq<CellEntry>, sample: Option<Seq<u32>>, m: RowMapping)
    requires
        spec_cells_sorted(oc),
        spec_cells_sorted(nc),
        spec_signature_mapping(oc, nc, sample, m),
    ensures
        spec_mapping_ordered(m),
{
    let sa = spec_signed_rows(oc, sample, spec_rows(oc));
    let sb = spec_signed_rows(nc, sample, spec_rows(nc));
    let ua = spec_unsigned_rows(oc, sample, spec_rows(oc));
    let ub = spec_unsigned_rows(nc, sample, spec_rows(nc));
    lemma_rows_incr(oc);
    lemma_rows_incr(nc);
    lemma_signed_rows_incr(oc, sample, spec_rows(oc));
    lemma_signed_rows_incr(nc, sample, spec_rows(nc));
    lemma_unsigned_rows_incr(oc, sample, spec_rows(oc));
    lemma_unsigned_rows_incr(nc, sample, spec_rows(nc));
    lemma_lcs_ordered(sa, sb);
    let lm = spec_fsts(spec_lcs_matched(sa, sb));
    let lr = spec_lcs_removed(sa, sb);
    let li = spec_lcs_inserted(sa, sb);
    assert forall|x: u32| !(spec_has_row(lr, x) && spec_has_row(ua, x)) by {
        if spec_has_row(lr, x) && spec_has_row(ua, x) {
            assert(spec_has_row(spec_row_nums(sa), x));
            assert(spec_sig_of(spec_row_cells(oc, x), sample).len() > 0);
        }
    }
    assert forall|x: u32| !(spec_has_row(li, x) && spec_has_row(ub, x)) by {
        if spec_has_row(li, x) && spec_has_row(ub, x) {
            assert(spec_has_row(spec_row_nums(sb), x));
            assert(spec_sig_of(spec_row_cells(nc, x), sample).len() > 0);
        }
    }
    lemma_disjoint_by_rows(lr, ua);
    lemma_disjoint_by_rows(li, ub);
    lemma_merge_rows_incr(lr, ua);
    lemma_merge_rows_incr(li, ub);
    assert forall|x: u32| !(spec_has_row(lm, x) && spec_has_row(m.removed@, x)) by {
        if spec_has_row(lm, x) && spec_has_row(m.removed@, x) {
            if spec_has_row(lr, x) {
                let i = choose|i: int| 0 <= i < lm.len() && #[trigger] lm[i] == x;
                let j = choose|j: int| 0 <= j < lr.len() && #[trigger] lr[j] == x;
            } else {
                assert(spec_has_row(spec_row_nums(sa), x));
                assert(spec_sig_of(spec_row_cells(oc, x), sample).len() > 0);
            }
        }
    }
    assert(spec_fsts(m.matched@) == lm);
    lemma_disjoint_by_rows(lm, m.removed@);
    lemma_ordered_from_lists(m);
}

/// Row-key alignment of two sorted maps gives a mapping in row order: the
/// keyed rows' match and the keyless rows' pairing hold different rows, so
/// their merges stay increasing.
pub proof fn lemma_row_key_mapping_ordered(oc: Seq<CellEntry>, nc: Seq<CellEntry>, cols: Seq<u32>, m: RowMapping)
    requires
        spec_cells_sorted(oc),
        spec_cells_sorted(nc),
        spec_row_key_mapping(oc, nc, cols, m),
    ensures
        spec_mapping_ordered(m),
{
    let ka = spec_keyed_rows(oc, cols, spec_rows(oc));
    let kb = spec_keyed_rows(nc, cols, spec_rows(nc));
    let ola = spec_keyless_rows(oc, cols, spec_rows(oc));
    let nla = spec_keyless_rows(nc, cols, spec_rows(nc));
    lemma_rows_incr(oc);
    lemma_rows_incr(nc);
    lemma_keyed_rows_incr(oc, cols, spec_rows(oc));
    lemma_keyed_rows_incr(nc, cols, spec_rows(nc));
    if ola.len() == 0 && nla.len() == 0 {
        lemma_lcs_mapping_ordered(ka, kb, m);
    } else {
        lemma_keyless_rows_incr(oc, cols, spec_rows(oc));
        lemma_keyless_rows_incr(nc, cols, spec_rows(nc));
        lemma_lcs_ordered(ka, kb);
        lemma_pairing_ordered(oc, nc, ola, nla);
        let pr = spec_pairing(oc, nc, ola, nla);
        let lm = spec_fsts(spec_lcs_matched(ka, kb));
        let lr = spec_lcs_removed(ka, kb);
        let li = spec_lcs_inserted(ka, kb);
        let pm = spec_fsts(pr.0);
        assert forall|x: u32| !(spec_has_row(lm, x) && spec_has_row(pm, x)) by {
            if spec_has_row(lm, x) && spec_has_row(pm, x) {
                assert(spec_has_row(spec_row_nums(ka), x));
                assert(spec_key_of(oc, cols, x).len() > 0);
                assert(spec_has_row(ola, x));
                assert(spec_key_of(oc, cols, x).len() == 0);
            }
        }
        assert forall|x: u32| !(spec_has_row(lr, x) && spec_has_row(pr.1, x)) by {
            if spec_has_row(lr, x) && spec_has_row(pr.1, x) {
                assert(spec_has_row(spec_row_nums(ka), x));
                assert(spec_key_of(oc, cols, x).len() > 0);
                assert(spec_has_row(ola, x));
                assert(spec_key_of(oc, cols, x).len() == 0);
            }
        }
        assert forall|x: u32| !(spec_has_row(li, x) && spec_has_row(pr.2, x)) by {
            if spec_has_row(li, x) && spec_has_row(pr.2, x) {
                assert(spec_has_row(spec_row_nums(kb), x));
                assert(spec_has_row(nla, x));
            }
        }
        lemma_disjoint_by_rows(lm, pm);
        lemma_disjoint_by_rows(lr, pr.1);
        lemma_disjoint_by_rows(li, pr.2);
        lemma_merge_pairs_fsts(spec_lcs_matched(ka, kb), pr.0);
        lemma_merge_rows_incr(lm, pm);
        lemma_merge_rows_incr(lr, pr.1);
        lemma_merge_rows_incr(li, pr.2);
        let fm = spec_fsts(m.matched@);
        assert(fm == spec_merge_rows(lm, pm));
        assert forall|x: u32| !(spec_has_row(fm, x) && spec_has_row(m.removed@, x)) by {
            if spec_has_row(fm, x) && spec_has_row(m.removed@, x) {
                if spec_has_row(lm, x) {
                    if spec_has_row(lr, x) {
                        let i = choose|i: int| 0 <= i < lm.len() && #[trigger] lm[i] == x;
                        let j = choose|j: int| 0 <= j < lr.len() && #[trigger] lr[j] == x;
                    } else {
                        assert(spec_has_row(spec_row_nums(ka), x));
                        assert(spec_has_row(ola, x));
                    }
                } else {
                    if spec_has_row(lr, x) {
                        assert(spec_has_row(spec_row_nums(ka), x));
                        assert(spec_has_row(ola, x));
                    } else {
                        let i = choose|i: int| 0 <= i < pm.len() && #[trigger] pm[i] == x;
                        let j = choose|j: int| 0 <= j < pr.1.len() && #[trigger] pr.1[j] == x;
                    }
                }
            }
        }
        lemma_disjoint_by_rows(fm, m.removed@);
        lemma_ordered_from_lists(m);
    }
}

/// The rows without a signature come in increasing order, each a row of
/// `rows` with an empty signature.
pub proof fn lemma_unsigned_rows_incr(cells: Seq<CellEntry>, sample: Option<Seq<u32>>, rows: Seq<u32>)
    requires
        spec_incr(rows),
    ensures
        spec_incr(spec_unsigned_rows(cells, sample, rows)),
        forall|x: u32| #[trigger] spec_has_row(spec_unsigned_rows(cells, sample, rows), x)
            ==> spec_has_row(rows, x) && spec_sig_of(spec_row_cells(cells, x), sample).len() == 0,
    decreases rows.len(),
{
    if rows.len() > 0 {
        let d = rows.drop_last();
        lemma_drop_last_incr(rows);
        lemma_unsigned_rows_incr(cells, sample, d);
        let p = spec_unsigned_rows(cells, sample, d);
        let s = spec_unsigned_rows(cells, sample, rows);
        assert forall|y: u32| spec_has_row(p, y) implies y < rows.last() && spec_has_row(rows, y) by {
            assert(spec_has_row(d, y));
        }
        assert(spec_has_row(rows, rows.last())) by {
            assert(rows[rows.len() - 1] == rows.last());
        }
        if spec_sig_of(spec_row_cells(cells, rows.last()), sample).len() == 0 {
            lemma_push_incr(p, rows.last());
            assert forall|x: u32| #[trigger] spec_has_row(s, x) implies spec_has_row(rows, x)
                && spec_sig_of(spec_row_cells(cells, x), sample).len() == 0 by {
                if x != rows.last() {
                    assert(spec_has_row(p, x));
                }
            }
        }
    }
}

/// The second rows of a list of row pairs.
pub open spec fn spec_snds(p: Seq<(u32, u32)>) -> Seq<u32> {
    p.map_values(|x: (u32, u32)| x.1)
}

/// The mapping places every row: an old row is matched or removed, a new row
/// matched or inserted, and no other row appears in it.
pub open spec fn spec_mapping_places(oc: Seq<CellEntry>, nc: Seq<CellEntry>, m: RowMapping) -> bool {
    &&& forall|x: u32|
        #![trigger spec_has_row(spec_rows(oc), x)]
        #![trigger spec_has_row(spec_fsts(m.matched@), x)]
        #![trigger spec_has_row(m.removed@, x)]
        spec_has_row(spec_rows(oc), x) <==> spec_has_row(spec_fsts(m.matched@), x) || spec_has_row(m.removed@, x)
    &&& forall|x: u32|
        #![trigger spec_has_row(spec_rows(nc), x)]
        #![trigger spec_has_row(spec_snds(m.matched@), x)]
        #![trigger spec_has_row(m.inserted@, x)]
        spec_has_row(spec_rows(nc), x) <==> spec_has_row(spec_snds(m.matched@), x) || spec_has_row(m.inserted@, x)
    &&& spec_distinct(spec_snds(m.matched@))
    &&& spec_disjoint(spec_snds(m.matched@), m.inserted@)
}

/// No row occurs twice.
pub open spec fn spec_distinct(s: Seq<u32>) -> bool {
    forall|i: int, j: int| 0 <= i < j < s.len() ==> #[trigger] s[i] != #[trigger] s[j]
}

proof fn lemma_has_row_cons(h: u32, t: Seq<u32>)
    ensures
        forall|x: u32| #[trigger] spec_has_row(seq![h] + t, x) <==> (x == h || spec_has_row(t, x)),
{
    let s = seq![h] + t;
    assert forall|x: u32| #[trigger] spec_has_row(s, x) <==> (x == h || spec_has_row(t, x)) by {
        if spec_has_row(s, x) {
            let k = choose|k: int| 0 <= k < s.len() && #[trigger] s[k] == x;
            if k > 0 {
                assert(t[k - 1] == x);
            }
        }
        if x == h {
            assert(s[0] == x);
        }
        if spec_has_row(t, x) {
            let k = choose|k: int| 0 <= k < t.len() && #[trigger] t[k] == x;
            assert(s[k + 1] == x);
        }
    }
}

proof fn lemma_has_row_push(p: Seq<u32>, v: u32)
    ensures
        forall|x: u32| #[trigger] spec_has_row(p.push(v), x) <==> (spec_has_row(p, x) || x == v),
{
    let s = p.push(v);
    assert forall|x: u32| #[trigger] spec_has_row(s, x) <==> (spec_has_row(p, x) || x == v) by {
        if spec_has_row(s, x) {
            let k = choose|k: int| 0 <= k < s.len() && #[trigger] s[k] == x;
            if k < p.len() {
                assert(p[k] == x);
            }
        }
        if spec_has_row(p, x) {
            let k = choose|k: int| 0 <= k < p.len() && #[trigger] p[k] == x;
            assert(s[k] == x);
        }
        if x == v {
            assert(s[p.len() as int] == x);
        }
    }
}

proof fn lemma_has_row_remove(p: Seq<u32>, q: int)
    requires
        0 <= q < p.len(),
    ensures
        forall|y: u32| #[trigger] spec_has_row(p, y) <==> (spec_has_row(p.remove(q), y) || y == p[q]),
{
    let s = p.remove(q);
    assert forall|i: int| 0 <= i < s.len() implies #[trigger] s[i] == if i < q { p[i] } else { p[i + 1] } by {
    }
    assert forall|y: u32| #[trigger] spec_has_row(p, y) <==> (spec_has_row(s, y) || y == p[q]) by {
        if spec_has_row(p, y) {
            let k = choose|k: int| 0 <= k < p.len() && #[trigger] p[k] == y;
            if k < q {
                assert(s[k] == y);
            } else if k > q {
                assert(s[k - 1] == y);
            }
        }
        if spec_has_row(s, y) {
            let k = choose|k: int| 0 <= k < s.len() && #[trigger] s[k] == y;
            if k < q {
                assert(p[k] == y);
            } else {
                assert(p[k + 1] == y);
            }
        }
        if y == p[q] {
            assert(p[q] == y);
        }
    }
}

/// A merge of two row lists holds exactly the rows of both.
proof fn lemma_merge_rows_members(a: Seq<u32>, b: Seq<u32>)
    ensures
        forall|x: u32| #[trigger] spec_has_row(crate::align::spec_merge_rows(a, b), x) <==> (spec_has_row(a, x) || spec_has_row(b, x)),
    decreases a.len() + b.len(),
{
    if a.len() > 0 && b.len() > 0 {
        assert(a =~= seq![a[0]] + a.drop_first());
        assert(b =~= seq![b[0]] + b.drop_first());
        lemma_has_row_cons(a[0], a.drop_first());
        lemma_has_row_cons(b[0], b.drop_first());
        if a[0] <= b[0] {
            lemma_merge_rows_members(a.drop_first(), b);
            lemma_has_row_cons(a[0], crate::align::spec_merge_rows(a.drop_first(), b));
        } else {
            lemma_merge_rows_members(a, b.drop_first());
            lemma_has_row_cons(b[0], crate::align::spec_merge_rows(a, b.drop_first()));
        }
    }
}

/// The second rows of a merge of row pairs are those of both lists.
proof fn lemma_merge_pairs_snds(a: Seq<(u32, u32)>, b: Seq<(u32, u32)>)
    ensures
        forall|x: u32| #[trigger] spec_has_row(spec_snds(crate::align::spec_merge_pairs(a, b)), x) <==> (spec_has_row(spec_snds(a), x) || spec_has_row(spec_snds(b), x)),
    decreases a.len() + b.len(),
{
    if a.len() > 0 && b.len() > 0 {
        assert(spec_snds(a) =~= seq![a[0].1] + spec_snds(a.drop_first()));
        assert(spec_snds(b) =~= seq![b[0].1] + spec_snds(b.drop_first()));
        lemma_has_row_cons(a[0].1, spec_snds(a.drop_first()));
        lemma_has_row_cons(b[0].1, spec_snds(b.drop_first()));
        if a[0].0 <= b[0].0 {
            lemma_merge_pairs_snds(a.drop_first(), b);
            let t = crate::align::spec_merge_pairs(a.drop_first(), b);
            assert(spec_snds(crate::align::spec_merge_pairs(a, b)) =~= seq![a[0].1] + spec_snds(t));
            lemma_has_row_cons(a[0].1, spec_snds(t));
        } else {
            lemma_merge_pairs_snds(a, b.drop_first());
            let t = crate::align::spec_merge_pairs(a, b.drop_first());
            assert(spec_snds(crate::align::spec_merge_pairs(a, b)) =~= seq![b[0].1] + spec_snds(t));
            lemma_has_row_cons(b[0].1, spec_snds(t));
        }
    } else if a.len() == 0 {
        assert(spec_snds(a) =~= Seq::<u32>::empty());
    } else {
        assert(spec_snds(b) =~= Seq::<u32>::empty());
    }
}

/// Every row is keyed or keyless.
proof fn lemma_keyed_cover(cells: Seq<CellEntry>, cols: Seq<u32>, rows: Seq<u32>)
    ensures
        forall|x: u32| #[trigger] spec_has_row(rows, x) ==> spec_has_row(spec_row_nums(spec_keyed_rows(cells, cols, rows)), x)
            || spec_has_row(spec_keyless_rows(cells, cols, rows), x),
    decreases rows.len(),
{
    if rows.len() > 0 {
        let d = rows.drop_last();
        lemma_keyed_cover(cells, cols, d);
        assert(rows =~= d.push(rows.last()));
        lemma_has_row_push(d, rows.last());
        let pk = spec_row_nums(spec_keyed_rows(cells, cols, d));
        let pl = spec_keyless_rows(cells, cols, d);
        let k = spec_key_of(cells, cols, rows.last());
        if k.len() > 0 {
            assert(spec_row_nums(spec_keyed_rows(cells, cols, rows)) =~= pk.push(rows.last()));
            lemma_has_row_push(pk, rows.last());
        } else {
            lemma_has_row_push(pl, rows.last());
        }
        assert forall|x: u32| #[trigger] spec_has_row(rows, x) implies spec_has_row(spec_row_nums(spec_keyed_rows(cells, cols, rows)), x)
            || spec_has_row(spec_keyless_rows(cells, cols, rows), x) by {
            if x != rows.last() {
                assert(spec_has_row(d, x));
            }
        }
    }
}

/// Every row is signed or unsigned.
proof fn lemma_signed_cover(cells: Seq<CellEntry>, sample: Option<Seq<u32>>, rows: Seq<u32>)
    ensures
        forall|x: u32| #[trigger] spec_has_row(rows, x) ==> spec_has_row(spec_row_nums(spec_signed_rows(cells, sample, rows)), x)
            || spec_has_row(spec_unsigned_rows(cells, sample, rows), x),
    decreases rows.len(),
{
    if rows.len() > 0 {
        let d = rows.drop_last();
        lemma_signed_cover(cells, sample, d);
        assert(rows =~= d.push(rows.last()));
        lemma_has_row_push(d, rows.last());
        let pk = spec_row_nums(spec_signed_rows(cells, sample, d));
        let pl = spec_unsigned_rows(cells, sample, d);
        let k = spec_sig_of(spec_row_cells(cells, rows.last()), sample);
        if k.len() > 0 {
            assert(spec_row_nums(spec_signed_rows(cells, sample, rows)) =~= pk.push(rows.last()));
            lemma_has_row_push(pk, rows.last());
        } else {
            lemma_has_row_push(pl, rows.last());
        }
        assert forall|x: u32| #[trigger] spec_has_row(rows, x) implies spec_has_row(spec_row_nums(spec_signed_rows(cells, sample, rows)), x)
            || spec_has_row(spec_unsigned_rows(cells, sample, rows), x) by {
            if x != rows.last() {
                assert(spec_has_row(d, x));
            }
        }
    }
}

/// Every unused position below `k` has its row among the unused rows.
proof fn lemma_unused_complete(rows: Seq<(u32, Seq<Seq<char>>)>, used: Set<int>, k: int)
    requires
        0 <= k <= rows.len(),
    ensures
        forall|p: int| 0 <= p < k && !used.contains(p) ==> spec_has_row(spec_unused_rows(rows, used, k), #[trigger] rows[p].0),
    decreases k,
{
    if k > 0 {
        lemma_unused_complete(rows, used, k - 1);
        let pr = spec_unused_rows(rows, used, k - 1);
        if used.contains(k - 1) {
            assert(spec_unused_rows(rows, used, k) =~= pr);
        } else {
            assert(spec_unused_rows(rows, used, k) =~= pr.push(rows[k - 1].0));
            lemma_has_row_push(pr, rows[k - 1].0);
        }
    }
}

/// A longest-common-subsequence match of rows in increasing order places
/// every row: an old row is matched or removed, a new one matched or
/// inserted, and no other row appears.
proof fn lemma_lcs_places(olds: Seq<(u32, Seq<Seq<char>>)>, news: Seq<(u32, Seq<Seq<char>>)>)
    requires
        spec_incr(spec_row_nums(olds)),
        spec_incr(spec_row_nums(news)),
    ensures
        forall|x: u32| #[trigger] spec_has_row(spec_row_nums(olds), x) <==> spec_has_row(spec_fsts(spec_lcs_matched(olds, news)), x)
            || spec_has_row(spec_lcs_removed(olds, news), x),
        forall|x: u32| #[trigger] spec_has_row(spec_row_nums(news), x) <==> spec_has_row(spec_snds(spec_lcs_matched(olds, news)), x)
            || spec_has_row(spec_lcs_inserted(olds, news), x),
{
    let a = spec_texts(olds);
    let b = spec_texts(news);
    let t = spec_lcs_pairs(olds, news);
    let on = spec_row_nums(olds);
    let nn = spec_row_nums(news);
    let f = spec_fsts(spec_lcs_matched(olds, news));
    let g = spec_snds(spec_lcs_matched(olds, news));
    lemma_lcs_ordered(olds, news);
    lemma_traceback_is_lcs(a, b, 0, 0);
    lemma_unused_complete(olds, spec_firsts(t), olds.len() as int);
    lemma_unused_complete(news, spec_seconds(t), news.len() as int);
    assert forall|k: int| 0 <= k < t.len() implies 0 <= (#[trigger] t[k]).0 < olds.len() && 0 <= t[k].1 < news.len() by {
        assert(spec_pair_in(a, b, t[k], 0, 0));
    }
    assert forall|x: u32| #[trigger] spec_has_row(on, x) implies spec_has_row(f, x) || spec_has_row(spec_lcs_removed(olds, news), x) by {
        let p = choose|p: int| 0 <= p < on.len() && #[trigger] on[p] == x;
        if spec_firsts(t).contains(p) {
            let i = choose|i: int| 0 <= i < t.len() && #[trigger] t[i].0 == p;
            assert(f[i] == x);
        } else {
            assert(olds[p].0 == x);
        }
    }
    assert forall|x: u32| #[trigger] spec_has_row(nn, x) implies spec_has_row(g, x) || spec_has_row(spec_lcs_inserted(olds, news), x) by {
        let p = choose|p: int| 0 <= p < nn.len() && #[trigger] nn[p] == x;
        if spec_seconds(t).contains(p) {
            let i = choose|i: int| 0 <= i < t.len() && #[trigger] t[i].1 == p;
            assert(g[i] == x);
        } else {
            assert(news[p].0 == x);
        }
    }
    assert forall|x: u32| #[trigger] spec_has_row(g, x) implies spec_has_row(nn, x) by {
        let i = choose|i: int| 0 <= i < g.len() && #[trigger] g[i] == x;
        assert(nn[t[i].1] == x);
    }
}

/// Pairing places every row: an old row is paired or left over, a new one
/// paired or left over, and no other row appears.
proof fn lemma_pairing_places(oc: Seq<CellEntry>, nc: Seq<CellEntry>, olds: Seq<u32>, news: Seq<u32>)
    ensures
        forall|x: u32| #[trigger] spec_has_row(olds, x) <==> spec_has_row(spec_fsts(spec_pairing(oc, nc, olds, news).0), x)
            || spec_has_row(spec_pairing(oc, nc, olds, news).1, x),
        forall|x: u32| #[trigger] spec_has_row(news, x) <==> spec_has_row(spec_snds(spec_pairing(oc, nc, olds, news).0), x)
            || spec_has_row(spec_pairing(oc, nc, olds, news).2, x),
    decreases olds.len(),
{
    let pr = spec_pairing(oc, nc, olds, news);
    if olds.len() == 0 {
        assert(spec_fsts(pr.0) =~= Seq::<u32>::empty());
        assert(spec_snds(pr.0) =~= Seq::<u32>::empty());
    } else {
        let d = olds.drop_last();
        lemma_pairing_places(oc, nc, d, news);
        let t = spec_pairing(oc, nc, d, news);
        let r = olds.last();
        assert(olds =~= d.push(r));
        lemma_has_row_push(d, r);
        lemma_first_same_range(oc, r, nc, t.2, 0);
        match spec_first_same(oc, r, nc, t.2, 0) {
            Some(q) => {
                assert(spec_fsts(pr.0) =~= spec_fsts(t.0).push(r));
                assert(spec_snds(pr.0) =~= spec_snds(t.0).push(t.2[q]));
                lemma_has_row_push(spec_fsts(t.0), r);
                lemma_has_row_push(spec_snds(t.0), t.2[q]);
                lemma_has_row_remove(t.2, q);
            },
            None => {
                lemma_has_row_push(t.1, r);
            },
        }
    }
}

proof fn lemma_incr_distinct(s: Seq<u32>)
    requires
        spec_incr(s),
    ensures
        spec_distinct(s),
{
    assert forall|i: int, j: int| 0 <= i < j < s.len() implies #[trigger] s[i] != #[trigger] s[j] by {
        assert(s[i] < s[j]);
    }
}

/// The new rows a longest-common-subsequence match pairs strictly increase
/// and none is among the inserted rows.
proof fn lemma_lcs_snds(olds: Seq<(u32, Seq<Seq<char>>)>, news: Seq<(u32, Seq<Seq<char>>)>)
    requires
        spec_incr(spec_row_nums(olds)),
        spec_incr(spec_row_nums(news)),
    ensures
        spec_incr(spec_snds(spec_lcs_matched(olds, news))),
        spec_disjoint(spec_snds(spec_lcs_matched(olds, news)), spec_lcs_inserted(olds, news)),
{
    let a = spec_texts(olds);
    let b = spec_texts(news);
    let t = spec_lcs_pairs(olds, news);
    let nn = spec_row_nums(news);
    let g = spec_snds(spec_lcs_matched(olds, news));
    let ins = spec_lcs_inserted(olds, news);
    lemma_traceback_is_lcs(a, b, 0, 0);
    assert forall|k: int| 0 <= k < t.len() implies 0 <= (#[trigger] t[k]).0 < olds.len() && 0 <= t[k].1 < news.len() by {
        assert(spec_pair_in(a, b, t[k], 0, 0));
    }
    assert forall|i: int, j: int| 0 <= i < j < g.len() implies #[trigger] g[i] < #[trigger] g[j] by {
        assert(spec_pair_before(t[i], t[j]));
        assert(g[i] == nn[t[i].1] && g[j] == nn[t[j].1]);
    }
    lemma_unused_rows_incr(news, spec_seconds(t), news.len() as int);
    assert forall|i: int, j: int| 0 <= i < g.len() && 0 <= j < ins.len() implies #[trigger] g[i] != #[trigger] ins[j] by {
        assert(spec_has_row(ins, ins[j]));
        let p = choose|p: int| 0 <= p < news.len() && !spec_seconds(t).contains(p) && #[trigger] news[p].0 == ins[j];
        assert(spec_seconds(t).contains(t[i].1));
        assert(nn[p] == news[p].0 && nn[t[i].1] == news[t[i].1].0);
        if p < t[i].1 {
            assert(nn[p] < nn[t[i].1]);
        } else {
            assert(p != t[i].1);
            assert(nn[t[i].1] < nn[p]);
        }
    }
}

/// The new rows pairing pairs are distinct and none is left over.
proof fn lemma_pairing_snds(oc: Seq<CellEntry>, nc: Seq<CellEntry>, olds: Seq<u32>, news: Seq<u32>)
    requires
        spec_incr(olds),
        spec_incr(news),
    ensures
        spec_distinct(spec_snds(spec_pairing(oc, nc, olds, news).0)),
        spec_disjoint(spec_snds(spec_pairing(oc, nc, olds, news).0), spec_pairing(oc, nc, olds, news).2),
    decreases olds.len(),
{
    let pr = spec_pairing(oc, nc, olds, news);
    if olds.len() == 0 {
        assert(spec_snds(pr.0) =~= Seq::<u32>::empty());
    } else {
        let d = olds.drop_last();
        lemma_drop_last_incr(olds);
        lemma_pairing_snds(oc, nc, d, news);
        lemma_pairing_ordered(oc, nc, d, news);
        let t = spec_pairing(oc, nc, d, news);
        let r = olds.last();
        let g = spec_snds(t.0);
        lemma_first_same_range(oc, r, nc, t.2, 0);
        match spec_first_same(oc, r, nc, t.2, 0) {
            Some(q) => {
                let v = t.2[q];
                let g2 = spec_snds(pr.0);
                assert(g2 =~= g.push(v));
                lemma_has_row_remove(t.2, q);
                lemma_has_row_push(g, v);
                assert(!spec_has_row(g, v)) by {
                    if spec_has_row(g, v) {
                        let i = choose|i: int| 0 <= i < g.len() && #[trigger] g[i] == v;
                        assert(g[i] != t.2[q]);
                    }
                }
                assert forall|i: int, j: int| 0 <= i < j < g2.len() implies #[trigger] g2[i] != #[trigger] g2[j] by {
                    assert(g2[i] == g[i]);
                    if j == g.len() {
                        assert(spec_has_row(g, g[i]));
                    } else {
                        assert(g2[j] == g[j]);
                    }
                }
                let rest = t.2.remove(q);
                assert forall|k: int| 0 <= k < rest.len() implies #[trigger] rest[k] != v by {
                    if k < q {
                        assert(rest[k] == t.2[k]);
                        assert(t.2[k] < t.2[q]);
                    } else {
                        assert(rest[k] == t.2[k + 1]);
                        assert(t.2[q] < t.2[k + 1]);
                    }
                }
                assert forall|i: int, j: int| 0 <= i < g2.len() && 0 <= j < rest.len() implies #[trigger] g2[i] != #[trigger] rest[j] by {
                    assert(spec_has_row(rest, rest[j]));
                    assert(spec_has_row(t.2, rest[j]));
                    if i < g.len() {
                        assert(g2[i] == g[i]);
                        let k = choose|k: int| 0 <= k < t.2.len() && #[trigger] t.2[k] == rest[j];
                        assert(g[i] != t.2[k]);
                    }
                }
            },
            None => {},
        }
    }
}

/// A merge of row pairs whose new rows are distinct on each side and apart
/// across them has distinct new rows.
proof fn lemma_merge_pairs_snds_distinct(a: Seq<(u32, u32)>, b: Seq<(u32, u32)>)
    requires
        spec_distinct(spec_snds(a)),
        spec_distinct(spec_snds(b)),
        spec_disjoint(spec_snds(a), spec_snds(b)),
    ensures
        spec_distinct(spec_snds(crate::align::spec_merge_pairs(a, b))),
    decreases a.len() + b.len(),
{
    if a.len() > 0 && b.len() > 0 {
        let sa = spec_snds(a);
        let sb = spec_snds(b);
        if a[0].0 <= b[0].0 {
            let a2 = a.drop_first();
            assert(spec_snds(a2) =~= sa.drop_first());
            assert(spec_distinct(spec_snds(a2))) by {
                assert forall|i: int, j: int| 0 <= i < j < spec_snds(a2).len() implies #[trigger] spec_snds(a2)[i] != #[trigger] spec_snds(a2)[j] by {
                    assert(spec_snds(a2)[i] == sa[i + 1] && spec_snds(a2)[j] == sa[j + 1]);
                }
            }
            assert(spec_disjoint(spec_snds(a2), sb)) by {
                assert forall|i: int, j: int| 0 <= i < spec_snds(a2).len() && 0 <= j < sb.len() implies #[trigger] spec_snds(a2)[i] != #[trigger] sb[j] by {
                    assert(spec_snds(a2)[i] == sa[i + 1]);
                }
            }
            lemma_merge_pairs_snds_distinct(a2, b);
            lemma_merge_pairs_snds(a2, b);
            let t = spec_snds(crate::align::spec_merge_pairs(a2, b));
            let s2 = spec_snds(crate::align::spec_merge_pairs(a, b));
            assert(s2 =~= seq![a[0].1] + t);
            assert(!spec_has_row(t, a[0].1)) by {
                if spec_has_row(spec_snds(a2), a[0].1) {
                    let i = choose|i: int| 0 <= i < spec_snds(a2).len() && #[trigger] spec_snds(a2)[i] == a[0].1;
                    assert(sa[i + 1] == sa[0]);
                }
                if spec_has_row(sb, a[0].1) {
                    let j = choose|j: int| 0 <= j < sb.len() && #[trigger] sb[j] == a[0].1;
                    assert(sa[0] != sb[j]);
                }
            }
            assert forall|i: int, j: int| 0 <= i < j < s2.len() implies #[trigger] s2[i] != #[trigger] s2[j] by {
                assert(s2[j] == t[j - 1]);
                if i == 0 {
                    assert(spec_has_row(t, t[j - 1]));
                } else {
                    assert(s2[i] == t[i - 1]);
                }
            }
        } else {
            let b2 = b.drop_first();
            assert(spec_snds(b2) =~= sb.drop_first());
            assert(spec_distinct(spec_snds(b2))) by {
                assert forall|i: int, j: int| 0 <= i < j < spec_snds(b2).len() implies #[trigger] spec_snds(b2)[i] != #[trigger] spec_snds(b2)[j] by {
                    assert(spec_snds(b2)[i] == sb[i + 1] && spec_snds(b2)[j] == sb[j + 1]);
                }
            }
            assert(spec_disjoint(sa, spec_snds(b2))) by {
                assert forall|i: int, j: int| 0 <= i < sa.len() && 0 <= j < spec_snds(b2).len() implies #[trigger] sa[i] != #[trigger] spec_snds(b2)[j] by {
                    assert(spec_snds(b2)[j] == sb[j + 1]);
                }
            }
            lemma_merge_pairs_snds_distinct(a, b2);
            lemma_merge_pairs_snds(a, b2);
            let t = spec_snds(crate::align::spec_merge_pairs(a, b2));
            let s2 = spec_snds(crate::align::spec_merge_pairs(a, b));
            assert(s2 =~= seq![b[0].1] + t);
            assert(!spec_has_row(t, b[0].1)) by {
                if spec_has_row(spec_snds(b2), b[0].1) {
                    let i = choose|i: int| 0 <= i < spec_snds(b2).len() && #[trigger] spec_snds(b2)[i] == b[0].1;
                    assert(sb[i + 1] == sb[0]);
                }
                if spec_has_row(sa, b[0].1) {
                    let j = choose|j: int| 0 <= j < sa.len() && #[trigger] sa[j] == b[0].1;
                    assert(sa[j] != sb[0]);
                }
            }
            assert forall|i: int, j: int| 0 <= i < j < s2.len() implies #[trigger] s2[i] != #[trigger] s2[j] by {
                assert(s2[j] == t[j - 1]);
                if i == 0 {
                    assert(spec_has_row(t, t[j - 1]));
                } else {
                    assert(s2[i] == t[i - 1]);
                }
            }
        }
    }
}

/// Row-key alignment of two sorted maps places every row.
pub proof fn lemma_row_key_mapping_places(oc: Seq<CellEntry>, nc: Seq<CellEntry>, cols: Seq<u32>, m: RowMapping)
    requires
        spec_cells_sorted(oc),
        spec_cells_sorted(nc),
        spec_row_key_mapping(oc, nc, cols, m),
    ensures
        spec_mapping_places(oc, nc, m),
{
    let ka = spec_keyed_rows(oc, cols, spec_rows(oc));
    let kb = spec_keyed_rows(nc, cols, spec_rows(nc));
    let ola = spec_keyless_rows(oc, cols, spec_rows(oc));
    let nla = spec_keyless_rows(nc, cols, spec_rows(nc));
    lemma_rows_incr(oc);
    lemma_rows_incr(nc);
    lemma_keyed_rows_incr(oc, cols, spec_rows(oc));
    lemma_keyed_rows_incr(nc, cols, spec_rows(nc));
    lemma_keyless_rows_incr(oc, cols, spec_rows(oc));
    lemma_keyless_rows_incr(nc, cols, spec_rows(nc));
    lemma_keyed_cover(oc, cols, spec_rows(oc));
    lemma_keyed_cover(nc, cols, spec_rows(nc));
    lemma_lcs_places(ka, kb);
    let ro = spec_rows(oc);
    let rn = spec_rows(nc);
    if ola.len() == 0 && nla.len() == 0 {
        assert(m.matched@ == spec_lcs_matched(ka, kb));
        assert forall|x: u32| spec_has_row(ro, x) <==> spec_has_row(spec_row_nums(ka), x) by {
            if spec_has_row(ro, x) && !spec_has_row(spec_row_nums(ka), x) {
                assert(spec_has_row(ola, x));
                let k = choose|k: int| 0 <= k < ola.len() && #[trigger] ola[k] == x;
            }
        }
        assert forall|x: u32| spec_has_row(rn, x) <==> spec_has_row(spec_row_nums(kb), x) by {
            if spec_has_row(rn, x) && !spec_has_row(spec_row_nums(kb), x) {
                assert(spec_has_row(nla, x));
                let k = choose|k: int| 0 <= k < nla.len() && #[trigger] nla[k] == x;
            }
        }
        assert forall|x: u32| spec_has_row(ro, x) <==> spec_has_row(spec_fsts(m.matched@), x) || spec_has_row(m.removed@, x) by {
            assert(spec_has_row(spec_row_nums(ka), x) <==> spec_has_row(spec_fsts(spec_lcs_matched(ka, kb)), x) || spec_has_row(spec_lcs_removed(ka, kb), x));
        }
        assert forall|x: u32| spec_has_row(rn, x) <==> spec_has_row(spec_snds(m.matched@), x) || spec_has_row(m.inserted@, x) by {
            assert(spec_has_row(spec_row_nums(kb), x) <==> spec_has_row(spec_snds(spec_lcs_matched(ka, kb)), x) || spec_has_row(spec_lcs_inserted(ka, kb), x));
        }
        lemma_lcs_snds(ka, kb);
        lemma_incr_distinct(spec_snds(m.matched@));
    } else {
        let pr = spec_pairing(oc, nc, ola, nla);
        lemma_pairing_places(oc, nc, ola, nla);
        lemma_merge_pairs_fsts(spec_lcs_matched(ka, kb), pr.0);
        lemma_merge_rows_members(spec_fsts(spec_lcs_matched(ka, kb)), spec_fsts(pr.0));
        lemma_merge_pairs_snds(spec_lcs_matched(ka, kb), pr.0);
        lemma_merge_rows_members(spec_lcs_removed(ka, kb), pr.1);
        lemma_merge_rows_members(spec_lcs_inserted(ka, kb), pr.2);
        let lm = spec_fsts(spec_lcs_matched(ka, kb));
        let ls = spec_snds(spec_lcs_matched(ka, kb));
        let lr = spec_lcs_removed(ka, kb);
        let li = spec_lcs_inserted(ka, kb);
        assert(spec_fsts(m.matched@) == spec_merge_rows(lm, spec_fsts(pr.0)));
        assert forall|x: u32| spec_has_row(ro, x) <==> spec_has_row(spec_fsts(m.matched@), x) || spec_has_row(m.removed@, x) by {
            assert(spec_has_row(spec_fsts(m.matched@), x) <==> spec_has_row(lm, x) || spec_has_row(spec_fsts(pr.0), x));
            assert(spec_has_row(m.removed@, x) <==> spec_has_row(lr, x) || spec_has_row(pr.1, x));
            assert(spec_has_row(spec_row_nums(ka), x) <==> spec_has_row(lm, x) || spec_has_row(lr, x));
            assert(spec_has_row(ola, x) <==> spec_has_row(spec_fsts(pr.0), x) || spec_has_row(pr.1, x));
            if spec_has_row(ro, x) {
                assert(spec_has_row(spec_row_nums(ka), x) || spec_has_row(ola, x));
            }
            if spec_has_row(spec_row_nums(ka), x) {
                assert(spec_has_row(ro, x));
            }
            if spec_has_row(ola, x) {
                assert(spec_has_row(ro, x));
            }
        }
        assert forall|x: u32| spec_has_row(rn, x) <==> spec_has_row(spec_snds(m.matched@), x) || spec_has_row(m.inserted@, x) by {
            assert(spec_has_row(spec_snds(m.matched@), x) <==> spec_has_row(ls, x) || spec_has_row(spec_snds(pr.0), x));
            assert(spec_has_row(m.inserted@, x) <==> spec_has_row(li, x) || spec_has_row(pr.2, x));
            assert(spec_has_row(spec_row_nums(kb), x) <==> spec_has_row(ls, x) || spec_has_row(li, x));
            assert(spec_has_row(nla, x) <==> spec_has_row(spec_snds(pr.0), x) || spec_has_row(pr.2, x));
            if spec_has_row(rn, x) {
                assert(spec_has_row(spec_row_nums(kb), x) || spec_has_row(nla, x));
            }
            if spec_has_row(spec_row_nums(kb), x) {
                assert(spec_has_row(rn, x));
            }
            if spec_has_row(nla, x) {
                assert(spec_has_row(rn, x));
            }
        }
        lemma_lcs_snds(ka, kb);
        lemma_incr_distinct(ls);
        lemma_pairing_snds(oc, nc, ola, nla);
        let ps = spec_snds(pr.0);
        assert forall|x: u32| !(spec_has_row(ls, x) && spec_has_row(ps, x)) by {
            if spec_has_row(ls, x) && spec_has_row(ps, x) {
                assert(spec_has_row(spec_row_nums(kb), x));
                assert(spec_key_of(nc, cols, x).len() > 0);
                assert(spec_has_row(nla, x));
                assert(spec_key_of(nc, cols, x).len() == 0);
            }
        }
        lemma_disjoint_by_rows(ls, ps);
        lemma_merge_pairs_snds_distinct(spec_lcs_matched(ka, kb), pr.0);
        assert forall|x: u32| !(spec_has_row(spec_snds(m.matched@), x) && spec_has_row(m.inserted@, x)) by {
            if spec_has_row(spec_snds(m.matched@), x) && spec_has_row(m.inserted@, x) {
                assert(spec_has_row(ls, x) || spec_has_row(ps, x));
                assert(spec_has_row(li, x) || spec_has_row(pr.2, x));
                if spec_has_row(ls, x) && spec_has_row(li, x) {
                    let i = choose|i: int| 0 <= i < ls.len() && #[trigger] ls[i] == x;
                    let j = choose|j: int| 0 <= j < li.len() && #[trigger] li[j] == x;
                } else if spec_has_row(ps, x) && spec_has_row(pr.2, x) {
                    let i = choose|i: int| 0 <= i < ps.len() && #[trigger] ps[i] == x;
                    let j = choose|j: int| 0 <= j < pr.2.len() && #[trigger] pr.2[j] == x;
                } else if spec_has_row(ls, x) {
                    assert(spec_has_row(spec_row_nums(kb), x));
                    assert(spec_key_of(nc, cols, x).len() > 0);
                    assert(spec_has_row(nla, x));
                    assert(spec_key_of(nc, cols, x).len() == 0);
                } else {
                    assert(spec_has_row(nla, x));
                    assert(spec_key_of(nc, cols, x).len() == 0);
                    assert(spec_has_row(spec_row_nums(kb), x));
                    assert(spec_key_of(nc, cols, x).len() > 0);
                }
            }
        }
        lemma_disjoint_by_rows(spec_snds(m.matched@), m.inserted@);
    }
}

/// Row-signature alignment of two sorted maps places every row.
pub proof fn lemma_signature_mapping_places(oc: Seq<CellEntry>, nc: Seq<CellEntry>, sample: Option<Seq<u32>>, m: RowMapping)
    requires
        spec_cells_sorted(oc),
        spec_cells_sorted(nc),
        spec_signature_mapping(oc, nc, sample, m),
    ensures
        spec_mapping_places(oc, nc, m),
{
    let sa = spec_signed_rows(oc, sample, spec_rows(oc));
    let sb = spec_signed_rows(nc, sample, spec_rows(nc));
    lemma_rows_incr(oc);
    lemma_rows_incr(nc);
    lemma_signed_rows_incr(oc, sample, spec_rows(oc));
    lemma_signed_rows_incr(nc, sample, spec_rows(nc));
    lemma_unsigned_rows_incr(oc, sample, spec_rows(oc));
    lemma_unsigned_rows_incr(nc, sample, spec_rows(nc));
    lemma_signed_cover(oc, sample, spec_rows(oc));
    lemma_signed_cover(nc, sample, spec_rows(nc));
    lemma_lcs_places(sa, sb);
    lemma_merge_rows_members(spec_lcs_removed(sa, sb), spec_unsigned_rows(oc, sample, spec_rows(oc)));
    lemma_merge_rows_members(spec_lcs_inserted(sa, sb), spec_unsigned_rows(nc, sample, spec_rows(nc)));
    let ua = spec_unsigned_rows(oc, sample, spec_rows(oc));
    let ub = spec_unsigned_rows(nc, sample, spec_rows(nc));
    let ro = spec_rows(oc);
    let rn = spec_rows(nc);
    let lm = spec_fsts(spec_lcs_matched(sa, sb));
    let ls = spec_snds(spec_lcs_matched(sa, sb));
    let lr = spec_lcs_removed(sa, sb);
    let li = spec_lcs_inserted(sa, sb);
    assert forall|x: u32| spec_has_row(ro, x) <==> spec_has_row(spec_fsts(m.matched@), x) || spec_has_row(m.removed@, x) by {
        assert(spec_has_row(m.removed@, x) <==> spec_has_row(lr, x) || spec_has_row(ua, x));
        assert(spec_has_row(spec_row_nums(sa), x) <==> spec_has_row(lm, x) || spec_has_row(lr, x));
        if spec_has_row(ro, x) {
            assert(spec_has_row(spec_row_nums(sa), x) || spec_has_row(ua, x));
        }
        if spec_has_row(spec_row_nums(sa), x) {
            assert(spec_has_row(ro, x));
        }
        if spec_has_row(ua, x) {
            assert(spec_has_row(ro, x));
        }
    }
    assert forall|x: u32| spec_has_row(rn, x) <==> spec_has_row(spec_snds(m.matched@), x) || spec_has_row(m.inserted@, x) by {
        assert(spec_has_row(m.inserted@, x) <==> spec_has_row(li, x) || spec_has_row(ub, x));
        assert(spec_has_row(spec_row_nums(sb), x) <==> spec_has_row(ls, x) || spec_has_row(li, x));
        if spec_has_row(rn, x) {
            assert(spec_has_row(spec_row_nums(sb), x) || spec_has_row(ub, x));
        }
        if spec_has_row(spec_row_nums(sb), x) {
            assert(spec_has_row(rn, x));
        }
        if spec_has_row(ub, x) {
            assert(spec_has_row(rn, x));
        }
    }
    lemma_lcs_snds(sa, sb);
    lemma_incr_distinct(ls);
    assert forall|x: u32| !(spec_has_row(ls, x) && spec_has_row(m.inserted@, x)) by {
        if spec_has_row(ls, x) && spec_has_row(m.inserted@, x) {
            if spec_has_row(li, x) {
                let i = choose|i: int| 0 <= i < ls.len() && #[trigger] ls[i] == x;
                let j = choose|j: int| 0 <= j < li.len() && #[trigger] li[j] == x;
            } else {
                assert(spec_has_row(ub, x));
                assert(spec_sig_of(spec_row_cells(nc, x), sample).len() == 0);
                assert(spec_has_row(spec_row_nums(sb), x));
                assert(spec_sig_of(spec_row_cells(nc, x), sample).len() > 0);
            }
        }
    }
    lemma_disjoint_by_rows(ls, m.inserted@);
}

/// The distinct rows of a sorted map strictly increase.
pub proof fn lemma_rows_incr(s: Seq<CellEntry>)
    requires
        spec_cells_sorted(s),
    ensures
        spec_incr(spec_rows(s)),
        forall|k: int| 0 <= k < spec_rows(s).len() ==> spec_rows(s)[k] <= s.last().row,
    decreases s.len(),
{
    if s.len() > 0 {
        let d = s.drop_last();
        assert(spec_cells_sorted(d)) by {
            assert forall|i: int, j: int| 0 <= i < j < d.len() implies crate::cells::spec_key_lt(#[trigger] d[i].row, d[i].col, #[trigger] d[j].row, d[j].col) by {
                assert(d[i] == s[i] && d[j] == s[j]);
            }
        }
        lemma_rows_incr(d);
        let p = spec_rows(d);
        if d.len() > 0 {
            lemma_rows_last(d);
            assert(d.last() == s[s.len() - 2]);
            assert(crate::cells::spec_key_lt(s[s.len() - 2].row, s[s.len() - 2].col, s[s.len() - 1].row, s[s.len() - 1].col));
        }
        let r = spec_rows(s);
        if p.len() > 0 && p.last() == s.last().row {
            assert(r == p);
        } else {
            assert(r == p.push(s.last().row));
            assert forall|i: int, j: int| 0 <= i < j < r.len() implies #[trigger] r[i] < #[trigger] r[j] by {
                if j == r.len() - 1 {
                    assert(r[i] == p[i]);
                    assert(p[i] <= d.last().row);
                }
            }
        }
    }
}

/// The merge of two increasing row lists with no row in common increases,
/// and holds exactly the rows of both.
#[verifier::spinoff_prover]
pub proof fn lemma_merge_rows_incr(a: Seq<u32>, b: Seq<u32>)
    requires
        spec_incr(a),
        spec_incr(b),
        spec_disjoint(a, b),
    ensures
        spec_incr(crate::align::spec_merge_rows(a, b)),
        forall|x: u32| spec_has_row(crate::align::spec_merge_rows(a, b), x) <==> spec_has_row(a, x) || spec_has_row(b, x),
    decreases a.len() + b.len(),
{
    let s = crate::align::spec_merge_rows(a, b);
    if a.len() == 0 {
    } else if b.len() == 0 {
    } else {
        let take_a = a[0] <= b[0];
        let (a2, b2) = if take_a { (a.drop_first(), b) } else { (a, b.drop_first()) };
        let h = if take_a { a[0] } else { b[0] };
        assert(spec_incr(a2)) by {
            assert forall|i: int, j: int| 0 <= i < j < a2.len() implies #[trigger] a2[i] < #[trigger] a2[j] by {
                if take_a { assert(a2[i] == a[i + 1] && a2[j] == a[j + 1]); }
            }
        }
        assert(spec_incr(b2)) by {
            assert forall|i: int, j: int| 0 <= i < j < b2.len() implies #[trigger] b2[i] < #[trigger] b2[j] by {
                if !take_a { assert(b2[i] == b[i + 1] && b2[j] == b[j + 1]); }
            }
        }
        assert(spec_disjoint(a2, b2)) by {
            assert forall|i: int, j: int| 0 <= i < a2.len() && 0 <= j < b2.len() implies #[trigger] a2[i] != #[trigger] b2[j] by {
                if take_a { assert(a2[i] == a[i + 1] && b2[j] == b[j]); } else { assert(a2[i] == a[i] && b2[j] == b[j + 1]); }
            }
        }
        lemma_merge_rows_incr(a2, b2);
        let t = crate::align::spec_merge_rows(a2, b2);
        assert(s == seq![h] + t);
        assert forall|x: u32| spec_has_row(t, x) implies h < x by {
            let k = choose|k: int| 0 <= k < t.len() && #[trigger] t[k] == x;
            if spec_has_row(a2, x) {
                let i = choose|i: int| 0 <= i < a2.len() && #[trigger] a2[i] == x;
                if take_a {
                    assert(a2[i] == a[i + 1]);
                } else {
                    assert(a2[i] == a[i]);
                    if i > 0 {
                        assert(a[0] < a[i]);
                    }
                    assert(a[0] != b[0]);
                }
            } else {
                assert(spec_has_row(b2, x));
                let j = choose|j: int| 0 <= j < b2.len() && #[trigger] b2[j] == x;
                if take_a {
                    assert(b2[j] == b[j]);
                    if j > 0 {
                        assert(b[0] < b[j]);
                    }
                    assert(a[0] != b[0]);
                } else {
                    assert(b2[j] == b[j + 1]);
                }
            }
        }
        assert forall|i: int, j: int| 0 <= i < j < s.len() implies #[trigger] s[i] < #[trigger] s[j] by {
            assert(s[j] == t[j - 1]);
            assert(spec_has_row(t, t[j - 1]));
            if i > 0 {
                assert(s[i] == t[i - 1]);
            }
        }
        assert forall|x: u32| spec_has_row(s, x) <==> spec_has_row(a, x) || spec_has_row(b, x) by {
            if spec_has_row(s, x) {
                let k = choose|k: int| 0 <= k < s.len() && #[trigger] s[k] == x;
                if k > 0 {
                    assert(t[k - 1] == x);
                    assert(spec_has_row(t, x));
                    if spec_has_row(a2, x) {
                        let i = choose|i: int| 0 <= i < a2.len() && #[trigger] a2[i] == x;
                        if take_a { assert(a[i + 1] == x); } else { assert(a[i] == x); }
                    } else {
                        let j = choose|j: int| 0 <= j < b2.len() && #[trigger] b2[j] == x;
                        if take_a { assert(b[j] == x); } else { assert(b[j + 1] == x); }
                    }
                } else {
                    if take_a { assert(a[0] == x); } else { assert(b[0] == x); }
                }
            }
            if spec_has_row(a, x) {
                let i = choose|i: int| 0 <= i < a.len() && #[trigger] a[i] == x;
                if take_a && i == 0 {
                    assert(s[0] == x);
                } else if take_a {
                    assert(a2[i - 1] == x);
                    assert(spec_has_row(a2, x));
                    let k = choose|k: int| 0 <= k < t.len() && #[trigger] t[k] == x;
                    assert(s[k + 1] == x);
                } else {
                    assert(a2[i] == x);
                    assert(spec_has_row(a2, x));
                    let k = choose|k: int| 0 <= k < t.len() && #[trigger] t[k] == x;
                    assert(s[k + 1] == x);
                }
            }
            if spec_has_row(b, x) {
                let j = choose|j: int| 0 <= j < b.len() && #[trigger] b[j] == x;
                if !take_a && j == 0 {
                    assert(s[0] == x);
                } else if !take_a {
                    assert(b2[j - 1] == x);
                    assert(spec_has_row(b2, x));
                    let k = choose|k: int| 0 <= k < t.len() && #[trigger] t[k] == x;
                    assert(s[k + 1] == x);
                } else {
                    assert(b2[j] == x);
                    assert(spec_has_row(b2, x));
                    let k = choose|k: int| 0 <= k < t.len() && #[trigger] t[k] == x;
                    assert(s[k + 1] == x);
                }
            }
        }
    }
}

/// Merging row pairs by their first rows merges their first rows.
pub proof fn lemma_merge_pairs_fsts(a: Seq<(u32, u32)>, b: Seq<(u32, u32)>)
    ensures
        spec_fsts(crate::align::spec_merge_pairs(a, b)) == crate::align::spec_merge_rows(spec_fsts(a), spec_fsts(b)),
    decreases a.len() + b.len(),
{
    if a.len() == 0 {
        assert(spec_fsts(a) =~= Seq::<u32>::empty());
    } else if b.len() == 0 {
        assert(spec_fsts(b) =~= Seq::<u32>::empty());
    } else if a[0].0 <= b[0].0 {
        lemma_merge_pairs_fsts(a.drop_first(), b);
        assert(spec_fsts(a.drop_first()) =~= spec_fsts(a).drop_first());
        assert(spec_fsts(crate::align::spec_merge_pairs(a, b)) =~= seq![a[0].0] + spec_fsts(crate::align::spec_merge_pairs(a.drop_first(), b)));
    } else {
        lemma_merge_pairs_fsts(a, b.drop_first());
        assert(spec_fsts(b.drop_first()) =~= spec_fsts(b).drop_first());
        assert(spec_fsts(crate::align::spec_merge_pairs(a, b)) =~= seq![b[0].0] + spec_fsts(crate::align::spec_merge_pairs(a, b.drop_first())));
    }
}

} // verus!
