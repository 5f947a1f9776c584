//! Small helpers of the grid diff: shared sheet names, the compared
//! rectangle, and A1 labels.

use vstd::prelude::*;

use crate::address::{spec_a1, spec_col_label, spec_letter};
use crate::strings::{push_char, push_decimal, str_equal};

verus! {

/// The names of `old` that `new` also has, in `old`'s order.
pub open spec fn spec_shared_names(old: Seq<String>, new: Seq<String>, k: int) -> Seq<Seq<char>>
    decreases k,
{
    if k <= 0 || k > old.len() {
        Seq::empty()
    } else {
        let p = spec_shared_names(old, new, k - 1);
        if exists|j: int| 0 <= j < new.len() && #[trigger] new[j]@ == old[k - 1]@ {
            p.push(old[k - 1]@)
        } else {
            p
        }
    }
}

/// The sheets whose names appear in both lists, in old-workbook order.
pub fn filter_same_name_sheets(old_sheets: &Vec<String>, new_sheets: &Vec<String>) -> (r: Vec<String>)
    ensures
        r@.map_values(|s: String| s@) == spec_shared_names(old_sheets@, new_sheets@, old_sheets@.len() as int),
{
    let mut out: Vec<String> = Vec::new();
    let mut i: usize = 0;
    while i < old_sheets.len()
        invariant
            i <= old_sheets@.len(),
            out@.map_values(|s: String| s@) == spec_shared_names(old_sheets@, new_sheets@, i as int),
        decreases old_sheets@.len() - i,
    {
        let mut found = false;
        let mut j: usize = 0;
        while j < new_sheets.len()
            invariant
                j <= new_sheets@.len(),
                i < old_sheets@.len(),
                found ==> exists|q: int| 0 <= q < new_sheets@.len() && #[trigger] new_sheets@[q]@ == old_sheets@[i as int]@,
                !found ==> forall|q: int| 0 <= q < j ==> #[trigger] new_sheets@[q]@ != old_sheets@[i as int]@,
            decreases new_sheets@.len() - j,
        {
            if str_equal(&new_sheets[j], &old_sheets[i]) {
                found = true;
            }
            j += 1;
        }
        if found {
            let ghost before = out@;
            out.push(old_sheets[i].clone());
            assert(out@.map_values(|s: String| s@) =~= before.map_values(|s: String| s@).push(old_sheets@[i as int]@));
        }
        i += 1;
    }
    out
}

/// The smaller of two optional corners, an absent one reading as `u32::MAX`.
pub open spec fn spec_low(a: Option<(u32, u32)>, b: Option<(u32, u32)>) -> (u32, u32) {
    let x = match a {
        Some(p) => p,
        None => (u32::MAX, u32::MAX),
    };
    let y = match b {
        Some(p) => p,
        None => (u32::MAX, u32::MAX),
    };
    (if x.0 <= y.0 { x.0 } else { y.0 }, if x.1 <= y.1 { x.1 } else { y.1 })
}

/// The larger of two optional corners, an absent one reading as `0`.
pub open spec fn spec_high(a: Option<(u32, u32)>, b: Option<(u32, u32)>) -> (u32, u32) {
    let x = match a {
        Some(p) => p,
        None => (0, 0),
    };
    let y = match b {
        Some(p) => p,
        None => (0, 0),
    };
    (if x.0 >= y.0 { x.0 } else { y.0 }, if x.1 >= y.1 { x.1 } else { y.1 })
}

/// The bounding rectangle of both ranges, as
/// `(start_row, start_col, end_row_exclusive, end_col_exclusive)`.
pub fn diff_range(
    old_start: Option<(u32, u32)>,
    new_start: Option<(u32, u32)>,
    old_end: Option<(u32, u32)>,
    new_end: Option<(u32, u32)>,
) -> (r: (u32, u32, u32, u32))
    requires
        old_end matches Some(e) ==> e.0 < u32::MAX && e.1 < u32::MAX,
        new_end matches Some(e) ==> e.0 < u32::MAX && e.1 < u32::MAX,
    ensures
        r.0 == spec_low(old_start, new_start).0,
        r.1 == spec_low(old_start, new_start).1,
        r.2 == spec_high(old_end, new_end).0 + 1,
        r.3 == spec_high(old_end, new_end).1 + 1,
{
    let (osr, osc) = match old_start {
        Some(p) => p,
        None => (u32::MAX, u32::MAX),
    };
    let (nsr, nsc) = match new_start {
        Some(p) => p,
        None => (u32::MAX, u32::MAX),
    };
    let (oer, oec) = match old_end {
        Some(p) => p,
        None => (0, 0),
    };
    let (ner, nec) = match new_end {
        Some(p) => p,
        None => (0, 0),
    };
    let start_row = if osr <= nsr { osr } else { nsr };
    let start_col = if osc <= nsc { osc } else { nsc };
    let end_row = if oer >= ner { oer } else { ner };
    let end_col = if oec >= nec { oec } else { nec };
    (start_row, start_col, end_row + 1, end_col + 1)
}

fn push_label(out: &mut String, col: usize)
    ensures
        final(out)@ == old(out)@ + spec_col_label(col as nat),
    decreases col,
{
    if col > 0 {
        let rem = (col - 1) % 26;
        push_label(out, (col - 1) / 26);
        let letter = (65u8 + (rem as u8)) as char;
        push_char(out, letter);
        assert(old(out)@ + spec_col_label(col as nat) =~= (old(out)@ + spec_col_label(
            ((col - 1) / 26) as nat,
        )).push(spec_letter(rem as nat)));
    } else {
        assert(old(out)@ + spec_col_label(0) =~= old(out)@);
    }
}

/// The Excel label of a 1-based column index (`1` → `"A"`, `27` → `"AA"`).
pub fn col_to_label(col: usize) -> (s: String)
    requires
        col > 0,
    ensures
        s@ == spec_col_label(col as nat),
{
    let mut s = String::new();
    push_label(&mut s, col);
    assert(s@ =~= spec_col_label(col as nat));
    s
}

/// The Excel A1 address of a 1-based `(row, col)` (`(1, 16384)` → `"XFD1"`).
pub fn cell_pos_to_address(row: usize, col: usize) -> (s: String)
    requires
        col > 0,
    ensures
        s@ == spec_a1(row as nat, col as nat),
{
    let mut s = String::new();
    push_label(&mut s, col);
    push_decimal(&mut s, row as u64);
    assert(s@ =~= spec_a1(row as nat, col as nat));
    s
}

} // verus!
