//! Cell addressing: A1 label encoding, 1-based coordinates, Excel bounds.
//!
//! Excel limits: rows 1–1_048_576, columns 1–16_384 (A–XFD).

use vstd::prelude::*;

use crate::strings::{push_char, push_decimal, spec_decimal};

verus! {

/// Maximum valid 1-based row index in an Excel .xlsx workbook.
pub const MAX_ROW: u32 = 1_048_576;

/// Maximum valid 1-based column index in an Excel .xlsx workbook.
pub const MAX_COL: u32 = 16_384;

/// The A1 label of the last valid Excel column (column 16384).
pub const MAX_COL_LABEL: &'static str = "XFD";

/// The uppercase letter for a base-26 digit `k` (`0 <= k < 26`): `0` is `A`.
pub open spec fn spec_letter(k: nat) -> char {
    (65 + k) as char
}

/// The Excel label of a 1-based column (bijective base 26, `A` = 1, `Z` = 26,
/// `AA` = 27); the empty sequence for 0.
pub open spec fn spec_col_label(col: nat) -> Seq<char>
    decreases col,
{
    if col == 0 {
        Seq::empty()
    } else {
        spec_col_label(((col - 1) / 26) as nat).push(spec_letter(((col - 1) % 26) as nat))
    }
}

/// The number a column label stands for: each letter is a digit 1..=26.
pub open spec fn spec_label_value(s: Seq<char>) -> int
    decreases s.len(),
{
    if s.len() == 0 {
        0
    } else {
        spec_label_value(s.drop_last()) * 26 + (s.last() as int - 64)
    }
}

/// Every character of `s` is an ASCII uppercase letter.
pub open spec fn all_uppercase(s: Seq<char>) -> bool {
    forall|i: int| 0 <= i < s.len() ==> 'A' <= #[trigger] s[i] <= 'Z'
}

/// The A1 address of a 1-based `(row, col)`: the column label, then the row in decimal.
pub open spec fn spec_a1(row: nat, col: nat) -> Seq<char> {
    spec_col_label(col) + spec_decimal(row)
}

/// Whether `(row, col)` lies inside the Excel grid.
pub open spec fn in_bounds(row: nat, col: nat) -> bool {
    1 <= row <= MAX_ROW && 1 <= col <= MAX_COL
}

/// A column label reads back as the column it was made from, so different
/// columns never share a label; its letters are uppercase, and a positive
/// column has a non-empty label.
pub proof fn lemma_col_label_roundtrip(col: nat)
    ensures
        spec_label_value(spec_col_label(col)) == col,
        all_uppercase(spec_col_label(col)),
        col > 0 ==> spec_col_label(col).len() > 0,
    decreases col,
{
    if col > 0 {
        let q = ((col - 1) / 26) as nat;
        let r = ((col - 1) % 26) as nat;
        lemma_col_label_roundtrip(q);
        let s = spec_col_label(col);
        assert(s.drop_last() =~= spec_col_label(q));
        assert(s.last() == spec_letter(r));
        assert(col - 1 == q * 26 + r);
    }
}

/// Two columns with the same label are the same column.
pub proof fn lemma_col_label_injective(a: nat, b: nat)
    requires
        spec_col_label(a) == spec_col_label(b),
    ensures
        a == b,
{
    lemma_col_label_roundtrip(a);
    lemma_col_label_roundtrip(b);
}

/// The last Excel column is labelled `XFD`.
pub proof fn lemma_max_col_label()
    ensures
        spec_col_label(MAX_COL as nat) == MAX_COL_LABEL@,
{
    reveal_strlit("XFD");
    assert(spec_col_label(0) =~= Seq::<char>::empty());
    assert(spec_col_label(24) =~= seq!['X']);
    assert(spec_col_label(630) =~= seq!['X', 'F']);
    assert(spec_col_label(16384) =~= seq!['X', 'F', 'D']);
}

/// The address of a single cell, carrying both numeric coordinates and the A1
/// label.
///
/// - `row` and `col` are **1-based**.
/// - `a1` is the canonical Excel A1 string (e.g. `"XFD1048576"`).
/// - Sorting uses `(row, col)`, never lexicographic A1 order: the derived
///   ordering compares `row` first, then `col`, and `a1` is a function of the two.
#[derive(PartialEq, Eq, PartialOrd, Ord, Debug)]
pub struct CellAddress {
    pub row: u32,
    pub col: u32,
    pub a1: String,
}

impl Clone for CellAddress {
    fn clone(&self) -> (r: Self)
        ensures
            r == *self,
    {
        CellAddress { row: self.row, col: self.col, a1: self.a1.clone() }
    }
}

impl CellAddress {
    /// The address is well formed: `a1` is the label of `(row, col)`.
    pub open spec fn wf(&self) -> bool {
        self.a1@ == spec_a1(self.row as nat, self.col as nat)
    }

    /// Construct a `CellAddress` from 1-based `(row, col)`.
    ///
    /// Returns `None` when `row` or `col` is zero or exceeds the Excel limit.
    pub fn new(row: u32, col: u32) -> (r: Option<Self>)
        ensures
            r is Some <==> in_bounds(row as nat, col as nat),
            r matches Some(a) ==> a.row == row && a.col == col && a.wf(),
    {
        if row == 0 || row > MAX_ROW || col == 0 || col > MAX_COL {
            return None;
        }
        Some(Self::new_unchecked(row, col))
    }

    /// Construct without bounds checking. The caller asserts validity.
    pub fn new_unchecked(row: u32, col: u32) -> (r: Self)
        ensures
            r.row == row,
            r.col == col,
            r.wf(),
    {
        Self { a1: cell_pos_to_a1(row, col), row, col }
    }
}

/// The bounding rectangle that was compared for a sheet pair.
///
/// `None` on either side means that side was empty (no used range).
#[derive(Clone, Debug, PartialEq)]
pub struct ComparedRange {
    /// Inclusive top-left, 1-based.
    pub start: Option<(u32, u32)>,
    /// Inclusive bottom-right, 1-based.
    pub end: Option<(u32, u32)>,
}

/// The componentwise minimum of two optional corners; an absent corner is ignored.
pub open spec fn spec_min_corner(a: Option<(u32, u32)>, b: Option<(u32, u32)>) -> Option<(u32, u32)> {
    match (a, b) {
        (None, None) => None,
        (Some(x), None) => Some(x),
        (None, Some(y)) => Some(y),
        (Some(x), Some(y)) => Some(
            (if x.0 <= y.0 { x.0 } else { y.0 }, if x.1 <= y.1 { x.1 } else { y.1 }),
        ),
    }
}

/// The componentwise maximum of two optional corners; an absent corner is ignored.
pub open spec fn spec_max_corner(a: Option<(u32, u32)>, b: Option<(u32, u32)>) -> Option<(u32, u32)> {
    match (a, b) {
        (None, None) => None,
        (Some(x), None) => Some(x),
        (None, Some(y)) => Some(y),
        (Some(x), Some(y)) => Some(
            (if x.0 >= y.0 { x.0 } else { y.0 }, if x.1 >= y.1 { x.1 } else { y.1 }),
        ),
    }
}

fn min_corner(a: Option<(u32, u32)>, b: Option<(u32, u32)>) -> (r: Option<(u32, u32)>)
    ensures
        r == spec_min_corner(a, b),
{
    match (a, b) {
        (None, None) => None,
        (Some(x), None) => Some(x),
        (None, Some(y)) => Some(y),
        (Some(x), Some(y)) => Some(
            (if x.0 <= y.0 { x.0 } else { y.0 }, if x.1 <= y.1 { x.1 } else { y.1 }),
        ),
    }
}

fn max_corner(a: Option<(u32, u32)>, b: Option<(u32, u32)>) -> (r: Option<(u32, u32)>)
    ensures
        r == spec_max_corner(a, b),
{
    match (a, b) {
        (None, None) => None,
        (Some(x), None) => Some(x),
        (None, Some(y)) => Some(y),
        (Some(x), Some(y)) => Some(
            (if x.0 >= y.0 { x.0 } else { y.0 }, if x.1 >= y.1 { x.1 } else { y.1 }),
        ),
    }
}

impl ComparedRange {
    /// The range of two empty sides.
    pub fn empty() -> (r: Self)
        ensures
            r.start is None,
            r.end is None,
    {
        Self { start: None, end: None }
    }

    /// Expand to contain both sides' used ranges.
    pub fn union(
        old_start: Option<(u32, u32)>,
        old_end: Option<(u32, u32)>,
        new_start: Option<(u32, u32)>,
        new_end: Option<(u32, u32)>,
    ) -> (r: Self)
        ensures
            r.start == spec_min_corner(old_start, new_start),
            r.end == spec_max_corner(old_end, new_end),
    {
        Self { start: min_corner(old_start, new_start), end: max_corner(old_end, new_end) }
    }
}

/// The union of two ranges does not depend on which side is called old, and
/// its corners enclose each side's corners.
pub proof fn lemma_union_symmetric_and_enclosing(
    a_start: Option<(u32, u32)>,
    a_end: Option<(u32, u32)>,
    b_start: Option<(u32, u32)>,
    b_end: Option<(u32, u32)>,
)
    ensures
        spec_min_corner(a_start, b_start) == spec_min_corner(b_start, a_start),
        spec_max_corner(a_end, b_end) == spec_max_corner(b_end, a_end),
        a_start matches Some(s) ==> spec_min_corner(a_start, b_start) matches Some(m) && m.0 <= s.0
            && m.1 <= s.1,
        b_start matches Some(s) ==> spec_min_corner(a_start, b_start) matches Some(m) && m.0 <= s.0
            && m.1 <= s.1,
        a_end matches Some(e) ==> spec_max_corner(a_end, b_end) matches Some(m) && m.0 >= e.0 && m.1
            >= e.1,
        b_end matches Some(e) ==> spec_max_corner(a_end, b_end) matches Some(m) && m.0 >= e.0 && m.1
            >= e.1,
{
}

/// Appends the label of column `col` to `out`.
fn push_col_label(out: &mut String, col: u32)
    ensures
        final(out)@ == old(out)@ + spec_col_label(col as nat),
    decreases col,
{
    if col > 0 {
        let rem = (col - 1) % 26;
        push_col_label(out, (col - 1) / 26);
        let letter = (65u8 + (rem as u8)) as char;
        push_char(out, letter);
        assert(old(out)@ + spec_col_label(col as nat) =~= (old(out)@ + spec_col_label(
            ((col - 1) / 26) as nat,
        )).push(spec_letter(rem as nat)));
    } else {
        assert(old(out)@ + spec_col_label(0) =~= old(out)@);
    }
}

/// Convert a 1-based column index to an Excel column label (`1` → `"A"`,
/// `16384` → `"XFD"`).
pub fn col_to_label(col: u32) -> (s: String)
    requires
        col > 0,
    ensures
        s@ == spec_col_label(col as nat),
{
    let mut s = String::new();
    push_col_label(&mut s, col);
    assert(s@ =~= spec_col_label(col as nat));
    s
}

/// Convert a 1-based `(row, col)` pair to an Excel A1 address string.
pub fn cell_pos_to_a1(row: u32, col: u32) -> (s: String)
    ensures
        s@ == spec_a1(row as nat, col as nat),
{
    let mut s = String::new();
    push_col_label(&mut s, col);
    push_decimal(&mut s, row as u64);
    assert(s@ =~= spec_a1(row as nat, col as nat));
    s
}

} // verus!
