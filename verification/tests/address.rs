use sheets_diff::address::{cell_pos_to_a1, col_to_label};
use sheets_diff::{CellAddress, ComparedRange, MAX_COL, MAX_COL_LABEL, MAX_ROW};

#[test]
fn col_label_single_letters() {
    assert_eq!(col_to_label(1), "A");
    assert_eq!(col_to_label(26), "Z");
}

#[test]
fn col_label_double_letters() {
    assert_eq!(col_to_label(27), "AA");
    assert_eq!(col_to_label(52), "AZ");
    assert_eq!(col_to_label(53), "BA");
    assert_eq!(col_to_label(702), "ZZ");
}

#[test]
fn col_label_triple_letters() {
    assert_eq!(col_to_label(703), "AAA");
    assert_eq!(col_to_label(16_384), MAX_COL_LABEL);
}

#[test]
fn cell_address_new_valid() {
    let addr = CellAddress::new(1, 1).unwrap();
    assert_eq!(addr.a1, "A1");
    assert_eq!(addr.row, 1);
    assert_eq!(addr.col, 1);

    let last = CellAddress::new(MAX_ROW, MAX_COL).unwrap();
    assert_eq!(last.a1, "XFD1048576");
}

#[test]
fn cell_address_new_out_of_bounds() {
    assert!(CellAddress::new(0, 1).is_none());
    assert!(CellAddress::new(1, 0).is_none());
    assert!(CellAddress::new(MAX_ROW + 1, 1).is_none());
    assert!(CellAddress::new(1, MAX_COL + 1).is_none());
}

#[test]
fn sort_order_is_row_col_not_a1_lexicographic() {
    let a2 = CellAddress::new(2, 1).unwrap();
    let a10 = CellAddress::new(10, 1).unwrap();
    assert!(a2 < a10, "A10 must sort after A2 (numeric row, not lex)");
}

#[test]
fn a1_text_joins_label_and_row() {
    assert_eq!(cell_pos_to_a1(1, 1), "A1");
    assert_eq!(cell_pos_to_a1(10, 28), "AB10");
    assert_eq!(cell_pos_to_a1(MAX_ROW, MAX_COL), "XFD1048576");
}

#[test]
fn col_label_roundtrip_is_distinct_for_neighbours() {
    assert_ne!(col_to_label(26), col_to_label(27));
    assert_eq!(col_to_label(18_278), "ZZZ");
}

#[test]
fn new_unchecked_keeps_coordinates() {
    let a = CellAddress::new_unchecked(3, 2);
    assert_eq!(a.row, 3);
    assert_eq!(a.col, 2);
    assert_eq!(a.a1, "B3");
}

#[test]
fn compared_range_union_encloses_both() {
    let r = ComparedRange::union(Some((2, 3)), Some((5, 4)), Some((1, 7)), Some((3, 9)));
    assert_eq!(r.start, Some((1, 3)));
    assert_eq!(r.end, Some((5, 9)));
    let swapped = ComparedRange::union(Some((1, 7)), Some((3, 9)), Some((2, 3)), Some((5, 4)));
    assert_eq!(r, swapped);
    let one_side = ComparedRange::union(None, None, Some((2, 2)), Some((4, 4)));
    assert_eq!(one_side.start, Some((2, 2)));
    assert_eq!(one_side.end, Some((4, 4)));
    let e = ComparedRange::empty();
    assert!(e.start.is_none() && e.end.is_none());
}
