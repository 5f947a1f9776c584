use sheets_diff::grid::diff::{
    collect_formula_changes, collect_sheet_diff, collect_value_changes, CellDiffKind, Diff,
    FormulaCell, GridCell, GridValue, SharedSheet,
};
use sheets_diff::grid::unified_format::unified_diff;
use sheets_diff::grid::utils::{cell_pos_to_address, col_to_label, diff_range, filter_same_name_sheets};

fn gc(row: u32, col: u32, v: GridValue, t: &str) -> GridCell {
    GridCell { row, col, value: v, text: t.to_string() }
}

fn fc(row: u32, col: u32, f: &str) -> FormulaCell {
    FormulaCell { row, col, formula: f.to_string() }
}

fn names(v: &[&str]) -> Vec<String> {
    v.iter().map(|s| s.to_string()).collect()
}

fn sample() -> Diff {
    let shared = vec![SharedSheet {
        name: "B".into(),
        old_values: vec![gc(0, 0, GridValue::Int(1), "1"), gc(1, 0, GridValue::String("x".into()), "x")],
        new_values: vec![gc(0, 0, GridValue::Int(2), "2"), gc(1, 0, GridValue::String("x".into()), "x")],
        old_formulas: vec![fc(0, 1, "=A1")],
        new_formulas: vec![],
    }];
    Diff::from_sheets(
        "old.xlsx".into(),
        "new.xlsx".into(),
        &names(&["A", "B"]),
        &names(&["B", "C"]),
        &shared,
    )
}

#[test]
fn grid_diff_lists_sheet_and_cell_changes() {
    let d = sample();
    assert_eq!(d.sheet_diff.len(), 2);
    assert_eq!(d.sheet_diff[0].old.as_deref(), Some("A"));
    assert!(d.sheet_diff[0].new.is_none());
    assert_eq!(d.sheet_diff[1].new.as_deref(), Some("C"));
    assert_eq!(d.cell_diffs.len(), 1);
    let cells = &d.cell_diffs[0].cells;
    assert_eq!(cells.len(), 2);
    assert_eq!((cells[0].row, cells[0].col, cells[0].kind), (1, 1, CellDiffKind::Value));
    assert_eq!(cells[0].addr, "A1");
    assert_eq!(cells[0].old.as_deref(), Some("1"));
    assert_eq!(cells[0].new.as_deref(), Some("2"));
    assert_eq!((cells[1].row, cells[1].col, cells[1].kind), (1, 2, CellDiffKind::Formula));
    assert_eq!(cells[1].old.as_deref(), Some("=A1"));
    assert!(cells[1].new.is_none());
}

#[test]
fn unified_grid_text() {
    let d = sample();
    let text = unified_diff(&d).format().to_text();
    assert_eq!(
        text,
        "--- old.xlsx (sheet names)\n+++ new.xlsx (sheet names)\n- A\n+ C\n--- old.xlsx [B]\n+++ new.xlsx [B]\n@@ A1(1,1) value @@\n- 1\n+ 2\n@@ B1(1,2) formula @@\n- =A1\n"
    );
}

#[test]
fn split_view_keeps_each_side() {
    let d = sample();
    let s = unified_diff(&d).split();
    assert_eq!(s.old.len(), 2);
    assert_eq!(s.old[0].title, "old.xlsx (sheet names)");
    assert_eq!(s.new[1].title, "new.xlsx [B]");
    assert_eq!(s.old[1].lines[0].pos.as_deref(), Some("A1(1,1) value"));
    assert_eq!(s.new[1].lines[0].text.as_deref(), Some("2"));
    assert!(s.new[1].lines[1].text.is_none());
}

#[test]
fn same_sheet_lists_give_no_sheet_changes() {
    assert!(collect_sheet_diff(&names(&["A", "B"]), &names(&["A", "B"])).is_empty());
    let r = collect_sheet_diff(&names(&["A", "B"]), &names(&["B", "A"]));
    assert!(r.is_empty());
}

#[test]
fn value_changes_cover_the_union_of_both_grids() {
    let a = vec![gc(0, 0, GridValue::Float(1.0f64.to_bits()), "1")];
    let b = vec![gc(0, 0, GridValue::Float(0.5f64.to_bits()), "0.5"), gc(2, 3, GridValue::Bool(true), "true")];
    let r = collect_value_changes(&a, &b);
    assert_eq!(r.len(), 2);
    assert_eq!(r[0].addr, "A1");
    assert_eq!(r[0].new.as_deref(), Some("0.5"));
    assert_eq!(r[1].addr, "D3");
    assert!(r[1].old.is_none());
    assert_eq!(r[1].new.as_deref(), Some("true"));
}

#[test]
fn equal_floats_by_ieee_equality() {
    let a = vec![gc(0, 0, GridValue::Float(0.0f64.to_bits()), "0")];
    let b = vec![gc(0, 0, GridValue::Float((-0.0f64).to_bits()), "-0")];
    assert!(collect_value_changes(&a, &b).is_empty());
}

#[test]
fn formula_changes_compare_texts() {
    let a = vec![fc(0, 0, "=1"), fc(1, 1, "=2")];
    let b = vec![fc(0, 0, "=1"), fc(1, 1, "=3")];
    let r = collect_formula_changes(&a, &b);
    assert_eq!(r.len(), 1);
    assert_eq!(r[0].addr, "B2");
    assert_eq!(r[0].kind, CellDiffKind::Formula);
}

#[test]
fn shared_names_keep_old_order() {
    let r = filter_same_name_sheets(&names(&["C", "A", "B"]), &names(&["B", "C"]));
    assert_eq!(r, names(&["C", "B"]));
}

#[test]
fn range_encloses_both_sides() {
    assert_eq!(diff_range(Some((1, 2)), Some((0, 3)), Some((4, 4)), Some((2, 9))), (0, 2, 5, 10));
    assert_eq!(diff_range(None, Some((3, 3)), None, Some((5, 5))), (3, 3, 6, 6));
}

#[test]
fn grid_labels() {
    assert_eq!(col_to_label(1), "A");
    assert_eq!(col_to_label(28), "AB");
    assert_eq!(cell_pos_to_address(1, 16_384), "XFD1");
}

#[test]
fn diff_returns_an_equal_copy() {
    let mut d = sample();
    let c = d.diff();
    assert_eq!(c.old_filepath, d.old_filepath);
    assert_eq!(c.new_filepath, d.new_filepath);
    assert_eq!(c.sheet_diff.len(), d.sheet_diff.len());
    for (a, b) in c.sheet_diff.iter().zip(d.sheet_diff.iter()) {
        assert_eq!(a.old, b.old);
        assert_eq!(a.new, b.new);
    }
    assert_eq!(c.cell_diffs.len(), d.cell_diffs.len());
    for (a, b) in c.cell_diffs.iter().zip(d.cell_diffs.iter()) {
        assert_eq!(a.sheet, b.sheet);
        assert_eq!(a.cells.len(), b.cells.len());
        for (x, y) in a.cells.iter().zip(b.cells.iter()) {
            assert_eq!((x.row, x.col, &x.addr, x.kind, &x.old, &x.new), (y.row, y.col, &y.addr, y.kind, &y.old, &y.new));
        }
    }
    assert!(!c.cell_diffs.is_empty());
}
