use std::sync::{Arc, Mutex};

use sheets_diff::cells::CellEntry;
use sheets_diff::compare::FloatQuestion;
use sheets_diff::diff::SheetCells;
use sheets_diff::objects::{SheetKind, SheetMeta, SheetVisibility};
use sheets_diff::open::{check_input_size, workbook_ok, OpenedWorkbook, SheetContent};
use sheets_diff::options::cancel_outcome;
use sheets_diff::error::XlsxErrorClass;
use sheets_diff::ReadErrorKind;
use sheets_diff::output::text::{render_summary, render_unified};
use sheets_diff::output::view::{ChangeAnchor, DiffView, ViewFilter};
use sheets_diff::pipeline::{keep_diagnostics, run_pipeline};
use sheets_diff::verdict::{exit_code_for, suppress_diagnostics, workbooks_differ};
use sheets_diff::{
    AlignmentMode, CellChangeKind, CellValue, DiagnosticKind, DiffOptions, LimitKind,
    ObjectCompareMode, OpenErrorKind, Severity, SheetChange, SheetRef, SheetsDiffError,
    SourceDescription, SourceKind, WorkbookDiff,
};

fn oracle(q: FloatQuestion) -> bool {
    match q {
        FloatQuestion::WithinTolerance { a, b, .. } => f64::from_bits(a) == f64::from_bits(b),
        FloatQuestion::IntegerEqualsNumber { i, f } => i as f64 == f64::from_bits(f),
        FloatQuestion::SerialsEquivalent { a, b, .. } => f64::from_bits(a) == f64::from_bits(b),
    }
}

fn text(row: u32, col: u32, s: &str) -> CellEntry {
    CellEntry { row, col, value: CellValue::Text(s.to_string()), formula: None }
}

fn integer(row: u32, col: u32, i: i64) -> CellEntry {
    CellEntry { row, col, value: CellValue::Integer(i), formula: None }
}

fn workbook(name: &str, sheets: Vec<(&str, Vec<CellEntry>)>) -> OpenedWorkbook {
    let mut refs = Vec::new();
    let mut metas = Vec::new();
    let mut contents = Vec::new();
    for (i, (n, cells)) in sheets.into_iter().enumerate() {
        refs.push(SheetRef::new(n.to_string(), i));
        metas.push(SheetMeta {
            name: n.to_string(),
            kind: SheetKind::WorkSheet,
            visible: SheetVisibility::Visible,
        });
        contents.push(SheetContent::Cells(SheetCells { cells, has_formulas: false }));
    }
    OpenedWorkbook {
        source: SourceDescription::new(SourceKind::Path, Some(name.to_string())),
        sheets: refs,
        metas,
        defined_names: vec![],
        contents,
    }
}

fn scenario() -> (OpenedWorkbook, OpenedWorkbook) {
    let old = workbook("old.xlsx", vec![("Sheet1", vec![text(1, 1, "a"), integer(1, 2, 1)])]);
    let new = workbook(
        "new.xlsx",
        vec![("Sheet1", vec![text(1, 1, "b"), integer(1, 2, 1)]), ("Sheet2", vec![text(1, 1, "x")])],
    );
    (old, new)
}

fn run(old: OpenedWorkbook, new: OpenedWorkbook, opts: DiffOptions) -> Result<WorkbookDiff, SheetsDiffError> {
    run_pipeline(old, new, opts, &oracle)
}

#[test]
fn pipeline_reports_changed_and_added_sheets() {
    let (old, new) = scenario();
    let d = run(old, new, DiffOptions::default()).ok().unwrap();
    assert_eq!(d.sheets.len(), 2);
    assert_eq!(d.sheets[0].change, SheetChange::Modified);
    assert_eq!(d.sheets[1].change, SheetChange::Added);
    assert_eq!(d.sheets[0].cell_diffs.len(), 1);
    assert_eq!(d.sheets[0].cell_diffs[0].address.a1, "A1");
    assert_eq!(d.sheets[0].cell_diffs[0].change_kind(), CellChangeKind::Modified);
    assert_eq!(d.sheets[1].cell_diffs[0].change_kind(), CellChangeKind::Added);
    assert_eq!(d.summary.sheets_added, 1);
    assert_eq!(d.summary.sheets_changed, 1);
    assert_eq!(d.summary.cells_changed, 2);
    assert_eq!(d.summary.values_changed, 2);
    assert_eq!(d.summary.formulas_changed, 0);
    assert_eq!(d.summary.diagnostics.info, 1);
    assert_eq!(d.summary.diagnostics.warnings, 0);
    assert_eq!(d.old.sheet_count, 1);
    assert_eq!(d.new.sheet_count, 2);
    assert!(d.workbook_changes.is_empty());
    assert!(workbooks_differ(&d));
}

#[test]
fn identical_workbooks_do_not_differ() {
    let old = workbook("a.xlsx", vec![("S", vec![text(1, 1, "a"), integer(2, 3, 7)])]);
    let new = workbook("b.xlsx", vec![("S", vec![text(1, 1, "a"), integer(2, 3, 7)])]);
    let d = run(old, new, DiffOptions::default()).ok().unwrap();
    assert_eq!(d.sheets.len(), 1);
    assert_eq!(d.sheets[0].change, SheetChange::Unchanged);
    assert!(d.sheets[0].cell_diffs.is_empty());
    assert!(!workbooks_differ(&d));
    assert_eq!(d.metrics.cells_read, 4);
}

#[test]
fn summary_text_lists_counts_and_sheets() {
    let (old, new) = scenario();
    let d = run(old, new, DiffOptions::default()).ok().unwrap();
    assert_eq!(
        render_summary(&d),
        "sheets-diff: old.xlsx  →  new.xlsx\n  sheets : 1 added, 0 removed, 0 renamed, 0 moved, 1 changed\n  cells  : 2 changed (2 value, 0 formula)\n  sheet 'Sheet1': 1 cell(s) changed\n  sheet 'Sheet2' [added]: 1 cell(s) changed\n"
    );
}

#[test]
fn unified_text_shows_each_cell() {
    let (old, new) = scenario();
    let d = run(old, new, DiffOptions::default()).ok().unwrap();
    assert_eq!(
        render_unified(&d),
        "--- old.xlsx\n+++ new.xlsx\n@@ sheet: Sheet1 @@\n-A1\ta\n+A1\tb\n@@ sheet: Sheet2 @@\n+[sheet added]\n-A1\t\n+A1\tx\n"
    );
}

#[test]
fn too_many_sheets_fails_before_work() {
    let (old, new) = scenario();
    let o = DiffOptions::builder().max_sheets(1).build().ok().unwrap();
    match run(old, new, o) {
        Err(SheetsDiffError::LimitExceeded { limit, observed }) => {
            assert_eq!(limit, LimitKind::Sheets);
            assert_eq!(observed, 2);
        }
        _ => panic!("expected a sheet limit error"),
    }
}

#[test]
fn cells_read_limit_reports_max_plus_one() {
    let (old, new) = scenario();
    let o = DiffOptions::builder().max_cells_read(Some(2)).build().ok().unwrap();
    match run(old, new, o) {
        Err(SheetsDiffError::LimitExceeded { limit, observed }) => {
            assert_eq!(limit, LimitKind::CellsRead);
            assert_eq!(observed, 3);
        }
        _ => panic!("expected a cells-read limit error"),
    }
}

#[test]
fn cancellation_before_the_first_sheet() {
    let (old, new) = scenario();
    let o = DiffOptions::builder().cancellation(|| true).build().ok().unwrap();
    let r = run(old, new, o);
    assert!(matches!(r, Err(SheetsDiffError::Cancelled)));
    assert_eq!(exit_code_for(&SheetsDiffError::Cancelled), 2);
}

#[test]
fn ignoring_objects_drops_the_coverage_note() {
    let (old, new) = scenario();
    let o = DiffOptions::builder().object_mode(ObjectCompareMode::Ignore).build().ok().unwrap();
    let d = run(old, new, o).ok().unwrap();
    assert!(d.diagnostics.is_empty());
}

#[test]
fn chart_sheet_warns_and_is_rendered_in_diagnostics() {
    let (old, mut new) = scenario();
    new.metas[1].kind = SheetKind::ChartSheet;
    let d = run(old, new, DiffOptions::default()).ok().unwrap();
    let warn = d
        .diagnostics
        .iter()
        .find(|x| x.severity == Severity::Warning)
        .expect("a warning about the chart sheet");
    assert_eq!(warn.kind.code(), "unsupported_workbook_feature");
    assert!(render_unified(&d).contains("\n# Diagnostics\n  [WARN] unsupported_workbook_feature — sheet 'Sheet2' is a chart sheet"));
    assert!(render_summary(&d).contains("  diagnostics: 0 error(s), 1 warning(s)\n"));
}

#[test]
fn row_key_alignment_through_the_pipeline() {
    let old = workbook("o", vec![("S", vec![text(1, 1, "k1"), text(1, 2, "x"), text(2, 1, "k2"), text(2, 2, "y")])]);
    let new = workbook(
        "n",
        vec![("S", vec![text(1, 1, "k0"), text(2, 1, "k1"), text(2, 2, "x"), text(3, 1, "k2"), text(3, 2, "z")])],
    );
    let o = DiffOptions::builder().alignment(AlignmentMode::RowKey { columns: vec![1] }).build().ok().unwrap();
    let d = run(old, new, o).ok().unwrap();
    let sd = &d.sheets[0];
    let a = sd.alignment_summary.as_ref().unwrap();
    assert_eq!(a.matched_rows, 2);
    assert_eq!(a.inserted_rows, 1);
    assert_eq!(a.removed_rows, 0);
    let addrs: Vec<&str> = sd.cell_diffs.iter().map(|c| c.address.a1.as_str()).collect();
    assert_eq!(addrs, vec!["A1", "B2"]);
}

#[test]
fn view_navigates_in_anchor_order() {
    let (old, new) = scenario();
    let d = run(old, new, DiffOptions::default()).ok().unwrap();
    let v = DiffView::new(&d);
    let f = ViewFilter::default();
    assert_eq!(v.row_count(&f), 2);
    let first = v.first(&f).unwrap();
    assert_eq!(first, ChangeAnchor { sheet_index: 0, row: 1, col: 1 });
    let second = v.next_after(&first, &f).unwrap();
    assert_eq!(second, ChangeAnchor { sheet_index: 1, row: 1, col: 1 });
    assert!(v.next_after(&second, &f).is_none());
    assert_eq!(v.previous_before(&second, &f), Some(first));
    assert!(v.previous_before(&first, &f).is_none());
    let rows = v.rows(&f);
    assert_eq!(rows[0].old_display, "a");
    assert_eq!(rows[0].new_display, "b");
    assert_eq!(rows[1].to_owned_row().sheet_name, "Sheet2");
    let only_second = ViewFilter { sheets: Some(vec![1]), ..ViewFilter::default() };
    assert_eq!(v.row_count(&only_second), 1);
    assert_eq!(v.sheets().len(), 2);
}

#[test]
fn suppressing_diagnostics_keeps_the_changes() {
    let (old, mut new) = scenario();
    new.metas[1].kind = SheetKind::ChartSheet;
    let mut d = run(old, new, DiffOptions::default()).ok().unwrap();
    suppress_diagnostics(&mut d);
    assert!(d.diagnostics.is_empty());
    assert_eq!(d.sheets.len(), 2);
    assert_eq!(d.sheets[0].cell_diffs.len(), 1);
    assert!(workbooks_differ(&d));
}

#[test]
fn input_size_is_checked_before_reading() {
    assert!(check_input_size(10, Some(10)).is_ok());
    assert!(check_input_size(10, None).is_ok());
    match check_input_size(11, Some(10)) {
        Err(SheetsDiffError::LimitExceeded { limit, observed }) => {
            assert_eq!(limit, LimitKind::InputBytes);
            assert_eq!(observed, 11);
        }
        _ => panic!("expected an input limit error"),
    }
}

#[test]
fn exit_codes_distinguish_unusable_input() {
    let src = SourceDescription::new(SourceKind::Path, Some("x.xlsx".into()));
    let e = SheetsDiffError::OpenWorkbook { side: sheets_diff::Side::Old, source: src, kind: OpenErrorKind::Corrupt, inner: None };
    assert_eq!(exit_code_for(&e), 3);
    assert_eq!(e.message(), "cannot open old workbook 'x.xlsx': file is corrupt");
    let src = SourceDescription::new(SourceKind::Path, None);
    let e = SheetsDiffError::OpenWorkbook { side: sheets_diff::Side::New, source: src, kind: OpenErrorKind::NotFound, inner: None };
    assert_eq!(exit_code_for(&e), 2);
    assert_eq!(exit_code_for(&SheetsDiffError::EncryptedWorkbook { side: sheets_diff::Side::Old }), 3);
}

#[test]
fn formula_notes_for_numeric_cells_without_text() {
    let mut old = workbook("o", vec![("S", vec![integer(1, 1, 5)])]);
    let new = workbook("n", vec![("S", vec![integer(1, 1, 5)])]);
    if let SheetContent::Cells(sc) = &mut old.contents[0] {
        sc.has_formulas = true;
    }
    let d = run(old, new, DiffOptions::default()).ok().unwrap();
    let notes: Vec<_> = d.sheets[0]
        .diagnostics
        .iter()
        .filter(|x| x.kind == DiagnosticKind::FormulaUnavailable)
        .collect();
    assert_eq!(notes.len(), 1);
    assert_eq!(notes[0].message, "formula text unavailable for numeric cell at A1");
}

#[test]
fn min_severity_drops_diagnostics_below_it() {
    let (old, mut new) = scenario();
    new.metas[1].kind = SheetKind::ChartSheet;
    let o = DiffOptions::builder().min_severity(Some(Severity::Warning)).build().ok().unwrap();
    let d = run(old, new, o).ok().unwrap();
    assert_eq!(d.diagnostics.len(), 1);
    assert_eq!(d.diagnostics[0].severity, Severity::Warning);
    assert_eq!(d.summary.diagnostics.info, 0);
    assert_eq!(d.summary.diagnostics.warnings, 1);
    assert_eq!(d.metrics.diagnostics_emitted, 1);
}

#[test]
fn positional_cell_diffs_are_row_major_and_unique() {
    let old = workbook("o", vec![("S", vec![text(1, 2, "a"), text(2, 1, "b"), text(3, 3, "c")])]);
    let new = workbook("n", vec![("S", vec![text(1, 1, "z"), text(2, 1, "B"), text(3, 3, "c"), text(4, 1, "d")])]);
    let d = run(old, new, DiffOptions::default()).ok().unwrap();
    let addrs: Vec<(u32, u32)> = d.sheets[0].cell_diffs.iter().map(|c| (c.address.row, c.address.col)).collect();
    assert_eq!(addrs, vec![(1, 1), (1, 2), (2, 1), (4, 1)]);
}

#[test]
fn keep_diagnostics_filters_in_order() {
    let (old, mut new) = scenario();
    new.metas[1].kind = SheetKind::ChartSheet;
    let d = run(old, new, DiffOptions::default()).ok().unwrap();
    let all = d.diagnostics.clone();
    assert_eq!(all.len(), 2);
    let kept = keep_diagnostics(all.clone(), Some(Severity::Warning));
    assert_eq!(kept.len(), 1);
    assert_eq!(kept[0].severity, Severity::Warning);
    assert_eq!(keep_diagnostics(all.clone(), None), all);
    assert!(keep_diagnostics(all, Some(Severity::Error)).is_empty());
}

#[test]
fn progress_events_bracket_the_comparison() {
    let seen: Arc<Mutex<Vec<sheets_diff::DiffEvent>>> = Arc::new(Mutex::new(Vec::new()));
    let sink = seen.clone();
    let o = DiffOptions::builder()
        .progress(move |e: sheets_diff::DiffEvent| sink.lock().unwrap().push(e))
        .build()
        .ok()
        .unwrap();
    let (old, new) = scenario();
    let d = run(old, new, o).ok().unwrap();
    assert_eq!(d.sheets.len(), 2);
    let events = seen.lock().unwrap();
    assert_eq!(events.first(), Some(&sheets_diff::DiffEvent::Started));
    assert_eq!(events.last(), Some(&sheets_diff::DiffEvent::Finished));
    assert!(events.contains(&sheets_diff::DiffEvent::MatchingSheets));
    assert_eq!(
        events.iter().filter(|e| matches!(e, sheets_diff::DiffEvent::SheetFinished { .. })).count(),
        2
    );
}

#[test]
fn metrics_count_what_was_read_and_compared() {
    let (old, new) = scenario();
    let d = run(old, new, DiffOptions::default()).ok().unwrap();
    assert_eq!(d.metrics.sheets_read, 2);
    assert_eq!(d.metrics.cells_read, 5);
    assert_eq!(d.metrics.cells_compared, 3);
    assert_eq!(d.metrics.diffs_emitted, 2);
    assert_eq!(d.metrics.diagnostics_emitted, 1);
}

#[test]
fn aligned_cell_diffs_come_in_row_col_order() {
    let old = workbook(
        "o",
        vec![(
            "S",
            vec![
                text(1, 1, "k1"),
                text(1, 2, "a"),
                text(2, 1, "k2"),
                text(2, 2, "b"),
                text(3, 2, "free"),
                text(4, 1, "k4"),
                text(4, 2, "d"),
            ],
        )],
    );
    let new = workbook(
        "n",
        vec![(
            "S",
            vec![
                text(1, 1, "k1"),
                text(1, 2, "a"),
                text(2, 1, "k3"),
                text(2, 2, "c"),
                text(3, 1, "k4"),
                text(3, 2, "D"),
                text(4, 2, "free"),
                text(5, 2, "loose"),
            ],
        )],
    );
    let o = DiffOptions::builder().alignment(AlignmentMode::RowKey { columns: vec![1] }).build().ok().unwrap();
    let d = run(old, new, o).ok().unwrap();
    let sd = &d.sheets[0];
    let a = sd.alignment_summary.as_ref().unwrap();
    assert_eq!(a.matched_rows, 3);
    assert_eq!(a.removed_rows, 1);
    assert_eq!(a.inserted_rows, 2);
    let keys: Vec<(u32, u32)> = sd.cell_diffs.iter().map(|c| (c.address.row, c.address.col)).collect();
    assert!(keys.len() >= 4);
    for w in keys.windows(2) {
        assert!(w[0] <= w[1]);
    }
}

#[test]
fn cancel_outcome_follows_the_predicate() {
    assert!(matches!(cancel_outcome(true), Err(SheetsDiffError::Cancelled)));
    assert!(cancel_outcome(false).is_ok());
}

#[test]
fn unreadable_sheet_fails_naming_its_side_and_sheet() {
    let mut old = workbook("o", vec![("A", vec![text(1, 1, "a")]), ("B", vec![text(1, 1, "b")])]);
    old.contents[1] = SheetContent::Unreadable { class: XlsxErrorClass::WorksheetNotFound, inner: None };
    let new = workbook("n", vec![("A", vec![text(1, 1, "a")]), ("B", vec![text(1, 1, "b")])]);
    match run(old, new, DiffOptions::default()) {
        Err(SheetsDiffError::ReadSheet { side, sheet, kind, .. }) => {
            assert!(matches!(side, sheets_diff::Side::Old));
            assert_eq!(sheet.name, "B");
            assert_eq!(sheet.index, 1);
            assert!(matches!(kind, ReadErrorKind::SheetNotFound));
        }
        _ => panic!("expected a read error"),
    }
}

#[test]
fn cells_compared_limit_reports_the_running_total() {
    let (old, new) = scenario();
    let o = DiffOptions::builder().max_cells_compared(1).build().ok().unwrap();
    match run(old, new, o) {
        Err(SheetsDiffError::LimitExceeded { limit, observed }) => {
            assert!(matches!(limit, LimitKind::CellsCompared));
            assert_eq!(observed, 2);
        }
        _ => panic!("expected the cells-compared limit"),
    }
}

#[test]
fn removed_and_inserted_rows_with_one_number_stay_apart() {
    let old = workbook("o", vec![("S", vec![text(1, 1, "k1"), text(2, 1, "k2")])]);
    let new = workbook("n", vec![("S", vec![text(1, 1, "k1"), text(2, 1, "k3")])]);
    let o = DiffOptions::builder().alignment(AlignmentMode::RowKey { columns: vec![1] }).build().ok().unwrap();
    let d = run(old, new, o).ok().unwrap();
    let cds = &d.sheets[0].cell_diffs;
    assert_eq!(cds.len(), 2);
    assert_eq!(cds[0].address.a1, "A2");
    assert_eq!(cds[1].address.a1, "A2");
    let first = cds[0].value.as_ref().unwrap();
    let second = cds[1].value.as_ref().unwrap();
    assert!(matches!(&first.old, CellValue::Text(t) if t == "k2"));
    assert!(matches!(first.new, CellValue::Empty));
    assert!(matches!(first.old, CellValue::Text(_)));
    assert!(matches!(second.old, CellValue::Empty));
    assert!(matches!(&second.new, CellValue::Text(t) if t == "k3"));
}

#[test]
fn workbook_ok_checks_order_and_indices() {
    let (old, _) = scenario();
    assert!(workbook_ok(&old));
    let unsorted = workbook("u", vec![("S", vec![text(2, 1, "b"), text(1, 1, "a")])]);
    assert!(!workbook_ok(&unsorted));
    let zero_row = workbook("z", vec![("S", vec![text(0, 1, "a")])]);
    assert!(!workbook_ok(&zero_row));
    let mut misplaced = workbook("m", vec![("S", vec![text(1, 1, "a")])]);
    misplaced.sheets[0] = SheetRef::new("S".to_string(), 3);
    assert!(!workbook_ok(&misplaced));
}
