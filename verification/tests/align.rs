use sheets_diff::align::{compute_row_mapping, lcs_match, KeyedRow};
use sheets_diff::cells::CellEntry;
use sheets_diff::{AlignmentMode, CellValue, DiagnosticKind, MatchConfidence, SheetRef};

fn make_cells(data: &[(u32, u32, &str)]) -> Vec<CellEntry> {
    data.iter()
        .map(|(r, c, v)| CellEntry {
            row: *r,
            col: *c,
            value: CellValue::Text(v.to_string()),
            formula: None,
        })
        .collect()
}

fn sheet() -> SheetRef {
    SheetRef::new("Sheet1".into(), 0)
}

fn key(row: u32, k: &str) -> KeyedRow {
    KeyedRow { row, key: vec![k.to_string()] }
}

#[test]
fn positional_mode_returns_none() {
    let cells = make_cells(&[(1, 1, "a")]);
    let mut diag = vec![];
    let result = compute_row_mapping(&cells, &cells, &AlignmentMode::Positional, None, None, &sheet(), &mut diag)
        .ok()
        .unwrap();
    assert!(result.is_none());
}

#[test]
fn row_key_identity_match() {
    let old = make_cells(&[(1, 1, "id1"), (2, 1, "id2"), (3, 1, "id3")]);
    let new = make_cells(&[(1, 1, "id1"), (2, 1, "id2"), (3, 1, "id3")]);
    let mut diag = vec![];
    let mapping = compute_row_mapping(
        &old,
        &new,
        &AlignmentMode::RowKey { columns: vec![1] },
        None,
        None,
        &sheet(),
        &mut diag,
    )
    .ok()
    .unwrap()
    .unwrap();
    assert_eq!(mapping.matched.len(), 3);
    assert!(mapping.removed.is_empty());
    assert!(mapping.inserted.is_empty());
}

#[test]
fn row_key_detects_inserted_row() {
    let old = make_cells(&[(1, 1, "id1"), (2, 1, "id2"), (3, 1, "id3")]);
    let new = make_cells(&[(1, 1, "id1"), (2, 1, "id_new"), (3, 1, "id2"), (4, 1, "id3")]);
    let mut diag = vec![];
    let mapping = compute_row_mapping(
        &old,
        &new,
        &AlignmentMode::RowKey { columns: vec![1] },
        None,
        None,
        &sheet(),
        &mut diag,
    )
    .ok()
    .unwrap()
    .unwrap();
    assert_eq!(mapping.matched.len(), 3);
    assert_eq!(mapping.inserted.len(), 1);
    assert!(mapping.removed.is_empty());
}

#[test]
fn row_key_detects_removed_row() {
    let old = make_cells(&[(1, 1, "id1"), (2, 1, "id2"), (3, 1, "id3")]);
    let new = make_cells(&[(1, 1, "id1"), (2, 1, "id3")]);
    let mut diag = vec![];
    let mapping = compute_row_mapping(
        &old,
        &new,
        &AlignmentMode::RowKey { columns: vec![1] },
        None,
        None,
        &sheet(),
        &mut diag,
    )
    .ok()
    .unwrap()
    .unwrap();
    assert_eq!(mapping.matched.len(), 2);
    assert_eq!(mapping.removed.len(), 1);
    assert!(mapping.inserted.is_empty());
}

#[test]
fn duplicate_keys_produce_diagnostic() {
    let old = make_cells(&[(1, 1, "dup"), (2, 1, "dup"), (3, 1, "unique")]);
    let new = make_cells(&[(1, 1, "dup"), (2, 1, "unique")]);
    let mut diag = vec![];
    let r = compute_row_mapping(
        &old,
        &new,
        &AlignmentMode::RowKey { columns: vec![1] },
        None,
        None,
        &sheet(),
        &mut diag,
    );
    assert!(r.is_ok());
    assert!(!diag.is_empty(), "expected diagnostic for duplicate keys");
    assert!(
        diag.iter().any(|d| matches!(d.kind, DiagnosticKind::DuplicateAlignmentKey { .. })),
        "expected DuplicateAlignmentKey, got {diag:?}"
    );
}

#[test]
fn alignment_bound_exceeded_degrades_to_positional_not_error() {
    let old = make_cells(&[(1, 1, "id1"), (2, 1, "id2"), (3, 1, "id3")]);
    let new = make_cells(&[(1, 1, "id1"), (2, 1, "id2"), (3, 1, "id3")]);
    let mut diag = vec![];
    let result = compute_row_mapping(
        &old,
        &new,
        &AlignmentMode::RowKey { columns: vec![1] },
        Some(5),
        None,
        &sheet(),
        &mut diag,
    )
    .ok()
    .unwrap();
    assert!(result.is_none());
    assert!(
        diag.iter().any(|d| matches!(d.kind, DiagnosticKind::AlignmentBoundExceeded { limit: 5, observed: 9 })),
        "expected AlignmentBoundExceeded {{ limit: 5, observed: 9 }}, got {diag:?}"
    );
}

#[test]
fn alignment_bound_within_limit_still_aligns() {
    let old = make_cells(&[(1, 1, "id1"), (2, 1, "id2"), (3, 1, "id3")]);
    let new = make_cells(&[(1, 1, "id1"), (2, 1, "id2"), (3, 1, "id3")]);
    let mut diag = vec![];
    let result = compute_row_mapping(
        &old,
        &new,
        &AlignmentMode::RowKey { columns: vec![1] },
        Some(9),
        None,
        &sheet(),
        &mut diag,
    )
    .ok()
    .unwrap();
    assert!(result.is_some());
    assert!(
        !diag.iter().any(|d| matches!(d.kind, DiagnosticKind::AlignmentBoundExceeded { .. })),
        "bound was not exceeded, should not have fired"
    );
}

#[test]
fn lcs_keeps_the_longest_common_order() {
    let old = vec![key(1, "a"), key(2, "b"), key(3, "c"), key(4, "d")];
    let new = vec![key(1, "b"), key(2, "a"), key(3, "c"), key(4, "e"), key(5, "d")];
    let m = lcs_match(&old, &new, None).ok().unwrap();
    assert_eq!(m.matched.len(), 3);
    assert_eq!(m.removed.len() + m.matched.len(), 4);
    assert_eq!(m.inserted.len() + m.matched.len(), 5);
    assert_eq!(m.matched[m.matched.len() - 1], (4, 5));
    assert_eq!(m.summary.matched_rows, 3);
}

#[test]
fn lcs_of_disjoint_keys_matches_nothing() {
    let old = vec![key(1, "a"), key(2, "b")];
    let new = vec![key(1, "c")];
    let m = lcs_match(&old, &new, None).ok().unwrap();
    assert!(m.matched.is_empty());
    assert_eq!(m.removed, vec![1, 2]);
    assert_eq!(m.inserted, vec![1]);
    assert_eq!(m.summary.confidence, MatchConfidence::Medium);
}

#[test]
fn cancellation_stops_key_alignment() {
    let old = make_cells(&[(1, 1, "id1"), (2, 1, "id2")]);
    let new = make_cells(&[(1, 1, "id1"), (2, 1, "id2")]);
    let mut diag = vec![];
    let always = || true;
    let r = compute_row_mapping(
        &old,
        &new,
        &AlignmentMode::RowKey { columns: vec![1] },
        None,
        Some(&always),
        &sheet(),
        &mut diag,
    );
    assert!(matches!(r, Err(sheets_diff::SheetsDiffError::Cancelled)));
}

#[test]
fn row_signature_pairs_identical_rows() {
    let old = make_cells(&[(1, 1, "x"), (1, 2, "y"), (2, 1, "z")]);
    let new = make_cells(&[(1, 1, "q"), (2, 1, "x"), (2, 2, "y"), (3, 1, "z")]);
    let mut diag = vec![];
    let m = compute_row_mapping(
        &old,
        &new,
        &AlignmentMode::RowSignature { sample_columns: None },
        None,
        None,
        &sheet(),
        &mut diag,
    )
    .ok()
    .unwrap()
    .unwrap();
    assert_eq!(m.matched, vec![(1, 2), (2, 3)]);
    assert_eq!(m.inserted, vec![1]);
    assert!(m.removed.is_empty());
}

#[test]
fn row_signature_places_rows_without_sampled_cells() {
    let old = make_cells(&[(1, 1, "x"), (2, 2, "only-b"), (3, 1, "z")]);
    let new = make_cells(&[(1, 1, "x"), (2, 1, "z"), (3, 2, "other-b")]);
    let mut diag = vec![];
    let m = compute_row_mapping(
        &old,
        &new,
        &AlignmentMode::RowSignature { sample_columns: Some(vec![1]) },
        None,
        None,
        &sheet(),
        &mut diag,
    )
    .ok()
    .unwrap()
    .unwrap();
    assert_eq!(m.matched, vec![(1, 1), (3, 2)]);
    assert_eq!(m.removed, vec![2]);
    assert_eq!(m.inserted, vec![3]);
    assert_eq!(m.summary.removed_rows, 1);
    assert_eq!(m.summary.inserted_rows, 1);
    assert_eq!(m.summary.matched_rows, 2);
}
