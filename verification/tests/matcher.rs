use sheets_diff::matcher::match_sheets;
use sheets_diff::{DiagnosticKind, SheetChange, SheetMatchingMode, SheetRef};

fn sref(name: &str, index: usize) -> SheetRef {
    SheetRef::new(name.into(), index)
}

#[test]
fn exact_name_match() {
    let old = vec![sref("Sheet1", 0)];
    let new = vec![sref("Sheet1", 0)];
    let mut diag = vec![];
    let pairs = match_sheets(&old, &new, SheetMatchingMode::ExactNameThenConservativeRename, &mut diag);
    assert_eq!(pairs.len(), 1);
    assert!(matches!(pairs[0].change, SheetChange::Unchanged | SheetChange::Moved));
    assert!(diag.is_empty());
}

#[test]
fn added_sheet() {
    let old = vec![];
    let new = vec![sref("Sheet1", 0)];
    let mut diag = vec![];
    let pairs = match_sheets(&old, &new, SheetMatchingMode::ExactNameThenConservativeRename, &mut diag);
    assert_eq!(pairs.len(), 1);
    assert!(matches!(pairs[0].change, SheetChange::Added));
}

#[test]
fn removed_sheet() {
    let old = vec![sref("Sheet1", 0)];
    let new = vec![];
    let mut diag = vec![];
    let pairs = match_sheets(&old, &new, SheetMatchingMode::ExactNameThenConservativeRename, &mut diag);
    assert_eq!(pairs.len(), 1);
    assert!(matches!(pairs[0].change, SheetChange::Removed));
}

#[test]
fn single_rename_detected() {
    let old = vec![sref("OldName", 0)];
    let new = vec![sref("NewName", 0)];
    let mut diag = vec![];
    let pairs = match_sheets(&old, &new, SheetMatchingMode::ExactNameThenConservativeRename, &mut diag);
    assert_eq!(pairs.len(), 1);
    assert!(matches!(pairs[0].change, SheetChange::Renamed { .. }));
    assert!(diag.is_empty());
}

#[test]
fn multiple_ambiguous_produce_diagnostic() {
    let old = vec![sref("A", 0), sref("B", 1)];
    let new = vec![sref("C", 0), sref("D", 1)];
    let mut diag = vec![];
    let pairs = match_sheets(&old, &new, SheetMatchingMode::ExactNameThenConservativeRename, &mut diag);
    assert!(pairs.iter().all(|p| matches!(p.change, SheetChange::Added | SheetChange::Removed)));
    assert_eq!(diag.len(), 1);
    assert!(matches!(diag[0].kind, DiagnosticKind::AmbiguousSheetMatch { .. }));
}

#[test]
fn exact_name_only_mode_does_not_rename() {
    let old = vec![sref("OldName", 0)];
    let new = vec![sref("NewName", 0)];
    let mut diag = vec![];
    let pairs = match_sheets(&old, &new, SheetMatchingMode::ExactNameOnly, &mut diag);
    assert_eq!(pairs.len(), 2);
    assert!(diag.is_empty());
}

#[test]
fn moved_sheet_keeps_its_name() {
    let old = vec![sref("A", 0), sref("B", 1)];
    let new = vec![sref("B", 0), sref("A", 1)];
    let mut diag = vec![];
    let pairs = match_sheets(&old, &new, SheetMatchingMode::ExactNameOnly, &mut diag);
    assert_eq!(pairs.len(), 2);
    assert!(pairs.iter().all(|p| matches!(p.change, SheetChange::Moved)));
    assert_eq!(pairs[0].old_sheet.as_ref().unwrap().name, "A");
    assert_eq!(pairs[0].new_sheet.as_ref().unwrap().index, 1);
}

#[test]
fn index_mode_pairs_leftovers_by_position() {
    let old = vec![sref("A", 0), sref("B", 1)];
    let new = vec![sref("C", 0), sref("D", 1)];
    let mut diag = vec![];
    let pairs = match_sheets(&old, &new, SheetMatchingMode::ExactNameThenIndex, &mut diag);
    assert_eq!(pairs.len(), 2);
    assert!(pairs.iter().all(|p| p.old_sheet.is_some() && p.new_sheet.is_some()));
    assert_eq!(pairs[0].new_sheet.as_ref().unwrap().name, "C");
}

#[test]
fn every_sheet_appears_exactly_once() {
    let old = vec![sref("A", 0), sref("B", 1), sref("X", 2)];
    let new = vec![sref("B", 0), sref("Y", 1), sref("A", 2), sref("Z", 3)];
    let mut diag = vec![];
    let pairs = match_sheets(&old, &new, SheetMatchingMode::ExactNameThenConservativeRename, &mut diag);
    let olds = pairs.iter().filter(|p| p.old_sheet.is_some()).count();
    let news = pairs.iter().filter(|p| p.new_sheet.is_some()).count();
    assert_eq!(olds, 3);
    assert_eq!(news, 4);
}

#[test]
fn index_mode_pairs_every_sheet_once() {
    let old = vec![sref("A", 0), sref("B", 1), sref("X", 2)];
    let new = vec![sref("B", 0), sref("Y", 1), sref("Z", 2), sref("W", 3)];
    let mut diag = vec![];
    let pairs = match_sheets(&old, &new, SheetMatchingMode::ExactNameThenIndex, &mut diag);
    for o in &old {
        assert_eq!(pairs.iter().filter(|p| p.old_sheet.as_ref() == Some(o)).count(), 1);
    }
    for n in &new {
        assert_eq!(pairs.iter().filter(|p| p.new_sheet.as_ref() == Some(n)).count(), 1);
    }
}
