use sheets_diff::meta::{diff_defined_names, diff_sheet_visibility};
use sheets_diff::objects::{SheetKind, SheetMeta, SheetVisibility};
use sheets_diff::{DiagnosticKind, Severity};

fn pairs(v: &[(&str, &str)]) -> Vec<(String, String)> {
    v.iter().map(|(a, b)| (a.to_string(), b.to_string())).collect()
}

fn meta(name: &str, visible: SheetVisibility) -> SheetMeta {
    SheetMeta { name: name.to_string(), kind: SheetKind::WorkSheet, visible }
}

#[test]
fn defined_names_are_matched_case_insensitively() {
    let old = pairs(&[("Total", "Sheet1!$A$1"), ("Keep", "x")]);
    let new = pairs(&[("TOTAL", "Sheet1!$B$1"), ("keep", "x"), ("New", "y")]);
    let mut d = vec![];
    diff_defined_names(&old, &new, &mut d);
    assert_eq!(d.len(), 3);
    assert_eq!(d[0].kind, DiagnosticKind::DefinedNameScopeUnknown);
    assert_eq!(d[1].message, "defined name added: 'new' → 'y'");
    assert_eq!(
        d[1].kind,
        DiagnosticKind::UnsupportedWorkbookMetadata { category: "defined_name_added:new".into() }
    );
    assert_eq!(d[2].message, "defined name 'total' target changed: 'Sheet1!$A$1' → 'Sheet1!$B$1'");
    assert!(d.iter().all(|x| x.severity == Severity::Info));
}

#[test]
fn removed_defined_name_is_reported() {
    let old = pairs(&[("Rate", "0.2")]);
    let new = pairs(&[]);
    let mut d = vec![];
    diff_defined_names(&old, &new, &mut d);
    assert_eq!(d.len(), 2);
    assert_eq!(d[1].message, "defined name removed: 'rate' (was '0.2')");
}

#[test]
fn no_defined_names_no_diagnostics() {
    let mut d = vec![];
    diff_defined_names(&vec![], &vec![], &mut d);
    assert!(d.is_empty());
}

#[test]
fn later_duplicate_name_wins() {
    let old = pairs(&[("a", "1"), ("A", "2")]);
    let new = pairs(&[("a", "2")]);
    let mut d = vec![];
    diff_defined_names(&old, &new, &mut d);
    assert_eq!(d.len(), 1);
}

#[test]
fn visibility_change_is_reported() {
    let old = vec![meta("S1", SheetVisibility::Visible), meta("S2", SheetVisibility::Hidden)];
    let new = vec![meta("S1", SheetVisibility::Hidden), meta("S2", SheetVisibility::Hidden)];
    let mut d = vec![];
    diff_sheet_visibility(&old, &new, &mut d);
    assert_eq!(d.len(), 1);
    assert_eq!(d[0].message, "sheet 'S1' visibility: Visible → Hidden");
    assert_eq!(d[0].location.sheet_name.as_deref(), Some("S1"));
}

#[test]
fn added_names_are_reported_in_name_order() {
    let old = pairs(&[]);
    let new = pairs(&[("zeta", "1"), ("Alpha", "2"), ("mid", "3")]);
    let mut d = vec![];
    diff_defined_names(&old, &new, &mut d);
    let msgs: Vec<&str> = d.iter().skip(1).map(|x| x.message.as_str()).collect();
    assert_eq!(
        msgs,
        vec!["defined name added: 'alpha' → '2'", "defined name added: 'mid' → '3'", "defined name added: 'zeta' → '1'"]
    );
}
