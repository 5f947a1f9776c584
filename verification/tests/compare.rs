use sheets_diff::compare::{compare_formulas, compare_values, FloatQuestion};
use sheets_diff::model::Float64;
use sheets_diff::{
    CellDateTime, CellDuration, CellError, CellValue, DateComparePolicy, DateTimeKind,
    FormulaCompareMode, NumberComparePolicy, NumericTypePolicy, TypeMismatchPolicy,
    ValueCompareOptions, ValueDifferenceKind,
};

fn within(a: f64, b: f64, policy: NumberComparePolicy) -> bool {
    let rel_ok = |tol: f64| {
        let denom = a.abs().max(b.abs());
        denom == 0.0 || (a - b).abs() / denom <= tol
    };
    match policy {
        NumberComparePolicy::Exact => a == b || (a.is_nan() && b.is_nan()),
        NumberComparePolicy::AbsoluteTolerance(t) => (a - b).abs() <= f64::from_bits(t),
        NumberComparePolicy::RelativeTolerance(t) => rel_ok(f64::from_bits(t)),
        NumberComparePolicy::AbsoluteOrRelative { abs, rel } => {
            (a - b).abs() <= f64::from_bits(abs) || rel_ok(f64::from_bits(rel))
        }
    }
}

fn oracle(q: FloatQuestion) -> bool {
    match q {
        FloatQuestion::WithinTolerance { a, b, policy } => {
            within(f64::from_bits(a), f64::from_bits(b), policy)
        }
        FloatQuestion::IntegerEqualsNumber { i, f } => i as f64 == f64::from_bits(f),
        FloatQuestion::SerialsEquivalent { a, a_1904, b, b_1904 } => {
            let norm = |s: u64, is_1904: bool| {
                let v = f64::from_bits(s);
                if is_1904 {
                    v + 1462.0
                } else {
                    v
                }
            };
            norm(a, a_1904) == norm(b, b_1904)
        }
    }
}

fn num(x: f64) -> Float64 {
    Float64 { bits: x.to_bits(), text: format!("{}", x) }
}

fn opts() -> ValueCompareOptions {
    ValueCompareOptions::default()
}

fn iso_only_dt(iso: &str) -> CellDateTime {
    CellDateTime::new(num(0.0), false, DateTimeKind::DateTime, Some(iso.to_string()), false)
}

fn serial_dt(serial: f64, is_1904: bool) -> CellDateTime {
    CellDateTime::new(num(serial), is_1904, DateTimeKind::DateTime, None, true)
}

fn cmp(a: &CellValue, b: &CellValue, o: &ValueCompareOptions) -> Option<sheets_diff::ValueChange> {
    compare_values(a, b, o, &oracle)
}

#[test]
fn iso_only_datetimes_with_same_iso_are_equal() {
    let a = iso_only_dt("2024-01-01T00:00:00");
    let b = iso_only_dt("2024-01-01T00:00:00");
    assert!(cmp(&CellValue::DateTime(a), &CellValue::DateTime(b), &opts()).is_none());
}

#[test]
fn iso_only_datetimes_with_different_iso_are_reported_changed() {
    let a = iso_only_dt("2024-01-01T00:00:00");
    let b = iso_only_dt("2099-12-31T23:59:59");
    let r = cmp(&CellValue::DateTime(a), &CellValue::DateTime(b), &opts()).unwrap();
    assert_eq!(r.reason, ValueDifferenceKind::DateTimeChanged);
}

#[test]
fn iso_only_durations_with_different_iso_are_reported_changed() {
    let a = CellValue::Duration(CellDuration::new(num(0.0), Some("PT1H".to_string())));
    let b = CellValue::Duration(CellDuration::new(num(0.0), Some("PT99H".to_string())));
    let r = cmp(&a, &b, &opts()).unwrap();
    assert_eq!(r.reason, ValueDifferenceKind::ContentChanged);
}

#[test]
fn iso_only_durations_with_same_iso_are_equal() {
    let a = CellValue::Duration(CellDuration::new(num(0.0), Some("PT1H30M".to_string())));
    let b = CellValue::Duration(CellDuration::new(num(0.0), Some("PT1H30M".to_string())));
    assert!(cmp(&a, &b, &opts()).is_none());
}

#[test]
fn mixed_serial_and_iso_datetime_never_silently_equal() {
    let serial_based = serial_dt(0.0, false);
    let iso_only = iso_only_dt("2024-01-01T00:00:00");
    let mut o = opts();

    o.date = DateComparePolicy::ExactRepresentation;
    let r = cmp(
        &CellValue::DateTime(serial_based.clone()),
        &CellValue::DateTime(iso_only.clone()),
        &o,
    );
    assert!(r.is_some(), "mixed representation must not be silently equal");

    o.date = DateComparePolicy::NormalizeEquivalentDateTimes;
    let r = cmp(&CellValue::DateTime(serial_based), &CellValue::DateTime(iso_only), &o);
    assert!(
        r.is_some(),
        "mixed representation must not be silently equal under NormalizeEquivalentDateTimes either"
    );
}

#[test]
fn normalize_equivalent_datetimes_reconciles_1900_and_1904_systems() {
    let system_1900 = serial_dt(45000.0, false);
    let system_1904 = serial_dt(45000.0 - 1462.0, true);

    let mut o = opts();
    o.date = DateComparePolicy::ExactRepresentation;
    let r = cmp(
        &CellValue::DateTime(system_1900.clone()),
        &CellValue::DateTime(system_1904.clone()),
        &o,
    );
    assert!(r.is_some(), "ExactRepresentation must not conflate the two epochs");

    o.date = DateComparePolicy::NormalizeEquivalentDateTimes;
    let r = cmp(&CellValue::DateTime(system_1900), &CellValue::DateTime(system_1904), &o);
    assert!(
        r.is_none(),
        "NormalizeEquivalentDateTimes must recognise the same instant across epochs"
    );
}

#[test]
fn equal_texts_produce_no_change() {
    let r = cmp(&CellValue::Text("x".into()), &CellValue::Text("x".into()), &opts());
    assert!(r.is_none());
}

#[test]
fn different_texts_produce_content_changed() {
    let r = cmp(&CellValue::Text("a".into()), &CellValue::Text("b".into()), &opts()).unwrap();
    assert_eq!(r.reason, ValueDifferenceKind::ContentChanged);
}

#[test]
fn integer_vs_number_is_type_changed_by_default() {
    let r = cmp(&CellValue::Integer(1), &CellValue::Number(num(1.0)), &opts()).unwrap();
    assert_eq!(r.reason, ValueDifferenceKind::TypeChanged);
}

#[test]
fn integer_vs_number_equal_when_math_policy() {
    let mut o = opts();
    o.numeric_type = NumericTypePolicy::CompareMathematicalValue;
    let r = cmp(&CellValue::Integer(1), &CellValue::Number(num(1.0)), &o);
    assert!(r.is_none());
}

#[test]
fn text_vs_integer_is_type_changed() {
    let r = cmp(&CellValue::Text("100".into()), &CellValue::Integer(100), &opts()).unwrap();
    assert_eq!(r.reason, ValueDifferenceKind::TypeChanged);
}

#[test]
fn equal_booleans_produce_no_change() {
    let r = cmp(&CellValue::Bool(true), &CellValue::Bool(true), &opts());
    assert!(r.is_none());
}

#[test]
fn empty_vs_empty_produces_no_change() {
    let r = cmp(&CellValue::Empty, &CellValue::Empty, &opts());
    assert!(r.is_none());
}

#[test]
fn formula_ignore_returns_none() {
    let a = "=A1".to_string();
    let b = "=B1".to_string();
    let r = compare_formulas(Some(&a), Some(&b), FormulaCompareMode::Ignore);
    assert!(r.is_none());
}

#[test]
fn equal_formulas_return_none() {
    let a = "=A1+B1".to_string();
    let r = compare_formulas(Some(&a), Some(&a), FormulaCompareMode::RawText);
    assert!(r.is_none());
}

#[test]
fn different_formulas_return_change() {
    let a = "=A1+B1".to_string();
    let b = "=A1+B1+C1".to_string();
    let r = compare_formulas(Some(&a), Some(&b), FormulaCompareMode::RawText).unwrap();
    assert_eq!(r.old.as_ref().unwrap().raw, "=A1+B1");
    assert_eq!(r.new.as_ref().unwrap().raw, "=A1+B1+C1");
}

#[test]
fn formula_added() {
    let b = "=SUM(A1:A10)".to_string();
    let r = compare_formulas(None, Some(&b), FormulaCompareMode::RawText).unwrap();
    assert!(r.old.is_none());
    assert!(r.new.is_some());
}

#[test]
fn formula_removed_to_empty_text_counts_as_unchanged() {
    let e = String::new();
    assert!(compare_formulas(Some(&e), None, FormulaCompareMode::RawText).is_none());
}

#[test]
fn change_carries_both_values() {
    let r = cmp(&CellValue::Integer(3), &CellValue::Integer(4), &opts()).unwrap();
    assert_eq!(r.old, CellValue::Integer(3));
    assert_eq!(r.new, CellValue::Integer(4));
    assert_eq!(r.reason, ValueDifferenceKind::ContentChanged);
}

#[test]
fn exact_numbers_compare_by_ieee_equality() {
    assert!(cmp(&CellValue::Number(num(0.0)), &CellValue::Number(num(-0.0)), &opts()).is_none());
    assert!(cmp(&CellValue::Number(num(f64::NAN)), &CellValue::Number(num(f64::NAN)), &opts()).is_none());
    let r = cmp(&CellValue::Number(num(1.0)), &CellValue::Number(num(1.5)), &opts()).unwrap();
    assert_eq!(r.reason, ValueDifferenceKind::NumericOutsideTolerance);
}

#[test]
fn absolute_tolerance_accepts_close_numbers() {
    let mut o = opts();
    o.number = NumberComparePolicy::AbsoluteTolerance(0.5f64.to_bits());
    assert!(cmp(&CellValue::Number(num(1.0)), &CellValue::Number(num(1.4)), &o).is_none());
    let r = cmp(&CellValue::Number(num(1.0)), &CellValue::Number(num(1.6)), &o).unwrap();
    assert_eq!(r.reason, ValueDifferenceKind::NumericOutsideTolerance);
}

#[test]
fn error_kinds_compare() {
    assert!(cmp(&CellValue::Error(CellError::Div0), &CellValue::Error(CellError::Div0), &opts()).is_none());
    let r = cmp(&CellValue::Error(CellError::Div0), &CellValue::Error(CellError::NA), &opts()).unwrap();
    assert_eq!(r.reason, ValueDifferenceKind::ErrorKindChanged);
}

#[test]
fn display_string_policy_compares_texts() {
    let mut o = opts();
    o.type_mismatch = TypeMismatchPolicy::CompareDisplayString;
    assert!(cmp(&CellValue::Text("100".into()), &CellValue::Integer(100), &o).is_none());
    let r = cmp(&CellValue::Text("101".into()), &CellValue::Integer(100), &o).unwrap();
    assert_eq!(r.reason, ValueDifferenceKind::DisplayStringChanged);
}

#[test]
fn comparison_is_symmetric_on_examples() {
    let pairs = vec![
        (CellValue::Text("a".into()), CellValue::Integer(1)),
        (CellValue::Integer(1), CellValue::Number(num(2.0))),
        (CellValue::Bool(true), CellValue::Bool(false)),
    ];
    for (a, b) in pairs {
        let x = cmp(&a, &b, &opts()).map(|c| c.reason);
        let y = cmp(&b, &a, &opts()).map(|c| c.reason);
        assert_eq!(x, y);
    }
}

#[test]
fn tolerance_comparison_is_symmetric() {
    let mut o = opts();
    o.number = NumberComparePolicy::RelativeTolerance(0.01f64.to_bits());
    let pairs = [(100.0, 100.5), (100.0, 103.0), (-1.0, 1.0), (0.0, 0.0)];
    for (x, y) in pairs {
        let a = CellValue::Number(num(x));
        let b = CellValue::Number(num(y));
        let ab = cmp(&a, &b, &o).map(|v| v.reason);
        let ba = cmp(&b, &a, &o).map(|v| v.reason);
        assert_eq!(ab, ba);
    }
    let far = cmp(&CellValue::Number(num(100.0)), &CellValue::Number(num(103.0)), &o);
    assert_eq!(far.map(|v| v.reason), Some(ValueDifferenceKind::NumericOutsideTolerance));
}
