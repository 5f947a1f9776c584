use std::collections::{BTreeMap, BTreeSet};

use sheets_diff::{
    AlignmentMode, DateComparePolicy, DiffOptions, DiffOptionsBuilder, ExecutionMode,
    FormulaCompareMode, NumberComparePolicy, NumericTypePolicy, ObjectCompareMode, Severity,
    SheetMatchingMode, TypeMismatchPolicy,
};

/// Every leaf option of `DiffOptions`, by path, rendered so it can be compared.
fn leaves(o: &DiffOptions) -> BTreeMap<&'static str, String> {
    let mut m = BTreeMap::new();
    let mut put = |k: &'static str, v: String| {
        assert!(m.insert(k, v).is_none(), "leaf `{k}` listed twice");
    };
    let value = &o.comparison.value;
    put("comparison.value.number", format!("{:?}", value.number));
    put("comparison.value.numeric_type", format!("{:?}", value.numeric_type));
    put("comparison.value.date", format!("{:?}", value.date));
    put("comparison.value.type_mismatch", format!("{:?}", value.type_mismatch));
    put("comparison.formula", format!("{:?}", o.comparison.formula));
    put(
        "comparison.include_formula_cached_values",
        format!("{:?}", o.comparison.include_formula_cached_values),
    );
    put("matching.sheet_matching", format!("{:?}", o.matching.sheet_matching));
    put("matching.alignment", format!("{:?}", o.matching.alignment));
    put("limits.max_sheets", format!("{:?}", o.limits.max_sheets));
    put("limits.max_cells_read", format!("{:?}", o.limits.max_cells_read));
    put("limits.max_cells_compared", format!("{:?}", o.limits.max_cells_compared));
    put("limits.max_diffs_returned", format!("{:?}", o.limits.max_diffs_returned));
    put("limits.max_alignment_product", format!("{:?}", o.limits.max_alignment_product));
    put("limits.max_input_bytes", format!("{:?}", o.limits.max_input_bytes));
    put("execution.progress", format!("set={}", o.execution.progress.is_some()));
    put("execution.cancellation", format!("set={}", o.execution.cancellation.is_some()));
    put("execution.mode", format!("{:?}", o.execution.mode));
    put("diagnostics.min_severity", format!("{:?}", o.diagnostics.min_severity));
    put("output.objects", format!("{:?}", o.output.objects));
    m
}

type Setter = fn(DiffOptionsBuilder) -> DiffOptionsBuilder;

const SETTERS: &[(&str, Setter, bool)] = &[
    (
        "comparison.value.number",
        |b| b.number_compare_policy(NumberComparePolicy::AbsoluteTolerance(0x3FE0_0000_0000_0000)),
        true,
    ),
    (
        "comparison.value.numeric_type",
        |b| b.numeric_type_policy(NumericTypePolicy::CompareMathematicalValue),
        true,
    ),
    (
        "comparison.value.date",
        |b| b.date_compare_policy(DateComparePolicy::NormalizeEquivalentDateTimes),
        true,
    ),
    (
        "comparison.value.type_mismatch",
        |b| b.type_mismatch_policy(TypeMismatchPolicy::CompareDisplayString),
        true,
    ),
    ("comparison.formula", |b| b.formula_compare(FormulaCompareMode::Ignore), true),
    (
        "comparison.include_formula_cached_values",
        |b| b.include_formula_cached_values(false),
        true,
    ),
    ("matching.sheet_matching", |b| b.sheet_matching(SheetMatchingMode::ExactNameOnly), true),
    ("matching.alignment", |b| b.alignment(AlignmentMode::RowKey { columns: vec![2] }), true),
    ("limits.max_sheets", |b| b.max_sheets(7), true),
    ("limits.max_cells_read", |b| b.max_cells_read(Some(11)), true),
    ("limits.max_cells_compared", |b| b.max_cells_compared(13), true),
    ("limits.max_diffs_returned", |b| b.max_diffs_returned(17), true),
    ("limits.max_alignment_product", |b| b.max_alignment_product(Some(19)), true),
    ("limits.max_input_bytes", |b| b.max_input_bytes(Some(23)), true),
    ("execution.progress", |b| b.progress(|_event| {}), true),
    ("execution.cancellation", |b| b.cancellation(|| false), true),
    ("execution.mode", |b| b.execution_mode(ExecutionMode::Sequential), false),
    ("diagnostics.min_severity", |b| b.min_severity(Some(Severity::Warning)), true),
    ("output.objects", |b| b.object_mode(ObjectCompareMode::Ignore), true),
];

fn default_leaves() -> BTreeMap<&'static str, String> {
    leaves(&DiffOptions::default())
}

fn build(b: DiffOptionsBuilder, leaf: &str) -> DiffOptions {
    match b.build() {
        Ok(o) => o,
        Err(e) => panic!("`{leaf}`: the setter's value does not build: {}", e.message()),
    }
}

#[test]
fn the_leaves_are_exactly_the_ones_with_a_setter() {
    let leaf_names: BTreeSet<&str> = default_leaves().keys().copied().collect();
    let setter_names: BTreeSet<&str> = SETTERS.iter().map(|(n, _, _)| *n).collect();
    assert_eq!(leaf_names.len(), 19, "the options tree has 19 leaves");
    assert_eq!(
        leaf_names, setter_names,
        "a leaf option and the builder's setter table have drifted apart"
    );
    assert_eq!(SETTERS.len(), setter_names.len(), "a setter is listed twice");
}

#[test]
fn each_setter_changes_its_own_leaf_and_no_other() {
    let base = default_leaves();
    for (leaf, set, differs) in SETTERS {
        let built = build(set(DiffOptions::builder()), leaf);
        let now = leaves(&built);
        let changed: Vec<&str> = base.keys().filter(|k| base[*k] != now[*k]).copied().collect();
        if *differs {
            assert_eq!(changed, [*leaf], "`{leaf}`'s setter must change that leaf and only that leaf");
        } else {
            assert!(
                changed.is_empty(),
                "`{leaf}`'s setter (which can only set the default) changed {changed:?}"
            );
        }
    }
}

#[test]
fn all_setters_together_configure_every_movable_leaf() {
    let mut b = DiffOptions::builder();
    for (_, set, _) in SETTERS {
        b = set(b);
    }
    let now = leaves(&build(b, "all"));
    let base = default_leaves();
    let changed: BTreeSet<&str> = base.keys().filter(|k| base[*k] != now[*k]).copied().collect();
    let expected: BTreeSet<&str> =
        SETTERS.iter().filter(|(_, _, differs)| *differs).map(|(n, _, _)| *n).collect();
    assert_eq!(changed, expected);
    assert_eq!(changed.len(), 18, "18 of the 19 leaves can be moved off their default");
}

#[test]
fn hardened_limits_bound_every_dimension() {
    let l = sheets_diff::Limits::hardened();
    assert_eq!(l.max_sheets, Some(256));
    assert_eq!(l.max_cells_read, Some(5_000_000));
    assert_eq!(l.max_cells_compared, Some(5_000_000));
    assert_eq!(l.max_diffs_returned, Some(1_000_000));
    assert_eq!(l.max_alignment_product, Some(25_000_000));
    assert_eq!(l.max_input_bytes, Some(52_428_800));
    let o = DiffOptions::builder().limits(l).build().ok().unwrap();
    assert_eq!(o.limits, l);
}
