//! Cell-level value and formula comparison.
//!
//! Every decision is made here, on the integer and text form of the values.
//! The three questions whose answer needs IEEE-754 arithmetic (a tolerance
//! test, an integer-to-double conversion, a date-system shift) are put to a
//! caller-supplied `float_oracle`; the contract says which question is put and
//! what is returned for either answer.

use vstd::prelude::*;

use crate::model::{
    spec_display, spec_float_eq, spec_is_nan, CellDateTime, CellError, CellValue, FormulaChange,
    FormulaText, ValueChange, ValueDifferenceKind, float_eq, float_is_nan,
};
use crate::options::{
    DateComparePolicy, FormulaCompareMode, NumberComparePolicy, NumericTypePolicy,
    TypeMismatchPolicy, ValueCompareOptions,
};
use crate::strings::str_equal;

verus! {

/// A question about doubles (given by their IEEE-754 bits) that the value
/// comparison cannot answer without floating-point arithmetic.
#[derive(Clone, Copy, PartialEq, Eq, Debug, Structural)]
pub enum FloatQuestion {
    /// Are `a` and `b` equal under the tolerance `policy` (never `Exact`)?
    WithinTolerance { a: u64, b: u64, policy: NumberComparePolicy },
    /// Is the integer, converted to a double, equal to the number (`i as f64 == f`)?
    IntegerEqualsNumber { i: i64, f: u64 },
    /// Are the two date serials equal once each 1904-system serial is moved to
    /// the 1900 system by adding 1462 days?
    SerialsEquivalent { a: u64, a_1904: bool, b: u64, b_1904: bool },
}

/// Exact number equality: IEEE equality, with two NaNs also counted equal.
pub open spec fn spec_exact_number_eq(a: u64, b: u64) -> bool {
    spec_float_eq(a, b) || (spec_is_nan(a) && spec_is_nan(b))
}

/// Two optional strings hold the same text (or are both absent).
pub open spec fn spec_opt_text_eq(a: Option<String>, b: Option<String>) -> bool {
    match (a, b) {
        (None, None) => true,
        (Some(x), Some(y)) => x@ == y@,
        _ => false,
    }
}

/// Two cell errors are the same error.
pub open spec fn spec_error_eq(a: CellError, b: CellError) -> bool {
    match (a, b) {
        (CellError::Other(x), CellError::Other(y)) => x@ == y@,
        (CellError::Other(_), _) => false,
        (_, CellError::Other(_)) => false,
        _ => a == b,
    }
}

/// Equality for the default date/time comparison: two genuine serials compare
/// by serial, date system and kind; two ISO-only values by their ISO text; a
/// serial value and an ISO-only value are never equal.
pub open spec fn spec_datetime_equal(a: CellDateTime, b: CellDateTime) -> bool {
    if a.has_serial && b.has_serial {
        spec_float_eq(a.serial.bits, b.serial.bits) && a.is_1904 == b.is_1904 && a.kind == b.kind
    } else if !a.has_serial && !b.has_serial {
        spec_opt_text_eq(a.iso, b.iso)
    } else {
        false
    }
}

/// The question the comparison of `old` with `new` puts to the oracle, if any.
pub open spec fn spec_float_question(old: CellValue, new: CellValue, opts: ValueCompareOptions) -> Option<
    FloatQuestion,
> {
    match (old, new) {
        (CellValue::Number(a), CellValue::Number(b)) => if opts.number is Exact {
            None
        } else {
            Some(FloatQuestion::WithinTolerance { a: a.bits, b: b.bits, policy: opts.number })
        },
        (CellValue::Integer(i), CellValue::Number(f)) => if opts.numeric_type
            is CompareMathematicalValue {
            Some(FloatQuestion::IntegerEqualsNumber { i, f: f.bits })
        } else {
            None
        },
        (CellValue::Number(f), CellValue::Integer(i)) => if opts.numeric_type
            is CompareMathematicalValue {
            Some(FloatQuestion::IntegerEqualsNumber { i, f: f.bits })
        } else {
            None
        },
        (CellValue::DateTime(a), CellValue::DateTime(b)) => if !spec_datetime_equal(a, b) && opts.date
            is NormalizeEquivalentDateTimes && a.has_serial && b.has_serial {
            Some(
                FloatQuestion::SerialsEquivalent {
                    a: a.serial.bits,
                    a_1904: a.is_1904,
                    b: b.serial.bits,
                    b_1904: b.is_1904,
                },
            )
        } else {
            None
        },
        _ => None,
    }
}

/// Why `old` and `new` differ (`None` when they are equal), given the oracle's
/// `answer` to the question of `spec_float_question` (ignored when there is none).
pub open spec fn spec_value_outcome(
    old: CellValue,
    new: CellValue,
    opts: ValueCompareOptions,
    answer: bool,
) -> Option<ValueDifferenceKind> {
    match (old, new) {
        (CellValue::Empty, CellValue::Empty) => None,
        (CellValue::Text(a), CellValue::Text(b)) => if a@ == b@ {
            None
        } else {
            Some(ValueDifferenceKind::ContentChanged)
        },
        (CellValue::Bool(a), CellValue::Bool(b)) => if a == b {
            None
        } else {
            Some(ValueDifferenceKind::ContentChanged)
        },
        (CellValue::Integer(a), CellValue::Integer(b)) => if a == b {
            None
        } else {
            Some(ValueDifferenceKind::ContentChanged)
        },
        (CellValue::Number(a), CellValue::Number(b)) => {
            let equal = if opts.number is Exact {
                spec_exact_number_eq(a.bits, b.bits)
            } else {
                answer
            };
            if equal {
                None
            } else {
                Some(ValueDifferenceKind::NumericOutsideTolerance)
            }
        },
        (CellValue::Error(a), CellValue::Error(b)) => if spec_error_eq(a, b) {
            None
        } else {
            Some(ValueDifferenceKind::ErrorKindChanged)
        },
        (CellValue::DateTime(a), CellValue::DateTime(b)) => if spec_datetime_equal(a, b) {
            None
        } else if opts.date is NormalizeEquivalentDateTimes && a.has_serial && b.has_serial
            && answer {
            None
        } else {
            Some(ValueDifferenceKind::DateTimeChanged)
        },
        (CellValue::Duration(a), CellValue::Duration(b)) => {
            let equal = match (a.iso, b.iso) {
                (Some(x), Some(y)) => x@ == y@,
                (None, None) => spec_float_eq(a.serial.bits, b.serial.bits),
                _ => false,
            };
            if equal {
                None
            } else {
                Some(ValueDifferenceKind::ContentChanged)
            }
        },
        (
            CellValue::Unsupported { display: a, .. },
            CellValue::Unsupported { display: b, .. },
        ) => if a@ == b@ {
            None
        } else {
            Some(ValueDifferenceKind::ContentChanged)
        },
        (CellValue::Integer(_), CellValue::Number(_)) | (
            CellValue::Number(_),
            CellValue::Integer(_),
        ) => if opts.numeric_type is PreserveType {
            Some(ValueDifferenceKind::TypeChanged)
        } else if answer {
            None
        } else {
            Some(ValueDifferenceKind::ContentChanged)
        },
        _ => if opts.type_mismatch is Different {
            Some(ValueDifferenceKind::TypeChanged)
        } else if spec_display(old) == spec_display(new) {
            None
        } else {
            Some(ValueDifferenceKind::DisplayStringChanged)
        },
    }
}

/// The reason carried by an optional value change.
pub open spec fn spec_reason(r: Option<ValueChange>) -> Option<ValueDifferenceKind> {
    match r {
        Some(vc) => Some(vc.reason),
        None => None,
    }
}

/// The oracle may be asked any question.
pub open spec fn oracle_total<F: Fn(FloatQuestion) -> bool>(f: F) -> bool {
    forall|q: FloatQuestion| #[trigger] f.requires((q,))
}

/// `r` is what comparing `old` with `new` returns when the oracle, asked `q`,
/// may answer as `f` does.
pub open spec fn spec_compare_result<F: Fn(FloatQuestion) -> bool>(
    f: F,
    old: CellValue,
    new: CellValue,
    opts: ValueCompareOptions,
    r: Option<ValueChange>,
) -> bool {
    &&& r matches Some(vc) ==> vc.old == old && vc.new == new
    &&& match spec_float_question(old, new, opts) {
        None => spec_reason(r) == spec_value_outcome(old, new, opts, false),
        Some(q) => (f.ensures((q,), true) && spec_reason(r) == spec_value_outcome(
            old,
            new,
            opts,
            true,
        )) || (f.ensures((q,), false) && spec_reason(r) == spec_value_outcome(
            old,
            new,
            opts,
            false,
        )),
    }
}

/// The oracle answers each question one way only, as the floating-point
/// arithmetic it stands for does.
pub open spec fn oracle_deterministic<F: Fn(FloatQuestion) -> bool>(f: F) -> bool {
    forall|q: FloatQuestion, a: bool, b: bool| #[trigger] f.ensures((q,), a) && #[trigger] f.ensures((q,), b) ==> a == b
}

/// What comparing `old` with `new` returns when the oracle answers as `f`.
pub open spec fn spec_value_change<F: Fn(FloatQuestion) -> bool>(
    f: F,
    old: CellValue,
    new: CellValue,
    opts: ValueCompareOptions,
) -> Option<ValueChange> {
    let answer = match spec_float_question(old, new, opts) {
        Some(q) => f.ensures((q,), true),
        None => false,
    };
    match spec_value_outcome(old, new, opts, answer) {
        Some(reason) => Some(ValueChange { old, new, reason }),
        None => None,
    }
}

/// With a deterministic oracle the comparison has one result.
pub proof fn lemma_compare_result_unique<F: Fn(FloatQuestion) -> bool>(
    f: F,
    old: CellValue,
    new: CellValue,
    opts: ValueCompareOptions,
    r: Option<ValueChange>,
)
    requires
        oracle_deterministic(f),
        spec_compare_result(f, old, new, opts, r),
    ensures
        r == spec_value_change(f, old, new, opts),
{
    match spec_float_question(old, new, opts) {
        Some(q) => {
            if f.ensures((q,), false) && f.ensures((q,), true) {
                assert(false == true);
            }
        },
        None => {},
    }
}

/// The question the comparison of `new` with `old` puts, given the one the
/// comparison of `old` with `new` puts.
pub open spec fn spec_mirror(q: Option<FloatQuestion>) -> Option<FloatQuestion> {
    match q {
        Some(FloatQuestion::WithinTolerance { a, b, policy }) => Some(
            FloatQuestion::WithinTolerance { a: b, b: a, policy },
        ),
        Some(FloatQuestion::SerialsEquivalent { a, a_1904, b, b_1904 }) => Some(
            FloatQuestion::SerialsEquivalent { a: b, a_1904: b_1904, b: a, b_1904: a_1904 },
        ),
        other => other,
    }
}

/// Comparing `new` with `old` gives the same result as comparing `old` with
/// `new`, for the same oracle answer, and puts the mirrored question.
pub proof fn lemma_compare_symmetric(
    old: CellValue,
    new: CellValue,
    opts: ValueCompareOptions,
    answer: bool,
)
    ensures
        spec_value_outcome(old, new, opts, answer) == spec_value_outcome(new, old, opts, answer),
        spec_float_question(new, old, opts) == spec_mirror(spec_float_question(old, new, opts)),
{
}

/// Comparing two texts, two booleans or two integers, under any policy and
/// whatever the oracle answers, reports a change exactly when the two differ;
/// the change is a content change carrying both values.
pub proof fn lemma_same_kind_compare<F: Fn(FloatQuestion) -> bool>(
    f: F,
    old: CellValue,
    new: CellValue,
    opts: ValueCompareOptions,
    r: Option<ValueChange>,
)
    requires
        spec_compare_result(f, old, new, opts, r),
        (old is Text && new is Text) || (old is Bool && new is Bool) || (old is Integer && new is Integer),
    ensures
        r is None <==> match (old, new) {
            (CellValue::Text(a), CellValue::Text(b)) => a@ == b@,
            (CellValue::Bool(a), CellValue::Bool(b)) => a == b,
            (CellValue::Integer(a), CellValue::Integer(b)) => a == b,
            _ => false,
        },
        r matches Some(vc) ==> vc.reason == ValueDifferenceKind::ContentChanged && vc.old == old && vc.new == new,
{
}

/// The kind of a cell value: which variant it is.
pub open spec fn spec_value_kind(v: CellValue) -> int {
    match v {
        CellValue::Empty => 0,
        CellValue::Text(_) => 1,
        CellValue::Integer(_) => 2,
        CellValue::Number(_) => 3,
        CellValue::Bool(_) => 4,
        CellValue::Error(_) => 5,
        CellValue::DateTime(_) => 6,
        CellValue::Duration(_) => 7,
        CellValue::Unsupported { .. } => 8,
    }
}

/// Comparing values of different kinds (other than an integer against a
/// number) always reports a change as `TypeChanged` under the `Different`
/// type-mismatch policy; under the display-string policy it reports a
/// `DisplayStringChanged` exactly when the two display texts differ.
pub proof fn lemma_mismatched_kinds_compare<F: Fn(FloatQuestion) -> bool>(
    f: F,
    old: CellValue,
    new: CellValue,
    opts: ValueCompareOptions,
    r: Option<ValueChange>,
)
    requires
        spec_compare_result(f, old, new, opts, r),
        spec_value_kind(old) != spec_value_kind(new),
        !(old is Integer && new is Number),
        !(old is Number && new is Integer),
    ensures
        opts.type_mismatch is Different ==> (r matches Some(vc) && vc.reason == ValueDifferenceKind::TypeChanged),
        opts.type_mismatch is CompareDisplayString ==> (r is None <==> spec_display(old) == spec_display(new)),
        opts.type_mismatch is CompareDisplayString && r is Some ==> r->0.reason == ValueDifferenceKind::DisplayStringChanged,
{
}

/// An integer against a number is a `TypeChanged` under the preserve-type
/// policy, whatever the values and whatever the oracle answers.
pub proof fn lemma_integer_number_preserved<F: Fn(FloatQuestion) -> bool>(
    f: F,
    old: CellValue,
    new: CellValue,
    opts: ValueCompareOptions,
    r: Option<ValueChange>,
)
    requires
        spec_compare_result(f, old, new, opts, r),
        (old is Integer && new is Number) || (old is Number && new is Integer),
        opts.numeric_type is PreserveType,
    ensures
        r matches Some(vc) && vc.reason == ValueDifferenceKind::TypeChanged,
{
}

/// Unless formulas are ignored, comparing two formulas reports a change
/// exactly when their texts differ, an absent formula reading as the empty
/// text; the change carries each side's formula as it was (absent stays
/// absent). Ignored formulas never differ.
pub proof fn lemma_formula_compare(o: Option<String>, n: Option<String>, mode: FormulaCompareMode)
    ensures
        mode is Ignore ==> spec_formula_change(o, n, mode) is None,
        !(mode is Ignore) ==> (spec_formula_change(o, n, mode) is None <==> (match o {
            Some(s) => s@,
            None => Seq::<char>::empty(),
        }) == (match n {
            Some(s) => s@,
            None => Seq::<char>::empty(),
        })),
        spec_formula_change(o, n, mode) matches Some(fc) ==> {
            &&& fc.old == match o {
                Some(s) => Some(FormulaText { raw: s, normalized: None }),
                None => None::<FormulaText>,
            }
            &&& fc.new == match n {
                Some(s) => Some(FormulaText { raw: s, normalized: None }),
                None => None::<FormulaText>,
            }
        },
{
}

/// The oracle answers a question and its mirror (the same question with the
/// two sides swapped) alike, as the floating-point tests it stands for do.
pub open spec fn oracle_mirror_symmetric<F: Fn(FloatQuestion) -> bool>(f: F) -> bool {
    forall|q: FloatQuestion| #[trigger] f.ensures((q,), true) <==> f.ensures((spec_mirror(Some(q)).unwrap(),), true)
}

/// With an oracle that answers mirrored questions alike, comparing `new` with
/// `old` reports the same outcome as comparing `old` with `new`, under every
/// policy, tolerance policies included.
pub proof fn lemma_compare_symmetric_with_oracle<F: Fn(FloatQuestion) -> bool>(
    f: F,
    old: CellValue,
    new: CellValue,
    opts: ValueCompareOptions,
)
    requires
        oracle_mirror_symmetric(f),
    ensures
        spec_reason(spec_value_change(f, new, old, opts)) == spec_reason(spec_value_change(f, old, new, opts)),
{
    match spec_float_question(old, new, opts) {
        Some(q) => {
            lemma_compare_symmetric(old, new, opts, f.ensures((q,), true));
            assert(f.ensures((q,), true) <==> f.ensures((spec_mirror(Some(q)).unwrap(),), true));
        },
        None => {
            lemma_compare_symmetric(old, new, opts, false);
        },
    }
}

/// A value without NaN date/duration serials compares equal to itself under
/// every policy that puts no question to the oracle.
pub proof fn lemma_compare_reflexive(v: CellValue, opts: ValueCompareOptions, answer: bool)
    requires
        spec_float_question(v, v, opts) is None,
        v matches CellValue::DateTime(d) ==> !spec_is_nan(d.serial.bits),
        v matches CellValue::Duration(d) ==> !spec_is_nan(d.serial.bits),
    ensures
        spec_value_outcome(v, v, opts, answer) is None,
{
}

fn opt_text_eq(a: &Option<String>, b: &Option<String>) -> (r: bool)
    ensures
        r == spec_opt_text_eq(*a, *b),
{
    match (a, b) {
        (None, None) => true,
        (Some(x), Some(y)) => str_equal(x, y),
        _ => false,
    }
}

pub fn error_eq(a: &CellError, b: &CellError) -> (r: bool)
    ensures
        r == spec_error_eq(*a, *b),
{
    match (a, b) {
        (CellError::Other(x), CellError::Other(y)) => str_equal(x, y),
        (CellError::Div0, CellError::Div0) => true,
        (CellError::NA, CellError::NA) => true,
        (CellError::Name, CellError::Name) => true,
        (CellError::Null, CellError::Null) => true,
        (CellError::Num, CellError::Num) => true,
        (CellError::Ref, CellError::Ref) => true,
        (CellError::Value, CellError::Value) => true,
        (CellError::GettingData, CellError::GettingData) => true,
        _ => false,
    }
}

/// Exact number equality on bits.
pub fn exact_number_eq(a: u64, b: u64) -> (r: bool)
    ensures
        r == spec_exact_number_eq(a, b),
{
    float_eq(a, b) || (float_is_nan(a) && float_is_nan(b))
}

fn datetime_equal(a: &CellDateTime, b: &CellDateTime) -> (r: bool)
    ensures
        r == spec_datetime_equal(*a, *b),
{
    if a.has_serial && b.has_serial {
        float_eq(a.serial.bits, b.serial.bits) && a.is_1904 == b.is_1904 && a.kind == b.kind
    } else if !a.has_serial && !b.has_serial {
        opt_text_eq(&a.iso, &b.iso)
    } else {
        false
    }
}

fn ask<F: Fn(FloatQuestion) -> bool>(float_oracle: &F, q: FloatQuestion) -> (r: bool)
    requires
        oracle_total(*float_oracle),
    ensures
        float_oracle.ensures((q,), r),
{
    float_oracle(q)
}

/// Compare two `CellValue`s under the supplied options.
///
/// Returns `Some(ValueChange)` when the values differ; `None` when equal.
pub fn compare_values<F: Fn(FloatQuestion) -> bool>(
    old: &CellValue,
    new: &CellValue,
    opts: &ValueCompareOptions,
    float_oracle: &F,
) -> (r: Option<ValueChange>)
    requires
        oracle_total(*float_oracle),
    ensures
        spec_compare_result(*float_oracle, *old, *new, *opts, r),
{
    let reason: ValueDifferenceKind = match (old, new) {
        (CellValue::Empty, CellValue::Empty) => return None,
        (CellValue::Text(a), CellValue::Text(b)) => {
            if str_equal(a, b) {
                return None;
            }
            ValueDifferenceKind::ContentChanged
        },
        (CellValue::Bool(a), CellValue::Bool(b)) => {
            if *a == *b {
                return None;
            }
            ValueDifferenceKind::ContentChanged
        },
        (CellValue::Integer(a), CellValue::Integer(b)) => {
            if *a == *b {
                return None;
            }
            ValueDifferenceKind::ContentChanged
        },
        (CellValue::Number(a), CellValue::Number(b)) => {
            let equal = match opts.number {
                NumberComparePolicy::Exact => exact_number_eq(a.bits, b.bits),
                policy => ask(
                    float_oracle,
                    FloatQuestion::WithinTolerance { a: a.bits, b: b.bits, policy },
                ),
            };
            if equal {
                return None;
            }
            ValueDifferenceKind::NumericOutsideTolerance
        },
        (CellValue::Error(a), CellValue::Error(b)) => {
            if error_eq(a, b) {
                return None;
            }
            ValueDifferenceKind::ErrorKindChanged
        },
        (CellValue::DateTime(a), CellValue::DateTime(b)) => {
            if datetime_equal(a, b) {
                return None;
            }
            match opts.date {
                DateComparePolicy::ExactRepresentation => ValueDifferenceKind::DateTimeChanged,
                DateComparePolicy::NormalizeEquivalentDateTimes => {
                    if a.has_serial && b.has_serial && ask(
                        float_oracle,
                        FloatQuestion::SerialsEquivalent {
                            a: a.serial.bits,
                            a_1904: a.is_1904,
                            b: b.serial.bits,
                            b_1904: b.is_1904,
                        },
                    ) {
                        return None;
                    }
                    ValueDifferenceKind::DateTimeChanged
                },
            }
        },
        (CellValue::Duration(a), CellValue::Duration(b)) => {
            let equal = match (&a.iso, &b.iso) {
                (Some(x), Some(y)) => str_equal(x, y),
                (None, None) => float_eq(a.serial.bits, b.serial.bits),
                _ => false,
            };
            if equal {
                return None;
            }
            ValueDifferenceKind::ContentChanged
        },
        (
            CellValue::Unsupported { display: a, .. },
            CellValue::Unsupported { display: b, .. },
        ) => {
            if str_equal(a, b) {
                return None;
            }
            ValueDifferenceKind::ContentChanged
        },
        (CellValue::Integer(i), CellValue::Number(f)) | (CellValue::Number(f), CellValue::Integer(i)) => {
            match opts.numeric_type {
                NumericTypePolicy::PreserveType => ValueDifferenceKind::TypeChanged,
                NumericTypePolicy::CompareMathematicalValue => {
                    if ask(float_oracle, FloatQuestion::IntegerEqualsNumber { i: *i, f: f.bits }) {
                        return None;
                    }
                    ValueDifferenceKind::ContentChanged
                },
            }
        },
        _ => match opts.type_mismatch {
            TypeMismatchPolicy::Different => ValueDifferenceKind::TypeChanged,
            TypeMismatchPolicy::CompareDisplayString => {
                let a_str = old.display_string();
                let b_str = new.display_string();
                if str_equal(&a_str, &b_str) {
                    return None;
                }
                ValueDifferenceKind::DisplayStringChanged
            },
        },
    };
    Some(ValueChange { old: old.clone(), new: new.clone(), reason })
}

/// The text of an optional formula, `""` when absent.
pub open spec fn spec_formula_text(f: Option<String>) -> Seq<char> {
    match f {
        Some(s) => s@,
        None => Seq::empty(),
    }
}

/// An optional formula as a `FormulaText`.
pub open spec fn spec_formula_of(f: Option<String>) -> Option<FormulaText> {
    match f {
        Some(s) => Some(FormulaText { raw: s, normalized: None }),
        None => None,
    }
}

fn formula_of(f: Option<&String>) -> (r: Option<FormulaText>)
    ensures
        r == spec_formula_of(match f {
            Some(s) => Some(*s),
            None => None,
        }),
{
    match f {
        Some(s) => Some(FormulaText { raw: s.clone(), normalized: None }),
        None => None,
    }
}

/// What comparing the formulas `o` and `n` under `mode` returns.
pub open spec fn spec_formula_change(o: Option<String>, n: Option<String>, mode: FormulaCompareMode) -> Option<FormulaChange> {
    if mode is Ignore || spec_formula_text(o) == spec_formula_text(n) {
        None
    } else {
        Some(FormulaChange { old: spec_formula_of(o), new: spec_formula_of(n) })
    }
}

/// Compare formula strings under the configured mode.
///
/// Returns `Some(FormulaChange)` when the formulas differ; `None` when equal or
/// when the mode is `Ignore`. An absent formula reads as the empty text.
pub fn compare_formulas(
    old_formula: Option<&String>,
    new_formula: Option<&String>,
    mode: FormulaCompareMode,
) -> (r: Option<FormulaChange>)
    ensures
        ({
            let o = match old_formula {
                Some(s) => Some(*s),
                None => None,
            };
            let n = match new_formula {
                Some(s) => Some(*s),
                None => None,
            };
            r == spec_formula_change(o, n, mode)
        }),
{
    if let FormulaCompareMode::Ignore = mode {
        return None;
    }
    let equal = match (old_formula, new_formula) {
        (Some(a), Some(b)) => str_equal(a, b),
        (Some(a), None) => {
            let e = a.as_str().is_empty();
            assert(e ==> a@ =~= Seq::<char>::empty());
            e
        },
        (None, Some(b)) => {
            let e = b.as_str().is_empty();
            assert(e ==> b@ =~= Seq::<char>::empty());
            e
        },
        (None, None) => true,
    };
    if equal {
        return None;
    }
    Some(FormulaChange { old: formula_of(old_formula), new: formula_of(new_formula) })
}

} // verus!
