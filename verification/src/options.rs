//! Comparison options, builder, and related policy enums.

use vstd::prelude::*;

use crate::error::SheetsDiffError;
use crate::model::{Severity, Side};

verus! {

/// How formula text is compared when both sides have a formula.
#[derive(Clone, Copy, PartialEq, Eq, Debug, Default, Structural)]
pub enum FormulaCompareMode {
    /// Compare raw formula strings exactly. Default.
    #[default]
    RawText,
    /// Do not compare formulas at all.
    Ignore,
}

/// How two floating-point numbers are compared.
///
/// Tolerances are carried as IEEE-754 bit patterns (`f64::to_bits`).
#[derive(Clone, Copy, PartialEq, Eq, Debug, Default, Structural)]
pub enum NumberComparePolicy {
    /// IEEE equality (`a == b`), with two NaNs also counted equal. Default.
    #[default]
    Exact,
    /// `|a - b| <= tol`.
    AbsoluteTolerance(u64),
    /// `|a - b| / max(|a|, |b|) <= tol` (equal when both are zero).
    RelativeTolerance(u64),
    /// Either of the two tests above passes.
    AbsoluteOrRelative { abs: u64, rel: u64 },
}

/// Whether `Integer` vs `Number` is treated as a type change.
#[derive(Clone, Copy, PartialEq, Eq, Debug, Default, Structural)]
pub enum NumericTypePolicy {
    /// `Integer(1)` and `Number(1.0)` are **different** (TypeChanged). Default.
    #[default]
    PreserveType,
    /// Compare by mathematical value; `Integer(1)` and `Number(1.0)` are equal.
    CompareMathematicalValue,
}

/// How date/time values are compared.
#[derive(Clone, Copy, PartialEq, Eq, Debug, Default, Structural)]
pub enum DateComparePolicy {
    /// Compare the raw serial and `is_1904` flag. Default.
    #[default]
    ExactRepresentation,
    /// Reconcile the 1900 and 1904 date systems before comparing serials.
    NormalizeEquivalentDateTimes,
}

/// How a typed value is compared against a value of a different type.
#[derive(Clone, Copy, PartialEq, Eq, Debug, Default, Structural)]
pub enum TypeMismatchPolicy {
    /// Different types are always `TypeChanged`. Default.
    #[default]
    Different,
    /// Compare their display strings instead (for human-friendly reports only).
    CompareDisplayString,
}

/// All value-comparison policy fields grouped together.
#[derive(Clone, Copy, PartialEq, Eq, Debug, Structural)]
#[non_exhaustive]
pub struct ValueCompareOptions {
    pub number: NumberComparePolicy,
    pub numeric_type: NumericTypePolicy,
    pub date: DateComparePolicy,
    pub type_mismatch: TypeMismatchPolicy,
}

/// The default value-comparison policies.
pub open spec fn spec_default_value_options() -> ValueCompareOptions {
    ValueCompareOptions {
        number: NumberComparePolicy::Exact,
        numeric_type: NumericTypePolicy::PreserveType,
        date: DateComparePolicy::ExactRepresentation,
        type_mismatch: TypeMismatchPolicy::Different,
    }
}

impl Default for ValueCompareOptions {
    fn default() -> (r: Self)
        ensures
            r == spec_default_value_options(),
    {
        ValueCompareOptions {
            number: NumberComparePolicy::Exact,
            numeric_type: NumericTypePolicy::PreserveType,
            date: DateComparePolicy::ExactRepresentation,
            type_mismatch: TypeMismatchPolicy::Different,
        }
    }
}

/// All comparison-behaviour options.
#[derive(Clone, Copy, PartialEq, Eq, Debug, Structural)]
#[non_exhaustive]
pub struct ComparisonOptions {
    pub value: ValueCompareOptions,
    pub formula: FormulaCompareMode,
    /// Whether the formula's cached value is compared as a value change.
    pub include_formula_cached_values: bool,
}

impl Default for ComparisonOptions {
    fn default() -> (r: Self)
        ensures
            r.value == spec_default_value_options(),
            r.formula == FormulaCompareMode::RawText,
            r.include_formula_cached_values,
    {
        ComparisonOptions {
            value: ValueCompareOptions::default(),
            formula: FormulaCompareMode::RawText,
            include_formula_cached_values: true,
        }
    }
}

/// How sheets are paired between the two workbooks.
#[derive(Clone, Copy, PartialEq, Eq, Debug, Default, Structural)]
pub enum SheetMatchingMode {
    /// Pair only sheets with the same name; others are Added/Removed.
    ExactNameOnly,
    /// Exact name first; then detect a rename when exactly one unmatched old and
    /// one unmatched new sheet remain. Default.
    #[default]
    ExactNameThenConservativeRename,
    /// Exact name first; then try pairing by sheet index.
    ExactNameThenIndex,
}

/// Row alignment mode.
#[derive(Clone, PartialEq, Eq, Debug, Default)]
pub enum AlignmentMode {
    /// Positional (row N on old vs row N on new). Default.
    #[default]
    Positional,
    /// Match rows by the values in the specified key columns (1-based).
    ///
    /// A row with no cell in any key column cannot be matched by key. Rows with
    /// the same values in the same columns on both sides are paired with one
    /// another, in row order; the rest are reported as removed (old side) or
    /// inserted (new side). A `missing_alignment_key` warning gives the count per
    /// side, and the sheet's alignment confidence is at most `Medium`. Duplicate
    /// keys warn too (`duplicate_alignment_key`).
    RowKey { columns: Vec<u32> },
    /// Match rows by their cell values. `sample_columns` limits which columns
    /// contribute to the signature; `None` means all columns.
    RowSignature { sample_columns: Option<Vec<u32>> },
}

/// Options controlling sheet matching and cell alignment.
#[derive(Clone, PartialEq, Eq, Debug)]
#[non_exhaustive]
pub struct MatchingOptions {
    pub sheet_matching: SheetMatchingMode,
    pub alignment: AlignmentMode,
}

impl Default for MatchingOptions {
    fn default() -> (r: Self)
        ensures
            r.sheet_matching == SheetMatchingMode::ExactNameThenConservativeRename,
            r.alignment == AlignmentMode::Positional,
    {
        MatchingOptions {
            sheet_matching: SheetMatchingMode::ExactNameThenConservativeRename,
            alignment: AlignmentMode::Positional,
        }
    }
}

/// Default bound on the row-alignment `m × n` table.
pub const DEFAULT_MAX_ALIGNMENT_PRODUCT: u64 = 25_000_000;

/// Default bound on input size, checked before any read begins: 500 MiB.
pub const DEFAULT_MAX_INPUT_BYTES: u64 = 524_288_000;

/// Resource bounds that protect against pathological workbooks.
///
/// `None` means no limit on that dimension. The four linear fields default to
/// `None`; `max_alignment_product` and `max_input_bytes` default to `Some`. See
/// [`Limits::hardened()`] for a preset that bounds every dimension.
#[derive(Clone, Copy, PartialEq, Eq, Debug, Structural)]
#[non_exhaustive]
pub struct Limits {
    pub max_sheets: Option<u32>,
    /// Bounds the number of **populated cells** retained, summed over every
    /// sheet and both workbooks — the figure reported as
    /// `DiffMetrics::cells_read`. A blank cell is not counted. The bound is
    /// evaluated before each cell is retained; the comparison then fails with
    /// `LimitExceeded` whose `observed` is `max + 1`.
    pub max_cells_read: Option<u64>,
    pub max_cells_compared: Option<u64>,
    pub max_diffs_returned: Option<u64>,
    /// Bounds the `m × n` row-alignment table. Exceeding it degrades this
    /// sheet to positional comparison and emits an `AlignmentBoundExceeded`
    /// diagnostic — it never errors.
    pub max_alignment_product: Option<u64>,
    /// Bounds the input size, checked *before* the input is read.
    pub max_input_bytes: Option<u64>,
}

impl Default for Limits {
    fn default() -> (r: Self)
        ensures
            r.max_sheets is None,
            r.max_cells_read is None,
            r.max_cells_compared is None,
            r.max_diffs_returned is None,
            r.max_alignment_product == Some(DEFAULT_MAX_ALIGNMENT_PRODUCT),
            r.max_input_bytes == Some(DEFAULT_MAX_INPUT_BYTES),
    {
        Limits {
            max_sheets: None,
            max_cells_read: None,
            max_cells_compared: None,
            max_diffs_returned: None,
            max_alignment_product: Some(DEFAULT_MAX_ALIGNMENT_PRODUCT),
            max_input_bytes: Some(DEFAULT_MAX_INPUT_BYTES),
        }
    }
}

impl Limits {
    /// A bound on every dimension `Limits` defines, for comparing a workbook
    /// from a source you do not trust.
    ///
    /// This is not a guarantee that no workbook can demand unbounded time or
    /// memory: decompression within the size bound and blank cell records lie
    /// outside every dimension `Limits` defines.
    pub fn hardened() -> (r: Self)
        ensures
            r.max_sheets == Some(256u32),
            r.max_cells_read == Some(5_000_000u64),
            r.max_cells_compared == Some(5_000_000u64),
            r.max_diffs_returned == Some(1_000_000u64),
            r.max_alignment_product == Some(DEFAULT_MAX_ALIGNMENT_PRODUCT),
            r.max_input_bytes == Some(52_428_800u64),
    {
        Self {
            max_sheets: Some(256),
            max_cells_read: Some(5_000_000),
            max_cells_compared: Some(5_000_000),
            max_diffs_returned: Some(1_000_000),
            max_alignment_product: Some(DEFAULT_MAX_ALIGNMENT_PRODUCT),
            max_input_bytes: Some(52_428_800),
        }
    }
}

/// An event emitted during a comparison for progress reporting.
#[derive(Clone, PartialEq, Eq, Debug)]
pub enum DiffEvent {
    Started,
    OpeningWorkbook { side: Side },
    WorkbookOpened { side: Side, sheet_count: usize },
    MatchingSheets,
    SheetStarted { index: usize, total: usize, name: String },
    SheetFinished { index: usize, changed_cells: usize },
    Finished,
}

/// Receives progress events. Any `FnMut(DiffEvent) + Send` closure is one.
pub trait ProgressSink: Send {
    fn on_event(&mut self, event: DiffEvent);
}

/// Calls a caller-supplied event closure (`FnMut::call_mut`); nothing is
/// claimed of what it does.
#[verifier::external_body]
fn call_event_closure<F: FnMut(DiffEvent)>(f: &mut F, event: DiffEvent) {
    f(event)
}

impl<F: FnMut(DiffEvent) + Send> ProgressSink for F {
    fn on_event(&mut self, event: DiffEvent) {
        call_event_closure(self, event)
    }
}

/// A cancellation predicate. Any `Fn() -> bool + Send + Sync` closure is one.
///
/// `is_cancelled()` is polled once before each sheet pair and every 50,000
/// cell records read and coordinates compared.
pub trait Cancellation: Send + Sync {
    fn is_cancelled(&self) -> bool;
}

/// Calls a caller-supplied predicate (`Fn::call`); nothing is claimed of its
/// answer.
#[verifier::external_body]
fn call_predicate_closure<F: Fn() -> bool>(f: &F) -> bool {
    f()
}

/// What a cancellation poll yields for the predicate's answer `fired`:
/// `Err(Cancelled)` when it fired, `Ok` otherwise.
pub fn cancel_outcome(fired: bool) -> (r: Result<(), SheetsDiffError>)
    ensures
        fired ==> r == Err::<(), SheetsDiffError>(SheetsDiffError::Cancelled),
        !fired ==> r == Ok::<(), SheetsDiffError>(()),
{
    if fired {
        Err(SheetsDiffError::Cancelled)
    } else {
        Ok(())
    }
}

impl<F: Fn() -> bool + Send + Sync> Cancellation for F {
    fn is_cancelled(&self) -> bool {
        call_predicate_closure(self)
    }
}

/// Execution-mode configuration. Reserved: `Sequential` is the only variant.
#[derive(Clone, Copy, PartialEq, Eq, Debug, Default, Structural)]
pub enum ExecutionMode {
    /// Single-threaded, deterministic. Default.
    #[default]
    Sequential,
}

/// Execution, progress, and cancellation options.
#[non_exhaustive]
pub struct ExecutionOptions {
    pub progress: Option<Box<dyn ProgressSink>>,
    pub cancellation: Option<Box<dyn Cancellation>>,
    /// Reserved, currently has no effect.
    pub mode: ExecutionMode,
}

impl Default for ExecutionOptions {
    fn default() -> (r: Self)
        ensures
            r.progress is None,
            r.cancellation is None,
            r.mode == ExecutionMode::Sequential,
    {
        ExecutionOptions { progress: None, cancellation: None, mode: ExecutionMode::Sequential }
    }
}

/// Which diagnostics are collected.
#[derive(Clone, Copy, PartialEq, Eq, Debug, Structural)]
#[non_exhaustive]
pub struct DiagnosticOptions {
    /// The lowest severity to **collect**. `None` collects every diagnostic;
    /// `Some(min)` drops any diagnostic below `min` before it is kept, and the
    /// counters count what was kept.
    pub min_severity: Option<Severity>,
}

impl Default for DiagnosticOptions {
    fn default() -> (r: Self)
        ensures
            r.min_severity is None,
    {
        DiagnosticOptions { min_severity: None }
    }
}

/// Controls how the presence of non-cell objects is handled.
#[derive(Clone, Copy, PartialEq, Eq, Debug, Default, Structural)]
pub enum ObjectCompareMode {
    /// Ignore objects entirely — no diagnostics.
    Ignore,
    /// Emit a coverage warning when non-worksheet sheets or object categories
    /// that cannot be compared are present. Default.
    #[default]
    WarnIfPresent,
    /// Compare what is available; behaves as `WarnIfPresent`, since no object
    /// content is available from the reader.
    CompareAvailable,
}

/// Output and presentation options.
#[derive(Clone, Copy, PartialEq, Eq, Debug, Structural)]
#[non_exhaustive]
pub struct OutputOptions {
    /// How non-cell workbook objects are handled.
    pub objects: ObjectCompareMode,
}

impl Default for OutputOptions {
    fn default() -> (r: Self)
        ensures
            r.objects == ObjectCompareMode::WarnIfPresent,
    {
        OutputOptions { objects: ObjectCompareMode::WarnIfPresent }
    }
}

/// The top-level configuration entry point for a comparison.
///
/// Construct via `DiffOptions::default()` or `DiffOptions::builder()`. Every
/// field is public, so an option can always be set by assigning it. Each of the
/// nineteen leaf options has a setter of its own on [`DiffOptionsBuilder`],
/// which changes that leaf and no other.
#[non_exhaustive]
pub struct DiffOptions {
    pub comparison: ComparisonOptions,
    pub matching: MatchingOptions,
    pub limits: Limits,
    pub execution: ExecutionOptions,
    pub diagnostics: DiagnosticOptions,
    pub output: OutputOptions,
}

/// Every leaf of `o` holds its default value.
pub open spec fn spec_is_default_options(o: DiffOptions) -> bool {
    &&& o.comparison.value == spec_default_value_options()
    &&& o.comparison.formula == FormulaCompareMode::RawText
    &&& o.comparison.include_formula_cached_values
    &&& o.matching.sheet_matching == SheetMatchingMode::ExactNameThenConservativeRename
    &&& o.matching.alignment == AlignmentMode::Positional
    &&& o.limits.max_sheets is None
    &&& o.limits.max_cells_read is None
    &&& o.limits.max_cells_compared is None
    &&& o.limits.max_diffs_returned is None
    &&& o.limits.max_alignment_product == Some(DEFAULT_MAX_ALIGNMENT_PRODUCT)
    &&& o.limits.max_input_bytes == Some(DEFAULT_MAX_INPUT_BYTES)
    &&& o.execution.progress is None
    &&& o.execution.cancellation is None
    &&& o.execution.mode == ExecutionMode::Sequential
    &&& o.diagnostics.min_severity is None
    &&& o.output.objects == ObjectCompareMode::WarnIfPresent
}

impl Default for DiffOptions {
    fn default() -> (r: Self)
        ensures
            spec_is_default_options(r),
    {
        DiffOptions {
            comparison: ComparisonOptions::default(),
            matching: MatchingOptions::default(),
            limits: Limits::default(),
            execution: ExecutionOptions::default(),
            diagnostics: DiagnosticOptions::default(),
            output: OutputOptions::default(),
        }
    }
}

impl DiffOptions {
    /// A builder holding the default options.
    pub fn builder() -> (b: DiffOptionsBuilder)
        ensures
            spec_is_default_options(b.spec_options()),
    {
        DiffOptionsBuilder::new()
    }

    /// Validate option combinations before I/O begins.
    ///
    /// No combination of options is currently invalid, so this always succeeds.
    pub fn validate(&self) -> (r: Result<(), SheetsDiffError>)
        ensures
            r is Ok,
    {
        Ok(())
    }
}

/// Fluent builder for `DiffOptions`.
///
/// Call `.build()` to validate the combination and obtain a `DiffOptions`.
pub struct DiffOptionsBuilder {
    pub(crate) opts: DiffOptions,
}

impl Default for DiffOptionsBuilder {
    fn default() -> (r: Self)
        ensures
            spec_is_default_options(r.spec_options()),
    {
        Self::new()
    }
}

impl DiffOptionsBuilder {
    /// The options this builder holds.
    pub closed spec fn spec_options(&self) -> DiffOptions {
        self.opts
    }

    /// A builder holding the default options.
    pub fn new() -> (r: Self)
        ensures
            spec_is_default_options(r.spec_options()),
    {
        Self { opts: DiffOptions::default() }
    }

    /// Set how formulas are compared.
    pub fn formula_compare(self, mode: FormulaCompareMode) -> (r: Self)
        ensures
            r.spec_options() == (DiffOptions {
                comparison: ComparisonOptions { formula: mode, ..self.spec_options().comparison },
                ..self.spec_options()
            }),
    {
        let mut s = self;
        s.opts.comparison.formula = mode;
        s
    }

    /// Set the object comparison mode.
    pub fn object_mode(self, mode: ObjectCompareMode) -> (r: Self)
        ensures
            r.spec_options() == (DiffOptions { output: OutputOptions { objects: mode }, ..self.spec_options() }),
    {
        let mut s = self;
        s.opts.output.objects = mode;
        s
    }

    /// Set the execution mode. Reserved, currently has no effect.
    pub fn execution_mode(self, mode: ExecutionMode) -> (r: Self)
        ensures
            r.spec_options() == (DiffOptions {
                execution: ExecutionOptions { mode: mode, ..self.spec_options().execution },
                ..self.spec_options()
            }),
    {
        let mut s = self;
        s.opts.execution.mode = mode;
        s
    }

    /// Set whether a formula's cached value is compared as a value change.
    pub fn include_formula_cached_values(self, yes: bool) -> (r: Self)
        ensures
            r.spec_options() == (DiffOptions {
                comparison: ComparisonOptions {
                    include_formula_cached_values: yes,
                    ..self.spec_options().comparison
                },
                ..self.spec_options()
            }),
    {
        let mut s = self;
        s.opts.comparison.include_formula_cached_values = yes;
        s
    }

    /// Set how `Integer` and `Number` values are compared with each other.
    pub fn numeric_type_policy(self, policy: NumericTypePolicy) -> (r: Self)
        ensures
            r.spec_options() == (DiffOptions {
                comparison: ComparisonOptions {
                    value: ValueCompareOptions {
                        numeric_type: policy,
                        ..self.spec_options().comparison.value
                    },
                    ..self.spec_options().comparison
                },
                ..self.spec_options()
            }),
    {
        let mut s = self;
        s.opts.comparison.value.numeric_type = policy;
        s
    }

    /// Set how values of different types are compared.
    pub fn type_mismatch_policy(self, policy: TypeMismatchPolicy) -> (r: Self)
        ensures
            r.spec_options() == (DiffOptions {
                comparison: ComparisonOptions {
                    value: ValueCompareOptions {
                        type_mismatch: policy,
                        ..self.spec_options().comparison.value
                    },
                    ..self.spec_options().comparison
                },
                ..self.spec_options()
            }),
    {
        let mut s = self;
        s.opts.comparison.value.type_mismatch = policy;
        s
    }

    /// Set how two numbers are compared.
    pub fn number_compare_policy(self, policy: NumberComparePolicy) -> (r: Self)
        ensures
            r.spec_options() == (DiffOptions {
                comparison: ComparisonOptions {
                    value: ValueCompareOptions { number: policy, ..self.spec_options().comparison.value },
                    ..self.spec_options().comparison
                },
                ..self.spec_options()
            }),
    {
        let mut s = self;
        s.opts.comparison.value.number = policy;
        s
    }

    /// Set how date/time values are compared. The default is
    /// [`DateComparePolicy::ExactRepresentation`].
    pub fn date_compare_policy(self, policy: DateComparePolicy) -> (r: Self)
        ensures
            r.spec_options() == (DiffOptions {
                comparison: ComparisonOptions {
                    value: ValueCompareOptions { date: policy, ..self.spec_options().comparison.value },
                    ..self.spec_options().comparison
                },
                ..self.spec_options()
            }),
    {
        let mut s = self;
        s.opts.comparison.value.date = policy;
        s
    }

    /// Set how sheets are paired.
    pub fn sheet_matching(self, mode: SheetMatchingMode) -> (r: Self)
        ensures
            r.spec_options() == (DiffOptions {
                matching: MatchingOptions { sheet_matching: mode, ..self.spec_options().matching },
                ..self.spec_options()
            }),
    {
        let mut s = self;
        s.opts.matching.sheet_matching = mode;
        s
    }

    /// Set how rows are aligned between the two sides of a matched sheet. This
    /// leaves the sheet matching alone.
    pub fn alignment(self, mode: AlignmentMode) -> (r: Self)
        ensures
            r.spec_options() == (DiffOptions {
                matching: MatchingOptions { alignment: mode, ..self.spec_options().matching },
                ..self.spec_options()
            }),
    {
        let mut s = self;
        s.opts.matching.alignment = mode;
        s
    }

    /// Bound the number of sheets on either side.
    pub fn max_sheets(self, n: u32) -> (r: Self)
        ensures
            r.spec_options() == (DiffOptions {
                limits: Limits { max_sheets: Some(n), ..self.spec_options().limits },
                ..self.spec_options()
            }),
    {
        let mut s = self;
        s.opts.limits.max_sheets = Some(n);
        s
    }

    /// Bound the number of populated cells retained; `None` is unbounded.
    pub fn max_cells_read(self, limit: Option<u64>) -> (r: Self)
        ensures
            r.spec_options() == (DiffOptions {
                limits: Limits { max_cells_read: limit, ..self.spec_options().limits },
                ..self.spec_options()
            }),
    {
        let mut s = self;
        s.opts.limits.max_cells_read = limit;
        s
    }

    /// Bound the number of coordinates compared.
    pub fn max_cells_compared(self, n: u64) -> (r: Self)
        ensures
            r.spec_options() == (DiffOptions {
                limits: Limits { max_cells_compared: Some(n), ..self.spec_options().limits },
                ..self.spec_options()
            }),
    {
        let mut s = self;
        s.opts.limits.max_cells_compared = Some(n);
        s
    }

    /// Bound the number of cell diffs returned.
    pub fn max_diffs_returned(self, n: u64) -> (r: Self)
        ensures
            r.spec_options() == (DiffOptions {
                limits: Limits { max_diffs_returned: Some(n), ..self.spec_options().limits },
                ..self.spec_options()
            }),
    {
        let mut s = self;
        s.opts.limits.max_diffs_returned = Some(n);
        s
    }

    /// Bound the `m × n` alignment table; pass `None` to disable the bound.
    pub fn max_alignment_product(self, limit: Option<u64>) -> (r: Self)
        ensures
            r.spec_options() == (DiffOptions {
                limits: Limits { max_alignment_product: limit, ..self.spec_options().limits },
                ..self.spec_options()
            }),
    {
        let mut s = self;
        s.opts.limits.max_alignment_product = limit;
        s
    }

    /// Bound the input size; pass `None` to disable the bound.
    pub fn max_input_bytes(self, limit: Option<u64>) -> (r: Self)
        ensures
            r.spec_options() == (DiffOptions {
                limits: Limits { max_input_bytes: limit, ..self.spec_options().limits },
                ..self.spec_options()
            }),
    {
        let mut s = self;
        s.opts.limits.max_input_bytes = limit;
        s
    }

    /// Replace all limits at once, e.g. with [`Limits::hardened()`].
    pub fn limits(self, limits: Limits) -> (r: Self)
        ensures
            r.spec_options() == (DiffOptions { limits: limits, ..self.spec_options() }),
    {
        let mut s = self;
        s.opts.limits = limits;
        s
    }

    /// Set the lowest severity to **collect**; `None` collects every diagnostic.
    pub fn min_severity(self, severity: Option<Severity>) -> (r: Self)
        ensures
            r.spec_options() == (DiffOptions {
                diagnostics: DiagnosticOptions { min_severity: severity },
                ..self.spec_options()
            }),
    {
        let mut s = self;
        s.opts.diagnostics.min_severity = severity;
        s
    }

    /// Set the progress sink.
    pub fn progress<S: ProgressSink + 'static>(self, sink: S) -> (r: Self)
        ensures
            r.spec_options().execution.progress is Some,
            r.spec_options().execution.cancellation == self.spec_options().execution.cancellation,
            r.spec_options().execution.mode == self.spec_options().execution.mode,
            r.spec_options().comparison == self.spec_options().comparison,
            r.spec_options().matching == self.spec_options().matching,
            r.spec_options().limits == self.spec_options().limits,
            r.spec_options().diagnostics == self.spec_options().diagnostics,
            r.spec_options().output == self.spec_options().output,
    {
        let mut s = self;
        let b: Box<dyn ProgressSink> = Box::new(sink);
        s.opts.execution.progress = Some(b);
        s
    }

    /// Set the cancellation predicate.
    pub fn cancellation<C: Cancellation + 'static>(self, token: C) -> (r: Self)
        ensures
            r.spec_options().execution.cancellation is Some,
            r.spec_options().execution.progress == self.spec_options().execution.progress,
            r.spec_options().execution.mode == self.spec_options().execution.mode,
            r.spec_options().comparison == self.spec_options().comparison,
            r.spec_options().matching == self.spec_options().matching,
            r.spec_options().limits == self.spec_options().limits,
            r.spec_options().diagnostics == self.spec_options().diagnostics,
            r.spec_options().output == self.spec_options().output,
    {
        let mut s = self;
        let b: Box<dyn Cancellation> = Box::new(token);
        s.opts.execution.cancellation = Some(b);
        s
    }

    /// Validate and return the built options.
    pub fn build(self) -> (r: Result<DiffOptions, SheetsDiffError>)
        ensures
            r matches Ok(o) && o == self.spec_options(),
    {
        let s = self;
        s.opts.validate()?;
        Ok(s.opts)
    }
}

} // verus!
