//! Public result data model.
//!
//! This module owns the result types and the summary / change-kind derivation
//! logic. Floating-point numbers are carried as [`Float64`]: their IEEE-754 bit
//! pattern plus their decimal rendering, which is all the comparison logic reads.

use vstd::prelude::*;

use crate::address::{CellAddress, ComparedRange};
use crate::strings::{push_signed_decimal, push_str, spec_signed_decimal, string_of};

verus! {

/// Which workbook of the pair a piece of data refers to.
#[derive(Clone, Copy, PartialEq, Eq, Debug, Structural)]
#[non_exhaustive]
pub enum Side {
    Old,
    New,
}

impl Side {
    /// `"old"` or `"new"`.
    pub fn label(&self) -> (r: &'static str)
        ensures
            r@ == spec_side_label(*self),
    {
        match self {
            Side::Old => "old",
            Side::New => "new",
        }
    }
}

/// The lowercase name of a side.
pub open spec fn spec_side_label(s: Side) -> Seq<char> {
    match s {
        Side::Old => "old"@,
        Side::New => "new"@,
    }
}

/// What kind of input source a workbook came from.
#[derive(Clone, Copy, PartialEq, Eq, Debug, Structural)]
#[non_exhaustive]
pub enum SourceKind {
    Path,
    Bytes,
    Reader,
    Unknown,
}

/// Caller-visible description of a workbook input source.
///
/// `display_name` is never an absolute path unless the caller explicitly
/// provided it as such.
#[derive(PartialEq, Debug)]
#[non_exhaustive]
pub struct SourceDescription {
    pub kind: SourceKind,
    pub display_name: Option<String>,
}

impl SourceDescription {
    /// A source description from its kind and display name.
    pub fn new(kind: SourceKind, display_name: Option<String>) -> (r: Self)
        ensures
            r == (SourceDescription { kind, display_name }),
    {
        SourceDescription { kind, display_name }
    }
}

impl Clone for SourceDescription {
    fn clone(&self) -> (r: Self)
        ensures
            r == *self,
    {
        SourceDescription { kind: self.kind, display_name: clone_opt_string(&self.display_name) }
    }
}

/// Metadata about one side of the comparison.
#[derive(Clone, PartialEq, Debug)]
#[non_exhaustive]
pub struct WorkbookSideInfo {
    pub source: SourceDescription,
    pub workbook_name: Option<String>,
    pub sheet_count: usize,
}

/// A reference to a specific sheet in one workbook.
///
/// `index` is **0-based** workbook order.
#[derive(PartialEq, Eq, Debug)]
#[non_exhaustive]
pub struct SheetRef {
    pub name: String,
    pub index: usize,
}

impl SheetRef {
    /// A sheet reference from its name and 0-based index.
    pub fn new(name: String, index: usize) -> (r: Self)
        ensures
            r.name == name,
            r.index == index,
    {
        SheetRef { name, index }
    }
}

impl Clone for SheetRef {
    fn clone(&self) -> (r: Self)
        ensures
            r == *self,
    {
        SheetRef { name: self.name.clone(), index: self.index }
    }
}

/// How confident the sheet-matching algorithm is about a non-exact pairing.
#[derive(Clone, Copy, PartialEq, Eq, Debug, Structural)]
#[non_exhaustive]
pub enum MatchConfidence {
    Exact,
    High,
    Medium,
    Low,
}

/// The reason a non-exact sheet pair was formed.
#[derive(Clone, Copy, PartialEq, Eq, Debug, Structural)]
#[non_exhaustive]
pub enum SheetMatchReason {
    ExactName,
    IndexAndContent,
    ContentSimilarity,
}

/// How a sheet pair was classified.
///
/// Names and indices live in `SheetDiff.old_sheet` / `SheetDiff.new_sheet`;
/// they are **not** duplicated inside the variant payloads.
#[derive(Clone, Copy, PartialEq, Eq, Debug, Structural)]
#[non_exhaustive]
pub enum SheetChange {
    /// Name-matched, index unchanged, no cell differences.
    Unchanged,
    /// Name-matched (or rename-matched), has cell differences.
    Modified,
    /// New sheet with no counterpart in the old workbook.
    Added,
    /// Old sheet with no counterpart in the new workbook.
    Removed,
    /// Name-matched, but the tab index moved between the two workbooks.
    Moved,
    /// Name changed; heuristically matched.
    Renamed { confidence: MatchConfidence, reason: SheetMatchReason },
    /// Both renamed and moved.
    RenamedAndMoved { confidence: MatchConfidence, reason: SheetMatchReason },
}

/// A 64-bit floating-point number as the comparison logic sees it: its
/// IEEE-754 bit pattern (`f64::to_bits`) and its decimal rendering (the
/// `Display` text of the `f64`).
#[derive(PartialEq, Eq, Debug)]
pub struct Float64 {
    pub bits: u64,
    pub text: String,
}

impl Clone for Float64 {
    fn clone(&self) -> (r: Self)
        ensures
            r == *self,
    {
        Float64 { bits: self.bits, text: self.text.clone() }
    }
}

/// The exponent bits of an IEEE-754 double are all ones.
pub open spec fn spec_exponent_all_ones(bits: u64) -> bool {
    bits & 0x7FF0_0000_0000_0000u64 == 0x7FF0_0000_0000_0000u64
}

/// The bit pattern is a NaN: exponent all ones and a non-zero fraction.
pub open spec fn spec_is_nan(bits: u64) -> bool {
    spec_exponent_all_ones(bits) && bits & 0x000F_FFFF_FFFF_FFFFu64 != 0
}

/// The bit pattern is positive or negative zero.
pub open spec fn spec_is_zero(bits: u64) -> bool {
    bits & 0x7FFF_FFFF_FFFF_FFFFu64 == 0
}

/// IEEE-754 equality of two doubles (`a == b` in Rust): not NaN, and either
/// the same bits or both zeros.
pub open spec fn spec_float_eq(a: u64, b: u64) -> bool {
    !spec_is_nan(a) && !spec_is_nan(b) && (a == b || (spec_is_zero(a) && spec_is_zero(b)))
}

/// Whether the bit pattern is a NaN.
pub fn float_is_nan(bits: u64) -> (r: bool)
    ensures
        r == spec_is_nan(bits),
{
    (bits & 0x7FF0_0000_0000_0000u64) == 0x7FF0_0000_0000_0000u64 && (bits
        & 0x000F_FFFF_FFFF_FFFFu64) != 0
}

/// IEEE-754 equality of two doubles given by their bits.
pub fn float_eq(a: u64, b: u64) -> (r: bool)
    ensures
        r == spec_float_eq(a, b),
{
    !float_is_nan(a) && !float_is_nan(b) && (a == b || ((a & 0x7FFF_FFFF_FFFF_FFFFu64) == 0 && (b
        & 0x7FFF_FFFF_FFFF_FFFFu64) == 0))
}

/// Spreadsheet-serial date/time value.
///
/// `serial` is the Excel date serial (days since 1900-01-00 or 1904-01-01).
/// `is_1904` distinguishes the two date systems. `iso` is populated when the
/// reader provides an ISO string directly. `has_serial` is `false` when the
/// value came from an ISO string only, in which case `serial` is a `0.0`
/// placeholder and `iso` is the only meaningful representation.
#[derive(PartialEq, Debug)]
#[non_exhaustive]
pub struct CellDateTime {
    pub serial: Float64,
    pub is_1904: bool,
    pub kind: DateTimeKind,
    pub iso: Option<String>,
    pub has_serial: bool,
}

impl CellDateTime {
    /// A date/time from its components.
    pub fn new(
        serial: Float64,
        is_1904: bool,
        kind: DateTimeKind,
        iso: Option<String>,
        has_serial: bool,
    ) -> (r: Self)
        ensures
            r == (CellDateTime { serial, is_1904, kind, iso, has_serial }),
    {
        CellDateTime { serial, is_1904, kind, iso, has_serial }
    }
}

impl Clone for CellDateTime {
    fn clone(&self) -> (r: Self)
        ensures
            r == *self,
    {
        CellDateTime {
            serial: self.serial.clone(),
            is_1904: self.is_1904,
            kind: self.kind,
            iso: clone_opt_string(&self.iso),
            has_serial: self.has_serial,
        }
    }
}

/// Whether an Excel date serial represents a date, time, or datetime.
#[derive(Clone, Copy, PartialEq, Eq, Debug, Structural)]
#[non_exhaustive]
pub enum DateTimeKind {
    DateTime,
    Date,
    Time,
}

/// Spreadsheet-serial duration value (ISO 8601 duration string when available).
#[derive(PartialEq, Debug)]
#[non_exhaustive]
pub struct CellDuration {
    pub serial: Float64,
    pub iso: Option<String>,
}

impl CellDuration {
    /// A duration from its components.
    pub fn new(serial: Float64, iso: Option<String>) -> (r: Self)
        ensures
            r == (CellDuration { serial, iso }),
    {
        CellDuration { serial, iso }
    }
}

impl Clone for CellDuration {
    fn clone(&self) -> (r: Self)
        ensures
            r == *self,
    {
        CellDuration { serial: self.serial.clone(), iso: clone_opt_string(&self.iso) }
    }
}

/// Typed spreadsheet cell error. `Other` handles forward-compat.
#[derive(PartialEq, Eq, Debug)]
#[non_exhaustive]
pub enum CellError {
    Div0,
    NA,
    Name,
    Null,
    Num,
    Ref,
    Value,
    GettingData,
    Other(String),
}

impl Clone for CellError {
    fn clone(&self) -> (r: Self)
        ensures
            r == *self,
    {
        match self {
            CellError::Div0 => CellError::Div0,
            CellError::NA => CellError::NA,
            CellError::Name => CellError::Name,
            CellError::Null => CellError::Null,
            CellError::Num => CellError::Num,
            CellError::Ref => CellError::Ref,
            CellError::Value => CellError::Value,
            CellError::GettingData => CellError::GettingData,
            CellError::Other(s) => CellError::Other(s.clone()),
        }
    }
}

/// The Excel text of a cell error.
pub open spec fn spec_error_text(e: CellError) -> Seq<char> {
    match e {
        CellError::Div0 => "#DIV/0!"@,
        CellError::NA => "#N/A"@,
        CellError::Name => "#NAME?"@,
        CellError::Null => "#NULL!"@,
        CellError::Num => "#NUM!"@,
        CellError::Ref => "#REF!"@,
        CellError::Value => "#VALUE!"@,
        CellError::GettingData => "#GETTING_DATA"@,
        CellError::Other(s) => "#"@ + s@,
    }
}

impl CellError {
    /// The Excel text of this error (`#DIV/0!`, `#N/A`, …; `#<s>` for `Other(s)`).
    pub fn to_text(&self) -> (r: String)
        ensures
            r@ == spec_error_text(*self),
    {
        match self {
            CellError::Div0 => string_of("#DIV/0!"),
            CellError::NA => string_of("#N/A"),
            CellError::Name => string_of("#NAME?"),
            CellError::Null => string_of("#NULL!"),
            CellError::Num => string_of("#NUM!"),
            CellError::Ref => string_of("#REF!"),
            CellError::Value => string_of("#VALUE!"),
            CellError::GettingData => string_of("#GETTING_DATA"),
            CellError::Other(s) => {
                let mut r = string_of("#");
                push_str(&mut r, s.as_str());
                r
            },
        }
    }
}

/// Typed representation of a spreadsheet cell value.
///
/// `Integer` and `Number` are kept distinct. Default comparison treats
/// `Integer(1)` vs `Number(1.0)` as a `TypeChanged` difference; cross-type
/// numeric equality is opt-in.
#[derive(PartialEq, Debug)]
#[non_exhaustive]
pub enum CellValue {
    Empty,
    Text(String),
    Integer(i64),
    Number(Float64),
    Bool(bool),
    DateTime(CellDateTime),
    Duration(CellDuration),
    Error(CellError),
    Unsupported { display: String, reason: String },
}

impl Clone for CellValue {
    fn clone(&self) -> (r: Self)
        ensures
            r == *self,
    {
        match self {
            CellValue::Empty => CellValue::Empty,
            CellValue::Text(s) => CellValue::Text(s.clone()),
            CellValue::Integer(i) => CellValue::Integer(*i),
            CellValue::Number(f) => CellValue::Number(f.clone()),
            CellValue::Bool(b) => CellValue::Bool(*b),
            CellValue::DateTime(d) => CellValue::DateTime(d.clone()),
            CellValue::Duration(d) => CellValue::Duration(d.clone()),
            CellValue::Error(e) => CellValue::Error(e.clone()),
            CellValue::Unsupported { display, reason } => CellValue::Unsupported {
                display: display.clone(),
                reason: reason.clone(),
            },
        }
    }
}

/// The human-readable display text of a value.
pub open spec fn spec_display(v: CellValue) -> Seq<char> {
    match v {
        CellValue::Empty => Seq::empty(),
        CellValue::Text(s) => s@,
        CellValue::Integer(i) => spec_signed_decimal(i as int),
        CellValue::Number(f) => f.text@,
        CellValue::Bool(b) => if b {
            "true"@
        } else {
            "false"@
        },
        CellValue::DateTime(dt) => match dt.iso {
            Some(s) => s@,
            None => dt.serial.text@,
        },
        CellValue::Duration(d) => match d.iso {
            Some(s) => s@,
            None => d.serial.text@,
        },
        CellValue::Error(e) => spec_error_text(e),
        CellValue::Unsupported { display, .. } => display@,
    }
}

fn clone_opt_string(s: &Option<String>) -> (r: Option<String>)
    ensures
        r == *s,
{
    match s {
        Some(x) => Some(x.clone()),
        None => None,
    }
}

impl CellValue {
    /// A human-readable display string. For use in reports only; never used
    /// as an equality key.
    pub fn display_string(&self) -> (r: String)
        ensures
            r@ == spec_display(*self),
    {
        match self {
            CellValue::Empty => String::new(),
            CellValue::Text(s) => s.clone(),
            CellValue::Integer(i) => {
                let mut r = String::new();
                push_signed_decimal(&mut r, *i);
                assert(r@ =~= spec_signed_decimal(*i as int));
                r
            },
            CellValue::Number(f) => f.text.clone(),
            CellValue::Bool(b) => if *b {
                string_of("true")
            } else {
                string_of("false")
            },
            CellValue::DateTime(dt) => match &dt.iso {
                Some(s) => s.clone(),
                None => dt.serial.text.clone(),
            },
            CellValue::Duration(d) => match &d.iso {
                Some(s) => s.clone(),
                None => d.serial.text.clone(),
            },
            CellValue::Error(e) => e.to_text(),
            CellValue::Unsupported { display, .. } => display.clone(),
        }
    }

    /// True if the value is `Empty`.
    pub fn is_empty(&self) -> (r: bool)
        ensures
            r == (*self is Empty),
    {
        matches!(self, CellValue::Empty)
    }

    /// Alias for `display_string`.
    pub fn display_default(&self) -> (r: String)
        ensures
            r@ == spec_display(*self),
    {
        self.display_string()
    }
}

/// Where a display string originated.
#[derive(Clone, Copy, PartialEq, Eq, Debug, Structural)]
#[non_exhaustive]
pub enum DisplaySource {
    /// Provided directly by the workbook reader.
    ReaderProvided,
    /// Synthesised by this library from the typed value.
    SheetsDiffDefault,
    /// Substituted by the calling application.
    ApplicationProvided,
}

/// A number-format identifier and/or code string captured from the workbook.
///
/// The reader exposes neither from cell data, so both are `None`; the struct
/// is reserved so they can be populated without an API break.
#[derive(Clone, PartialEq, Eq, Debug, Default)]
#[non_exhaustive]
pub struct CellNumberFormat {
    /// Excel built-in format ID (e.g. `4` for `#,##0.00`).
    pub id: Option<u32>,
    /// Raw format code string (e.g. `"#,##0.00"`).
    pub code: Option<String>,
}

/// Human-friendly display metadata attached to a cell value.
#[derive(Clone, PartialEq, Eq, Debug)]
#[non_exhaustive]
pub struct CellDisplay {
    /// The display string — deterministic and locale-neutral by default.
    pub text: String,
    /// Number-format metadata when available.
    pub format: Option<CellNumberFormat>,
    pub source: DisplaySource,
}

impl CellDisplay {
    /// Construct a `CellDisplay` from its components.
    pub fn new(text: String, format: Option<CellNumberFormat>, source: DisplaySource) -> (r: Self)
        ensures
            r.text == text,
            r.format == format,
            r.source == source,
    {
        Self { text, format, source }
    }

    /// Build a default display from a `CellValue`.
    pub fn from_value(value: &CellValue) -> (r: Self)
        ensures
            r.text@ == spec_display(*value),
            r.format is None,
            r.source == DisplaySource::SheetsDiffDefault,
    {
        Self { text: value.display_default(), format: None, source: DisplaySource::SheetsDiffDefault }
    }
}

/// A full snapshot of one cell: typed value + optional formula + optional display
/// metadata.
#[derive(Clone, PartialEq, Debug)]
#[non_exhaustive]
pub struct CellSnapshot {
    pub value: CellValue,
    pub formula: Option<FormulaText>,
    pub display: Option<CellDisplay>,
}

impl CellSnapshot {
    /// Construct a `CellSnapshot` from its components.
    pub fn new(value: CellValue, formula: Option<FormulaText>, display: Option<CellDisplay>) -> (r:
        Self)
        ensures
            r.value == value,
            r.formula == formula,
            r.display == display,
    {
        Self { value, formula, display }
    }

    /// Return the best available display string: `display.text` when present,
    /// otherwise `value.display_default()`.
    pub fn preferred_display(&self) -> (r: String)
        ensures
            r@ == match self.display {
                Some(d) => d.text@,
                None => spec_display(self.value),
            },
    {
        match &self.display {
            Some(d) => d.text.clone(),
            None => self.value.display_default(),
        }
    }
}

/// Why two `CellValue`s were considered different.
#[derive(Clone, Copy, PartialEq, Eq, Debug, Structural)]
#[non_exhaustive]
pub enum ValueDifferenceKind {
    /// The enum variant changed (e.g. `Integer` → `Number`).
    TypeChanged,
    /// Same type, different content.
    ContentChanged,
    /// Same float type, outside the configured tolerance.
    NumericOutsideTolerance,
    /// Date/time serial or kind changed.
    DateTimeChanged,
    /// `CellError` variant changed.
    ErrorKindChanged,
    /// Compared as display strings (opt-in policy); strings differed.
    DisplayStringChanged,
}

/// A value-layer change at one cell address.
#[derive(Clone, PartialEq, Debug)]
#[non_exhaustive]
pub struct ValueChange {
    pub old: CellValue,
    pub new: CellValue,
    pub reason: ValueDifferenceKind,
}

/// A formula's text, with an optional normalised form.
#[derive(PartialEq, Eq, Debug)]
#[non_exhaustive]
pub struct FormulaText {
    pub raw: String,
    /// `None` unless a normaliser is available.
    pub normalized: Option<String>,
}

impl FormulaText {
    /// A formula text with no normalised form.
    pub fn new(raw: String) -> (r: Self)
        ensures
            r.raw == raw,
            r.normalized is None,
    {
        FormulaText { raw, normalized: None }
    }
}

impl Clone for FormulaText {
    fn clone(&self) -> (r: Self)
        ensures
            r == *self,
    {
        FormulaText { raw: self.raw.clone(), normalized: clone_opt_string(&self.normalized) }
    }
}

/// A formula-layer change at one cell address.
///
/// `None` in `old` or `new` means the formula was added or removed.
#[derive(Clone, PartialEq, Eq, Debug)]
#[non_exhaustive]
pub struct FormulaChange {
    pub old: Option<FormulaText>,
    pub new: Option<FormulaText>,
}

/// Reserved for style/format diffs. Always `None`: the reader exposes no cell-style API.
#[derive(Clone, PartialEq, Eq, Debug)]
#[non_exhaustive]
pub struct FormatChange {}

/// Derived classification of a `CellDiff` entry.
#[derive(Clone, Copy, PartialEq, Eq, Debug, Structural)]
#[non_exhaustive]
pub enum CellChangeKind {
    Added,
    Removed,
    Modified,
}

/// A merged per-cell diff entry: **one `CellDiff` per logical address**, with
/// independent `value` and `formula` sub-fields.
///
/// `change_kind()` is derived from the sub-fields, not stored.
#[derive(Clone, PartialEq, Debug)]
#[non_exhaustive]
pub struct CellDiff {
    pub address: CellAddress,
    pub value: Option<ValueChange>,
    pub formula: Option<FormulaChange>,
    /// Reserved.
    pub format: Option<FormatChange>,
    pub diagnostics: Vec<Diagnostic>,
}

/// Some sub-change of the diff has a non-empty old side.
pub open spec fn spec_has_old(d: CellDiff) -> bool {
    (d.value matches Some(v) && !(v.old is Empty)) || (d.formula matches Some(f) && f.old is Some)
}

/// Some sub-change of the diff has a non-empty new side.
pub open spec fn spec_has_new(d: CellDiff) -> bool {
    (d.value matches Some(v) && !(v.new is Empty)) || (d.formula matches Some(f) && f.new is Some)
}

/// Added when only the new side is present, Removed when only the old side is,
/// Modified otherwise.
pub open spec fn spec_change_kind(d: CellDiff) -> CellChangeKind {
    if !spec_has_old(d) && spec_has_new(d) {
        CellChangeKind::Added
    } else if spec_has_old(d) && !spec_has_new(d) {
        CellChangeKind::Removed
    } else {
        CellChangeKind::Modified
    }
}

impl CellDiff {
    /// Derive Added / Removed / Modified from the sub-change fields.
    ///
    /// - **Added**: every present sub-change has an empty/absent `old` side.
    /// - **Removed**: every present sub-change has an empty/absent `new` side.
    /// - **Modified**: otherwise.
    pub fn change_kind(&self) -> (r: CellChangeKind)
        ensures
            r == spec_change_kind(*self),
    {
        let has_old = match &self.value {
            Some(v) => !v.old.is_empty(),
            None => false,
        } || match &self.formula {
            Some(f) => f.old.is_some(),
            None => false,
        };
        let has_new = match &self.value {
            Some(v) => !v.new.is_empty(),
            None => false,
        } || match &self.formula {
            Some(f) => f.new.is_some(),
            None => false,
        };
        if !has_old && has_new {
            CellChangeKind::Added
        } else if has_old && !has_new {
            CellChangeKind::Removed
        } else {
            CellChangeKind::Modified
        }
    }
}

/// Severity of a diagnostic entry, ordered `Info < Warning < Error`.
#[derive(Clone, Copy, PartialEq, Eq, PartialOrd, Ord, Debug, Structural)]
#[non_exhaustive]
pub enum Severity {
    Info,
    Warning,
    Error,
}

/// The rank of a severity: 0 for `Info`, 1 for `Warning`, 2 for `Error`.
pub open spec fn spec_severity_rank(s: Severity) -> int {
    match s {
        Severity::Info => 0,
        Severity::Warning => 1,
        Severity::Error => 2,
    }
}

impl Severity {
    /// The rank of this severity: 0 for `Info`, 1 for `Warning`, 2 for `Error`.
    pub fn rank(&self) -> (r: u8)
        ensures
            r == spec_severity_rank(*self),
    {
        match self {
            Severity::Info => 0,
            Severity::Warning => 1,
            Severity::Error => 2,
        }
    }
}

/// Which processing stage emitted a diagnostic.
#[derive(Clone, Copy, PartialEq, Eq, Debug, Structural)]
#[non_exhaustive]
pub enum DiffStage {
    Open,
    Metadata,
    Match,
    Read,
    Normalize,
    Compare,
    Aggregate,
}

/// Location context attached to a diagnostic.
#[derive(PartialEq, Debug)]
#[non_exhaustive]
pub struct DiagnosticLocation {
    pub stage: DiffStage,
    /// 0-based sheet order (workbook index), if applicable.
    pub sheet_order: Option<usize>,
    pub sheet_name: Option<String>,
    pub address: Option<CellAddress>,
}

impl Clone for DiagnosticLocation {
    fn clone(&self) -> (r: Self)
        ensures
            r == *self,
    {
        DiagnosticLocation {
            stage: self.stage,
            sheet_order: self.sheet_order,
            sheet_name: clone_opt_string(&self.sheet_name),
            address: match &self.address {
                Some(a) => Some(a.clone()),
                None => None,
            },
        }
    }
}

/// Structured diagnostic kind.
///
/// `code()` returns a stable string identifier; it is never renamed within a
/// major version.
#[derive(Clone, PartialEq, Eq, Debug)]
#[non_exhaustive]
pub enum DiagnosticKind {
    FormulaUnavailable,
    FormulaCachedValueUnverified,
    AmbiguousSheetMatch { candidates: Vec<SheetRef> },
    UnsupportedCellValue { detail: String },
    UnsupportedWorkbookFeature { feature: String },
    UnsupportedWorkbookMetadata { category: String },
    DefinedNameScopeUnknown,
    DateTimeNotNormalized,
    LimitTruncatedCells { limit: String, observed: u64 },
    /// The alignment row-product bound was exceeded, so this sheet fell back to
    /// positional comparison. Never paired with an error.
    AlignmentBoundExceeded { limit: u64, observed: u64 },
    /// Two or more rows share the same alignment key.
    DuplicateAlignmentKey { old_count: usize, new_count: usize },
    /// Rows with no cell in any alignment key column: they cannot be matched by key.
    MissingAlignmentKey { old_count: usize, new_count: usize },
}

/// The stable code string of a diagnostic kind.
pub open spec fn spec_code(k: DiagnosticKind) -> Seq<char> {
    match k {
        DiagnosticKind::FormulaUnavailable => "formula_unavailable"@,
        DiagnosticKind::FormulaCachedValueUnverified => "formula_cached_value_unverified"@,
        DiagnosticKind::AmbiguousSheetMatch { .. } => "ambiguous_sheet_match"@,
        DiagnosticKind::UnsupportedCellValue { .. } => "unsupported_cell_value"@,
        DiagnosticKind::UnsupportedWorkbookFeature { .. } => "unsupported_workbook_feature"@,
        DiagnosticKind::UnsupportedWorkbookMetadata { .. } => "unsupported_workbook_metadata"@,
        DiagnosticKind::DefinedNameScopeUnknown => "defined_name_scope_unknown"@,
        DiagnosticKind::DateTimeNotNormalized => "datetime_not_normalized"@,
        DiagnosticKind::LimitTruncatedCells { .. } => "limit_truncated_cells"@,
        DiagnosticKind::AlignmentBoundExceeded { .. } => "alignment_bound_exceeded"@,
        DiagnosticKind::DuplicateAlignmentKey { .. } => "duplicate_alignment_key"@,
        DiagnosticKind::MissingAlignmentKey { .. } => "missing_alignment_key"@,
    }
}

impl DiagnosticKind {
    /// Stable code string for this diagnostic kind.
    ///
    /// Match on `code()` rather than on the `#[non_exhaustive]` enum variants:
    /// new variants may be added in a minor release, but an existing code
    /// string is never renamed within a major version.
    pub fn code(&self) -> (r: &'static str)
        ensures
            r@ == spec_code(*self),
    {
        match self {
            DiagnosticKind::FormulaUnavailable => "formula_unavailable",
            DiagnosticKind::FormulaCachedValueUnverified => "formula_cached_value_unverified",
            DiagnosticKind::AmbiguousSheetMatch { .. } => "ambiguous_sheet_match",
            DiagnosticKind::UnsupportedCellValue { .. } => "unsupported_cell_value",
            DiagnosticKind::UnsupportedWorkbookFeature { .. } => "unsupported_workbook_feature",
            DiagnosticKind::UnsupportedWorkbookMetadata { .. } => "unsupported_workbook_metadata",
            DiagnosticKind::DefinedNameScopeUnknown => "defined_name_scope_unknown",
            DiagnosticKind::DateTimeNotNormalized => "datetime_not_normalized",
            DiagnosticKind::LimitTruncatedCells { .. } => "limit_truncated_cells",
            DiagnosticKind::AlignmentBoundExceeded { .. } => "alignment_bound_exceeded",
            DiagnosticKind::DuplicateAlignmentKey { .. } => "duplicate_alignment_key",
            DiagnosticKind::MissingAlignmentKey { .. } => "missing_alignment_key",
        }
    }
}

/// Different kinds never share a code.
pub proof fn lemma_codes_distinguish_kinds(a: DiagnosticKind, b: DiagnosticKind)
    requires
        spec_code(a) == spec_code(b),
    ensures
        a is FormulaUnavailable <==> b is FormulaUnavailable,
        a is FormulaCachedValueUnverified <==> b is FormulaCachedValueUnverified,
        a is AmbiguousSheetMatch <==> b is AmbiguousSheetMatch,
        a is UnsupportedCellValue <==> b is UnsupportedCellValue,
        a is UnsupportedWorkbookFeature <==> b is UnsupportedWorkbookFeature,
        a is UnsupportedWorkbookMetadata <==> b is UnsupportedWorkbookMetadata,
        a is DefinedNameScopeUnknown <==> b is DefinedNameScopeUnknown,
        a is DateTimeNotNormalized <==> b is DateTimeNotNormalized,
        a is LimitTruncatedCells <==> b is LimitTruncatedCells,
        a is AlignmentBoundExceeded <==> b is AlignmentBoundExceeded,
        a is DuplicateAlignmentKey <==> b is DuplicateAlignmentKey,
        a is MissingAlignmentKey <==> b is MissingAlignmentKey,
{
    reveal_strlit("formula_unavailable");
    reveal_strlit("formula_cached_value_unverified");
    reveal_strlit("ambiguous_sheet_match");
    reveal_strlit("unsupported_cell_value");
    reveal_strlit("unsupported_workbook_feature");
    reveal_strlit("unsupported_workbook_metadata");
    reveal_strlit("defined_name_scope_unknown");
    reveal_strlit("datetime_not_normalized");
    reveal_strlit("limit_truncated_cells");
    reveal_strlit("alignment_bound_exceeded");
    reveal_strlit("duplicate_alignment_key");
    reveal_strlit("missing_alignment_key");
    let ca = spec_code(a);
    let cb = spec_code(b);
    assert(ca.len() == cb.len());
    assert(ca[0] == cb[0]);
    assert(ca.len() > 2 ==> ca[2] == cb[2]);
    assert(ca.len() > 8 ==> ca[8] == cb[8]);
    assert(ca.len() > 14 ==> ca[14] == cb[14]);
}

/// A single structured diagnostic entry.
#[derive(Clone, PartialEq, Debug)]
#[non_exhaustive]
pub struct Diagnostic {
    pub severity: Severity,
    pub kind: DiagnosticKind,
    pub location: DiagnosticLocation,
    /// Human-readable message — for display only, not for programmatic matching.
    pub message: String,
}

/// Per-sheet summary counts.
#[derive(Clone, Default, PartialEq, Debug)]
#[non_exhaustive]
pub struct SheetSummary {
    pub cells_changed: usize,
    pub values_changed: usize,
    pub formulas_changed: usize,
}

/// Diagnostic counts rolled up at any level.
#[derive(Clone, Default, PartialEq, Debug)]
#[non_exhaustive]
pub struct DiagnosticSummary {
    pub errors: usize,
    pub warnings: usize,
    pub info: usize,
}

/// Top-level workbook diff summary.
#[derive(Clone, Default, PartialEq, Debug)]
#[non_exhaustive]
pub struct DiffSummary {
    pub sheets_added: usize,
    pub sheets_removed: usize,
    pub sheets_renamed: usize,
    pub sheets_moved: usize,
    pub sheets_changed: usize,
    pub cells_changed: usize,
    pub values_changed: usize,
    pub formulas_changed: usize,
    pub diagnostics: DiagnosticSummary,
}

/// Internal processing metrics, cumulative across the whole comparison.
#[derive(Clone, Default, PartialEq, Debug)]
#[non_exhaustive]
pub struct DiffMetrics {
    pub sheets_read: u32,
    pub cells_read: u64,
    pub cells_compared: u64,
    pub diffs_emitted: u64,
    pub diagnostics_emitted: u64,
}

/// Summary of row-alignment decisions for a sheet pair.
///
/// `None` on `SheetDiff.alignment_summary` when mode is `Positional`.
#[derive(Clone, PartialEq, Debug)]
#[non_exhaustive]
pub struct AlignmentSummary {
    pub inserted_rows: usize,
    pub removed_rows: usize,
    pub matched_rows: usize,
    pub confidence: MatchConfidence,
}

/// The diff result for one logical sheet pair.
#[derive(Clone, PartialEq, Debug)]
#[non_exhaustive]
pub struct SheetDiff {
    /// The sheet on the old side (`None` for Added sheets).
    pub old_sheet: Option<SheetRef>,
    /// The sheet on the new side (`None` for Removed sheets).
    pub new_sheet: Option<SheetRef>,
    pub change: SheetChange,
    /// Cell diffs sorted by `(row, col)`.
    pub cell_diffs: Vec<CellDiff>,
    pub compared_range: ComparedRange,
    pub alignment_summary: Option<AlignmentSummary>,
    pub diagnostics: Vec<Diagnostic>,
    pub summary: SheetSummary,
}

/// Reserved for structured workbook metadata diffs. Always empty.
#[derive(Clone, PartialEq, Debug)]
#[non_exhaustive]
pub struct WorkbookChange {}

/// Reserved for structured non-cell object diffs. Always empty.
#[derive(Clone, PartialEq, Debug)]
#[non_exhaustive]
pub struct WorkbookObjectChange {}

/// The complete diff result for a workbook pair.
#[derive(Clone, PartialEq, Debug)]
#[non_exhaustive]
pub struct WorkbookDiff {
    pub old: WorkbookSideInfo,
    pub new: WorkbookSideInfo,
    /// Sheet diffs in old-workbook sheet order (then new-workbook order for
    /// added sheets).
    pub sheets: Vec<SheetDiff>,
    /// Always empty; reserved for structured workbook-level changes.
    pub workbook_changes: Vec<WorkbookChange>,
    /// Always empty; reserved for structured object-level changes.
    pub object_changes: Vec<WorkbookObjectChange>,
    pub diagnostics: Vec<Diagnostic>,
    pub summary: DiffSummary,
    /// Processing metrics.
    pub metrics: DiffMetrics,
}

/// The summary counts of a list of sheet diffs and workbook diagnostics, as
/// unbounded integers, in the order
/// `(added, removed, renamed, moved, changed, cells, values, formulas)`.
pub open spec fn spec_sheet_counts(sheets: Seq<SheetDiff>) -> (int, int, int, int, int, int, int, int)
    decreases sheets.len(),
{
    if sheets.len() == 0 {
        (0, 0, 0, 0, 0, 0, 0, 0)
    } else {
        let rest = spec_sheet_counts(sheets.drop_last());
        let sd = sheets.last();
        let has_cells = sd.cell_diffs.len() > 0;
        let added = if sd.change is Added { 1int } else { 0 };
        let removed = if sd.change is Removed { 1int } else { 0 };
        let renamed = if sd.change is Renamed || sd.change is RenamedAndMoved { 1int } else { 0 };
        let moved = if sd.change is Moved || sd.change is RenamedAndMoved { 1int } else { 0 };
        let changed = if sd.change is Modified || ((sd.change is Renamed || sd.change
            is RenamedAndMoved || sd.change is Moved) && has_cells) {
            1int
        } else {
            0
        };
        (
            rest.0 + added,
            rest.1 + removed,
            rest.2 + renamed,
            rest.3 + moved,
            rest.4 + changed,
            rest.5 + sd.summary.cells_changed,
            rest.6 + sd.summary.values_changed,
            rest.7 + sd.summary.formulas_changed,
        )
    }
}

/// The number of diagnostics of a given severity.
pub open spec fn spec_severity_count(ds: Seq<Diagnostic>, s: Severity) -> int
    decreases ds.len(),
{
    if ds.len() == 0 {
        0
    } else {
        spec_severity_count(ds.drop_last(), s) + if ds.last().severity == s { 1int } else { 0 }
    }
}

/// The summary `derive_summary` computes.
pub open spec fn spec_summary_matches(
    r: DiffSummary,
    sheets: Seq<SheetDiff>,
    diagnostics: Seq<Diagnostic>,
) -> bool {
    let c = spec_sheet_counts(sheets);
    &&& r.sheets_added == c.0
    &&& r.sheets_removed == c.1
    &&& r.sheets_renamed == c.2
    &&& r.sheets_moved == c.3
    &&& r.sheets_changed == c.4
    &&& r.cells_changed == c.5
    &&& r.values_changed == c.6
    &&& r.formulas_changed == c.7
    &&& r.diagnostics.errors == spec_severity_count(diagnostics, Severity::Error)
    &&& r.diagnostics.warnings == spec_severity_count(diagnostics, Severity::Warning)
    &&& r.diagnostics.info == spec_severity_count(diagnostics, Severity::Info)
}

/// The counts of a list fit the counters: the cell totals fit a `usize`.
pub open spec fn spec_counts_fit(sheets: Seq<SheetDiff>) -> bool {
    let c = spec_sheet_counts(sheets);
    c.5 <= usize::MAX && c.6 <= usize::MAX && c.7 <= usize::MAX
}

pub proof fn lemma_counts_monotone(sheets: Seq<SheetDiff>, i: int)
    requires
        0 <= i <= sheets.len(),
    ensures
        spec_sheet_counts(sheets.take(i)).0 <= spec_sheet_counts(sheets).0,
        spec_sheet_counts(sheets.take(i)).1 <= spec_sheet_counts(sheets).1,
        spec_sheet_counts(sheets.take(i)).2 <= spec_sheet_counts(sheets).2,
        spec_sheet_counts(sheets.take(i)).3 <= spec_sheet_counts(sheets).3,
        spec_sheet_counts(sheets.take(i)).4 <= spec_sheet_counts(sheets).4,
        spec_sheet_counts(sheets.take(i)).5 <= spec_sheet_counts(sheets).5,
        spec_sheet_counts(sheets.take(i)).6 <= spec_sheet_counts(sheets).6,
        spec_sheet_counts(sheets.take(i)).7 <= spec_sheet_counts(sheets).7,
        spec_sheet_counts(sheets).0 <= sheets.len(),
        spec_sheet_counts(sheets).1 <= sheets.len(),
        spec_sheet_counts(sheets).2 <= sheets.len(),
        spec_sheet_counts(sheets).3 <= sheets.len(),
        spec_sheet_counts(sheets).4 <= sheets.len(),
        spec_sheet_counts(sheets.take(i)).0 >= 0,
        spec_sheet_counts(sheets.take(i)).5 >= 0,
        spec_sheet_counts(sheets.take(i)).6 >= 0,
        spec_sheet_counts(sheets.take(i)).7 >= 0,
    decreases sheets.len(),
{
    if sheets.len() > 0 {
        if i == sheets.len() {
            assert(sheets.take(i) =~= sheets);
            lemma_counts_monotone(sheets.drop_last(), i - 1);
        } else {
            assert(sheets.take(i) =~= sheets.drop_last().take(i));
            lemma_counts_monotone(sheets.drop_last(), i);
        }
    } else {
        assert(sheets.take(i) =~= sheets);
    }
}

proof fn lemma_severity_count_bounds(ds: Seq<Diagnostic>, s: Severity)
    ensures
        0 <= spec_severity_count(ds, s) <= ds.len(),
    decreases ds.len(),
{
    if ds.len() > 0 {
        lemma_severity_count_bounds(ds.drop_last(), s);
    }
}

impl WorkbookDiff {
    /// The summary of a list of sheet diffs and of the workbook-level diagnostics.
    pub fn derive_summary(sheets: &Vec<SheetDiff>, diagnostics: &Vec<Diagnostic>) -> (s: DiffSummary)
        requires
            spec_counts_fit(sheets@),
        ensures
            spec_summary_matches(s, sheets@, diagnostics@),
    {
        let mut s = DiffSummary {
            sheets_added: 0,
            sheets_removed: 0,
            sheets_renamed: 0,
            sheets_moved: 0,
            sheets_changed: 0,
            cells_changed: 0,
            values_changed: 0,
            formulas_changed: 0,
            diagnostics: DiagnosticSummary { errors: 0, warnings: 0, info: 0 },
        };
        let n = sheets.len();
        let mut i: usize = 0;
        while i < n
            invariant
                n == sheets@.len(),
                i <= n,
                spec_counts_fit(sheets@),
                ({
                    let c = spec_sheet_counts(sheets@.take(i as int));
                    &&& s.sheets_added == c.0
                    &&& s.sheets_removed == c.1
                    &&& s.sheets_renamed == c.2
                    &&& s.sheets_moved == c.3
                    &&& s.sheets_changed == c.4
                    &&& s.cells_changed == c.5
                    &&& s.values_changed == c.6
                    &&& s.formulas_changed == c.7
                }),
                s.diagnostics.errors == 0,
                s.diagnostics.warnings == 0,
                s.diagnostics.info == 0,
            decreases n - i,
        {
            let sd = &sheets[i];
            proof {
                assert(sheets@.take(i + 1).drop_last() =~= sheets@.take(i as int));
                lemma_counts_monotone(sheets@, i + 1);
                lemma_counts_monotone(sheets@.take(i + 1), i as int);
                assert(sheets@.take(i + 1).take(i as int) =~= sheets@.take(i as int));
            }
            let has_cells = sd.cell_diffs.len() > 0;
            match sd.change {
                SheetChange::Added => s.sheets_added += 1,
                SheetChange::Removed => s.sheets_removed += 1,
                SheetChange::Renamed { .. } => {
                    s.sheets_renamed += 1;
                    if has_cells {
                        s.sheets_changed += 1;
                    }
                },
                SheetChange::RenamedAndMoved { .. } => {
                    s.sheets_renamed += 1;
                    s.sheets_moved += 1;
                    if has_cells {
                        s.sheets_changed += 1;
                    }
                },
                SheetChange::Moved => {
                    s.sheets_moved += 1;
                    if has_cells {
                        s.sheets_changed += 1;
                    }
                },
                SheetChange::Modified => s.sheets_changed += 1,
                SheetChange::Unchanged => {},
            }
            s.cells_changed += sd.summary.cells_changed;
            s.values_changed += sd.summary.values_changed;
            s.formulas_changed += sd.summary.formulas_changed;
            i += 1;
        }
        assert(sheets@.take(n as int) =~= sheets@);
        let m = diagnostics.len();
        let mut j: usize = 0;
        while j < m
            invariant
                m == diagnostics@.len(),
                j <= m,
                spec_summary_matches(s, sheets@, diagnostics@.take(j as int)),
            decreases m - j,
        {
            proof {
                assert(diagnostics@.take(j + 1).drop_last() =~= diagnostics@.take(j as int));
                lemma_severity_count_bounds(diagnostics@.take(j as int), Severity::Error);
                lemma_severity_count_bounds(diagnostics@.take(j as int), Severity::Warning);
                lemma_severity_count_bounds(diagnostics@.take(j as int), Severity::Info);
            }
            match diagnostics[j].severity {
                Severity::Error => s.diagnostics.errors += 1,
                Severity::Warning => s.diagnostics.warnings += 1,
                Severity::Info => s.diagnostics.info += 1,
            }
            j += 1;
        }
        assert(diagnostics@.take(m as int) =~= diagnostics@);
        s
    }
}

} // verus!
