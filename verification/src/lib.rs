pub mod address;
pub mod error;
pub mod model;
pub mod options;
pub mod strings;
pub mod compare;
pub mod matcher;
pub mod cells;
pub mod align;
pub mod row_order;
pub mod diff;
pub mod objects;
pub mod meta;
pub mod open;
pub mod pipeline;
pub mod output;
pub mod grid;
pub mod verdict;

pub use error::{LimitKind, OpenErrorKind, ReadErrorKind, SheetsDiffError};
pub use model::{
    AlignmentSummary, CellChangeKind, CellDateTime, CellDiff, CellDisplay, CellDuration, CellError,
    CellNumberFormat, CellSnapshot, CellValue, DateTimeKind, Diagnostic, DiagnosticKind,
    DiagnosticLocation, DiagnosticSummary, DiffMetrics, DiffStage, DiffSummary, DisplaySource,
    FormatChange, FormulaChange, FormulaText, MatchConfidence, Severity, SheetChange, SheetDiff,
    SheetMatchReason, SheetRef, SheetSummary, Side, SourceDescription, SourceKind, ValueChange,
    ValueDifferenceKind, WorkbookChange, WorkbookDiff, WorkbookObjectChange, WorkbookSideInfo,
};
pub use address::{CellAddress, ComparedRange, MAX_COL, MAX_COL_LABEL, MAX_ROW};
pub use options::{
    AlignmentMode, Cancellation, ComparisonOptions, DateComparePolicy, DiagnosticOptions,
    DiffEvent, DiffOptions, DiffOptionsBuilder, ExecutionMode, ExecutionOptions,
    FormulaCompareMode, Limits, MatchingOptions, NumberComparePolicy, NumericTypePolicy,
    ObjectCompareMode, OutputOptions, ProgressSink, SheetMatchingMode, TypeMismatchPolicy,
    ValueCompareOptions,
};
