//! Fatal error type for all fallible entry points.

use vstd::prelude::*;

use crate::model::{spec_side_label, SheetRef, Side, SourceDescription};
use crate::strings::{push_decimal, push_str, spec_decimal, string_of};

verus! {

/// `calamine::XlsxError`, the reader's error type, declared so that it can be
/// carried opaquely and handed back to callers; nothing about its contents is
/// claimed.
#[verifier::external_type_specification]
#[verifier::external_body]
pub struct ExXlsxError(calamine::XlsxError);

/// Why a workbook could not be opened.
#[derive(Clone, Copy, PartialEq, Eq, Debug, Structural)]
#[non_exhaustive]
pub enum OpenErrorKind {
    NotFound,
    PermissionDenied,
    /// The bytes are not a valid ZIP / xlsx container.
    NotXlsx,
    /// Structurally valid ZIP, but xlsx internals are corrupt.
    Corrupt,
    /// File is locked or busy (OS-level).
    Locked,
    Other,
}

/// The message text of an open-error kind.
pub open spec fn spec_open_kind_text(k: OpenErrorKind) -> Seq<char> {
    match k {
        OpenErrorKind::NotFound => "file not found"@,
        OpenErrorKind::PermissionDenied => "permission denied"@,
        OpenErrorKind::NotXlsx => "not an xlsx file"@,
        OpenErrorKind::Corrupt => "file is corrupt"@,
        OpenErrorKind::Locked => "file is locked"@,
        OpenErrorKind::Other => "open failed"@,
    }
}

impl OpenErrorKind {
    /// The message text of this kind.
    pub fn text(&self) -> (r: &'static str)
        ensures
            r@ == spec_open_kind_text(*self),
    {
        match self {
            OpenErrorKind::NotFound => "file not found",
            OpenErrorKind::PermissionDenied => "permission denied",
            OpenErrorKind::NotXlsx => "not an xlsx file",
            OpenErrorKind::Corrupt => "file is corrupt",
            OpenErrorKind::Locked => "file is locked",
            OpenErrorKind::Other => "open failed",
        }
    }
}

/// Why a sheet could not be read.
#[derive(Clone, Copy, PartialEq, Eq, Debug, Structural)]
#[non_exhaustive]
pub enum ReadErrorKind {
    SheetNotFound,
    MalformedSheet,
    Other,
}

/// The message text of a read-error kind.
pub open spec fn spec_read_kind_text(k: ReadErrorKind) -> Seq<char> {
    match k {
        ReadErrorKind::SheetNotFound => "sheet not found"@,
        ReadErrorKind::MalformedSheet => "sheet is malformed"@,
        ReadErrorKind::Other => "read failed"@,
    }
}

impl ReadErrorKind {
    /// The message text of this kind.
    pub fn text(&self) -> (r: &'static str)
        ensures
            r@ == spec_read_kind_text(*self),
    {
        match self {
            ReadErrorKind::SheetNotFound => "sheet not found",
            ReadErrorKind::MalformedSheet => "sheet is malformed",
            ReadErrorKind::Other => "read failed",
        }
    }
}

/// Which resource limit was exceeded.
#[derive(Clone, Copy, PartialEq, Eq, Debug, Structural)]
pub enum LimitKind {
    Sheets,
    CellsRead,
    CellsCompared,
    DiffsReturned,
    InputBytes,
}

/// The option name of a limit kind.
pub open spec fn spec_limit_text(k: LimitKind) -> Seq<char> {
    match k {
        LimitKind::Sheets => "max_sheets"@,
        LimitKind::CellsRead => "max_cells_read"@,
        LimitKind::CellsCompared => "max_cells_compared"@,
        LimitKind::DiffsReturned => "max_diffs_returned"@,
        LimitKind::InputBytes => "max_input_bytes"@,
    }
}

impl LimitKind {
    /// The option name of this limit.
    pub fn text(&self) -> (r: &'static str)
        ensures
            r@ == spec_limit_text(*self),
    {
        match self {
            LimitKind::Sheets => "max_sheets",
            LimitKind::CellsRead => "max_cells_read",
            LimitKind::CellsCompared => "max_cells_compared",
            LimitKind::DiffsReturned => "max_diffs_returned",
            LimitKind::InputBytes => "max_input_bytes",
        }
    }
}

/// What an I/O error was about, as far as opening a workbook cares.
#[derive(Clone, Copy, PartialEq, Eq, Debug, Structural)]
pub enum IoErrorClass {
    NotFound,
    PermissionDenied,
    Other,
}

/// The variant of a reader error, as far as classification cares.
#[derive(Clone, Copy, PartialEq, Eq, Debug, Structural)]
pub enum XlsxErrorClass {
    /// The workbook is password-protected.
    Password,
    /// A part of the container is missing.
    FileNotFound,
    /// An I/O failure.
    Io(IoErrorClass),
    /// The bytes are not a ZIP container.
    Zip,
    /// The named worksheet does not exist.
    WorksheetNotFound,
    /// Any other failure.
    Other,
}

/// Opaque owner of the reader's original error, reachable as the error's source.
pub struct CalamiLineError(pub calamine::XlsxError);

/// Fatal error returned by every entry point.
#[non_exhaustive]
pub enum SheetsDiffError {
    /// A workbook could not be opened or parsed.
    OpenWorkbook {
        side: Side,
        source: SourceDescription,
        kind: OpenErrorKind,
        inner: Option<Box<CalamiLineError>>,
    },
    /// A specific sheet inside an opened workbook could not be read.
    ReadSheet {
        side: Side,
        sheet: SheetRef,
        kind: ReadErrorKind,
        inner: Option<Box<CalamiLineError>>,
    },
    /// The bytes/reader are a valid ZIP but not a recognised xlsx workbook.
    UnsupportedFormat { side: Side, detail: String },
    /// The workbook is password-protected.
    EncryptedWorkbook { side: Side },
    /// A `DiffOptions` combination is invalid; detected before any I/O.
    InvalidOptions { detail: String },
    /// The caller's cancellation predicate returned `true`.
    Cancelled,
    /// A configured `Limits` bound was reached.
    LimitExceeded { limit: LimitKind, observed: u64 },
    /// An internal programming error.
    Internal { detail: String },
}

/// The open-error kind of a reader error.
pub open spec fn spec_classify_open(c: XlsxErrorClass) -> OpenErrorKind {
    match c {
        XlsxErrorClass::Password => OpenErrorKind::NotXlsx,
        XlsxErrorClass::FileNotFound => OpenErrorKind::NotFound,
        XlsxErrorClass::Io(IoErrorClass::NotFound) => OpenErrorKind::NotFound,
        XlsxErrorClass::Io(IoErrorClass::PermissionDenied) => OpenErrorKind::PermissionDenied,
        XlsxErrorClass::Io(IoErrorClass::Other) => OpenErrorKind::Other,
        XlsxErrorClass::Zip => OpenErrorKind::NotXlsx,
        _ => OpenErrorKind::Corrupt,
    }
}

/// The read-error kind of a reader error.
pub open spec fn spec_classify_read(c: XlsxErrorClass) -> ReadErrorKind {
    match c {
        XlsxErrorClass::WorksheetNotFound => ReadErrorKind::SheetNotFound,
        _ => ReadErrorKind::MalformedSheet,
    }
}

/// Classify a reader error met while opening a workbook.
pub fn classify_open_error(c: XlsxErrorClass) -> (k: OpenErrorKind)
    ensures
        k == spec_classify_open(c),
{
    match c {
        XlsxErrorClass::Password => OpenErrorKind::NotXlsx,
        XlsxErrorClass::FileNotFound => OpenErrorKind::NotFound,
        XlsxErrorClass::Io(io) => match io {
            IoErrorClass::NotFound => OpenErrorKind::NotFound,
            IoErrorClass::PermissionDenied => OpenErrorKind::PermissionDenied,
            IoErrorClass::Other => OpenErrorKind::Other,
        },
        XlsxErrorClass::Zip => OpenErrorKind::NotXlsx,
        _ => OpenErrorKind::Corrupt,
    }
}

/// Classify a reader error met while reading a sheet.
pub fn classify_read_error(c: XlsxErrorClass) -> (k: ReadErrorKind)
    ensures
        k == spec_classify_read(c),
{
    match c {
        XlsxErrorClass::WorksheetNotFound => ReadErrorKind::SheetNotFound,
        _ => ReadErrorKind::MalformedSheet,
    }
}

impl SheetsDiffError {
    /// The error for a workbook that could not be opened; a password-protected
    /// workbook is reported as `EncryptedWorkbook`.
    pub fn from_open_error(
        side: Side,
        source: SourceDescription,
        class: XlsxErrorClass,
        inner: Option<Box<CalamiLineError>>,
    ) -> (r: Self)
        ensures
            class is Password ==> r == (SheetsDiffError::EncryptedWorkbook { side }),
            !(class is Password) ==> r == (SheetsDiffError::OpenWorkbook {
                side,
                source,
                kind: spec_classify_open(class),
                inner,
            }),
    {
        if let XlsxErrorClass::Password = class {
            SheetsDiffError::EncryptedWorkbook { side }
        } else {
            SheetsDiffError::OpenWorkbook { side, source, kind: classify_open_error(class), inner }
        }
    }

    /// The error for a sheet that could not be read.
    pub fn read_sheet(
        side: Side,
        sheet: SheetRef,
        class: XlsxErrorClass,
        inner: Option<Box<CalamiLineError>>,
    ) -> (r: Self)
        ensures
            r == (SheetsDiffError::ReadSheet { side, sheet, kind: spec_classify_read(class), inner }),
    {
        SheetsDiffError::ReadSheet { side, sheet, kind: classify_read_error(class), inner }
    }

    /// The human-readable message of this error.
    pub fn message(&self) -> (r: String)
        ensures
            r@ == spec_error_message(*self),
    {
        match self {
            SheetsDiffError::OpenWorkbook { side, source, kind, .. } => {
                let mut m = string_of("cannot open ");
                push_str(&mut m, side.label());
                push_str(&mut m, " workbook '");
                match &source.display_name {
                    Some(n) => push_str(&mut m, n.as_str()),
                    None => push_str(&mut m, "<unknown>"),
                }
                push_str(&mut m, "': ");
                push_str(&mut m, kind.text());
                m
            },
            SheetsDiffError::ReadSheet { side, sheet, kind, .. } => {
                let mut m = string_of("cannot read sheet '");
                push_str(&mut m, sheet.name.as_str());
                push_str(&mut m, "' from ");
                push_str(&mut m, side.label());
                push_str(&mut m, " workbook: ");
                push_str(&mut m, kind.text());
                m
            },
            SheetsDiffError::UnsupportedFormat { side, detail } => {
                let mut m = string_of(side.label());
                push_str(&mut m, " workbook is not a supported xlsx format: ");
                push_str(&mut m, detail.as_str());
                m
            },
            SheetsDiffError::EncryptedWorkbook { side } => {
                let mut m = string_of(side.label());
                push_str(&mut m, " workbook is password-protected");
                m
            },
            SheetsDiffError::InvalidOptions { detail } => {
                let mut m = string_of("invalid options: ");
                push_str(&mut m, detail.as_str());
                m
            },
            SheetsDiffError::Cancelled => string_of("comparison was cancelled"),
            SheetsDiffError::LimitExceeded { limit, observed } => {
                let mut m = string_of("limit '");
                push_str(&mut m, limit.text());
                push_str(&mut m, "' exceeded (observed ");
                push_decimal(&mut m, *observed);
                push_str(&mut m, ")");
                m
            },
            SheetsDiffError::Internal { detail } => {
                let mut m = string_of("internal error: ");
                push_str(&mut m, detail.as_str());
                m
            },
        }
    }
}

/// The message of an error, as its `Display` text reads.
pub open spec fn spec_error_message(e: SheetsDiffError) -> Seq<char> {
    match e {
        SheetsDiffError::OpenWorkbook { side, source, kind, .. } => "cannot open "@ + spec_side_label(
            side,
        ) + " workbook '"@ + match source.display_name {
            Some(n) => n@,
            None => "<unknown>"@,
        } + "': "@ + spec_open_kind_text(kind),
        SheetsDiffError::ReadSheet { side, sheet, kind, .. } => "cannot read sheet '"@ + sheet.name@
            + "' from "@ + spec_side_label(side) + " workbook: "@ + spec_read_kind_text(kind),
        SheetsDiffError::UnsupportedFormat { side, detail } => spec_side_label(side)
            + " workbook is not a supported xlsx format: "@ + detail@,
        SheetsDiffError::EncryptedWorkbook { side } => spec_side_label(side)
            + " workbook is password-protected"@,
        SheetsDiffError::InvalidOptions { detail } => "invalid options: "@ + detail@,
        SheetsDiffError::Cancelled => "comparison was cancelled"@,
        SheetsDiffError::LimitExceeded { limit, observed } => "limit '"@ + spec_limit_text(limit)
            + "' exceeded (observed "@ + spec_decimal(observed as nat) + ")"@,
        SheetsDiffError::Internal { detail } => "internal error: "@ + detail@,
    }
}

} // verus!
