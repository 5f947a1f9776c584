//! Non-cell workbook objects: which sheets are not worksheets, and a coverage
//! note saying what is not compared.
//!
//! The reader exposes no object content (charts, images, comments, tables,
//! pivot tables, hyperlinks, data validation); it does expose each sheet's
//! type and visibility.

use vstd::prelude::*;

use crate::model::{Diagnostic, DiagnosticKind, DiagnosticLocation, DiffStage, Severity};
use crate::options::ObjectCompareMode;
use crate::strings::{push_str, string_of};

verus! {

/// The type of a sheet in a workbook.
#[derive(Clone, Copy, PartialEq, Eq, Debug, Structural)]
pub enum SheetKind {
    WorkSheet,
    ChartSheet,
    MacroSheet,
    Vba,
    DialogSheet,
}

/// Whether a sheet is shown.
#[derive(Clone, Copy, PartialEq, Eq, Debug, Structural)]
pub enum SheetVisibility {
    Visible,
    Hidden,
    VeryHidden,
}

/// A sheet's name, type and visibility, in workbook order.
pub struct SheetMeta {
    pub name: String,
    pub kind: SheetKind,
    pub visible: SheetVisibility,
}

/// The label of a sheet type whose content is not compared.
pub open spec fn spec_kind_label(k: SheetKind) -> Option<Seq<char>> {
    match k {
        SheetKind::ChartSheet => Some("chart sheet"@),
        SheetKind::MacroSheet => Some("macro sheet"@),
        SheetKind::Vba => Some("VBA module"@),
        SheetKind::DialogSheet => Some("dialog sheet"@),
        SheetKind::WorkSheet => None,
    }
}

fn kind_label(k: SheetKind) -> (r: Option<&'static str>)
    ensures
        match r {
            Some(s) => spec_kind_label(k) == Some(s@),
            None => spec_kind_label(k) is None,
        },
{
    match k {
        SheetKind::ChartSheet => Some("chart sheet"),
        SheetKind::MacroSheet => Some("macro sheet"),
        SheetKind::Vba => Some("VBA module"),
        SheetKind::DialogSheet => Some("dialog sheet"),
        SheetKind::WorkSheet => None,
    }
}

/// The message about a sheet whose content is not compared.
pub open spec fn spec_kind_message(name: Seq<char>, label: Seq<char>) -> Seq<char> {
    "sheet '"@ + name + "' is a "@ + label + " — content not compared (calamine 0.35 does not expose "@
        + label + " data)"@
}

/// `d` warns that sheet `index`, described by `m`, is not a worksheet.
pub open spec fn spec_is_kind_diag(d: Diagnostic, index: int, m: SheetMeta) -> bool {
    let label = spec_kind_label(m.kind)->0;
    &&& d.severity == Severity::Warning
    &&& d.kind matches DiagnosticKind::UnsupportedWorkbookFeature { feature } && feature@ == label
    &&& d.location.stage == DiffStage::Metadata
    &&& d.location.sheet_order == Some(index as usize)
    &&& d.location.sheet_name == Some(m.name)
    &&& d.location.address is None
    &&& d.message@ == spec_kind_message(m.name@, label)
}

/// The positions, among the first `k`, of the sheets that are not worksheets.
pub open spec fn spec_flagged(metas: Seq<SheetMeta>, k: int) -> Seq<int>
    decreases k,
{
    if k <= 0 {
        Seq::empty()
    } else {
        let p = spec_flagged(metas, k - 1);
        if spec_kind_label(metas[k - 1].kind) is Some {
            p.push(k - 1)
        } else {
            p
        }
    }
}

/// `after` is `before` with one warning per flagged sheet, in order.
pub open spec fn spec_kind_diags(before: Seq<Diagnostic>, after: Seq<Diagnostic>, metas: Seq<SheetMeta>) -> bool {
    let fl = spec_flagged(metas, metas.len() as int);
    &&& after.len() == before.len() + fl.len()
    &&& after.take(before.len() as int) == before
    &&& forall|j: int| 0 <= j < fl.len() ==> spec_is_kind_diag(#[trigger] after[before.len() + j], fl[j], metas[fl[j]])
}

/// Warns about every sheet that is not a worksheet: its content is not compared.
pub fn detect_non_worksheet_sheets(metas: &Vec<SheetMeta>, diagnostics: &mut Vec<Diagnostic>)
    ensures
        spec_kind_diags(old(diagnostics)@, final(diagnostics)@, metas@),
{
    let ghost before = diagnostics@;
    let n = metas.len();
    let mut i: usize = 0;
    proof {
        assert(diagnostics@.take(before.len() as int) =~= before);
    }
    while i < n
        invariant
            n == metas@.len(),
            i <= n,
            before == old(diagnostics)@,
            ({
                let fl = spec_flagged(metas@, i as int);
                &&& diagnostics@.len() == before.len() + fl.len()
                &&& diagnostics@.take(before.len() as int) == before
                &&& forall|j: int| 0 <= j < fl.len() ==> spec_is_kind_diag(#[trigger] diagnostics@[before.len() + j], fl[j], metas@[fl[j]])
            }),
        decreases n - i,
    {
        let m = &metas[i];
        match kind_label(m.kind) {
            Some(label) => {
                let ghost prev = diagnostics@;
                let mut msg = string_of("sheet '");
                push_str(&mut msg, m.name.as_str());
                push_str(&mut msg, "' is a ");
                push_str(&mut msg, label);
                push_str(&mut msg, " — content not compared (calamine 0.35 does not expose ");
                push_str(&mut msg, label);
                push_str(&mut msg, " data)");
                diagnostics.push(Diagnostic {
                    severity: Severity::Warning,
                    kind: DiagnosticKind::UnsupportedWorkbookFeature { feature: string_of(label) },
                    location: DiagnosticLocation {
                        stage: DiffStage::Metadata,
                        sheet_order: Some(i),
                        sheet_name: Some(m.name.clone()),
                        address: None,
                    },
                    message: msg,
                });
                proof {
                    assert(msg@ =~= spec_kind_message(m.name@, label@));
                    let fl = spec_flagged(metas@, i + 1);
                    assert(fl == spec_flagged(metas@, i as int).push(i as int));
                    assert forall|j: int| 0 <= j < fl.len() implies spec_is_kind_diag(#[trigger] diagnostics@[before.len() + j], fl[j], metas@[fl[j]]) by {
                        if j < fl.len() - 1 {
                            assert(diagnostics@[before.len() + j] == prev[before.len() + j]);
                        }
                    }
                    assert(diagnostics@.take(before.len() as int) =~= before);
                }
            },
            None => {},
        }
        i += 1;
    }
}

/// The message of the coverage note.
pub open spec fn spec_coverage_message() -> Seq<char> {
    "charts, images, comments, hyperlinks, tables, pivot tables, data validation, and conditional formatting are not compared in this version (calamine 0.35 does not expose object content)"@
}

/// `d` is the note saying which objects are not compared.
pub open spec fn spec_is_coverage_note(d: Diagnostic) -> bool {
    &&& d.severity == Severity::Info
    &&& d.kind matches DiagnosticKind::UnsupportedWorkbookFeature { feature } && feature@ == "non-cell objects"@
    &&& d.location == (DiagnosticLocation {
        stage: DiffStage::Metadata,
        sheet_order: None,
        sheet_name: None,
        address: None,
    })
    &&& d.message@ == spec_coverage_message()
}

/// Appends the note saying which objects are not compared.
pub fn emit_coverage_note(diagnostics: &mut Vec<Diagnostic>)
    ensures
        final(diagnostics)@ == old(diagnostics)@.push(final(diagnostics)@.last()),
        spec_is_coverage_note(final(diagnostics)@.last()),
{
    diagnostics.push(Diagnostic {
        severity: Severity::Info,
        kind: DiagnosticKind::UnsupportedWorkbookFeature { feature: string_of("non-cell objects") },
        location: DiagnosticLocation {
            stage: DiffStage::Metadata,
            sheet_order: None,
            sheet_name: None,
            address: None,
        },
        message: string_of(
            "charts, images, comments, hyperlinks, tables, pivot tables, data validation, and conditional formatting are not compared in this version (calamine 0.35 does not expose object content)",
        ),
    });
}

/// The coverage diagnostics of a workbook pair: nothing when objects are
/// ignored; else a warning per non-worksheet sheet of each side, then the note.
pub open spec fn spec_coverage_diags(
    before: Seq<Diagnostic>,
    after: Seq<Diagnostic>,
    old_metas: Seq<SheetMeta>,
    new_metas: Seq<SheetMeta>,
    mode: ObjectCompareMode,
) -> bool {
    if mode is Ignore {
        after == before
    } else {
        exists|mid: Seq<Diagnostic>| #[trigger] spec_kind_diags(before, mid, old_metas)
            && spec_kind_diags(mid, after.drop_last(), new_metas) && after.len() > 0
            && spec_is_coverage_note(after.last())
    }
}

/// Reports the workbooks' non-cell objects as diagnostics.
pub fn report_object_coverage(
    old_metas: &Vec<SheetMeta>,
    new_metas: &Vec<SheetMeta>,
    mode: ObjectCompareMode,
    diagnostics: &mut Vec<Diagnostic>,
)
    ensures
        spec_coverage_diags(old(diagnostics)@, final(diagnostics)@, old_metas@, new_metas@, mode),
{
    if let ObjectCompareMode::Ignore = mode {
        return;
    }
    detect_non_worksheet_sheets(old_metas, diagnostics);
    let ghost mid = diagnostics@;
    detect_non_worksheet_sheets(new_metas, diagnostics);
    let ghost pre_note = diagnostics@;
    emit_coverage_note(diagnostics);
    proof {
        assert(diagnostics@.drop_last() =~= pre_note);
        assert(spec_kind_diags(old(diagnostics)@, mid, old_metas@));
    }
}

} // verus!
