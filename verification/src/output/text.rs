//! Human-readable text renderers. Pure formatters: no comparison logic.

use vstd::prelude::*;

use crate::model::{
    spec_code, spec_display, CellDiff, Diagnostic, Severity, SheetChange, SheetDiff, SheetRef,
    WorkbookDiff,
};
use crate::strings::{push_char, push_decimal, push_str, spec_decimal};

verus! {

/// Appends the decimal rendering of `n`, which may exceed `u64`.
fn push_decimal_wide(out: &mut String, n: u128)
    ensures
        final(out)@ == old(out)@ + spec_decimal(n as nat),
    decreases n,
{
    if n < 10 {
        push_char(out, crate::strings::digit_char(n as u64));
        assert(old(out)@.push(crate::strings::spec_digit(n as nat)) =~= old(out)@ + spec_decimal(n as nat));
    } else {
        push_decimal_wide(out, n / 10);
        push_char(out, crate::strings::digit_char((n % 10) as u64));
        assert(old(out)@ + spec_decimal(n as nat) =~= (old(out)@ + spec_decimal((n / 10) as nat)).push(
            crate::strings::spec_digit((n % 10) as nat),
        ));
    }
}

/// The display name of a side, or `fallback` when it has none.
pub open spec fn spec_name_or(name: Option<String>, fallback: Seq<char>) -> Seq<char> {
    match name {
        Some(n) => n@,
        None => fallback,
    }
}

/// A sheet diff's label: the new sheet's name, else the old one's, else `?`.
pub open spec fn spec_sheet_label(sd: SheetDiff) -> Seq<char> {
    match sd.new_sheet {
        Some(s) => s.name@,
        None => match sd.old_sheet {
            Some(s) => s.name@,
            None => "?"@,
        },
    }
}

fn sheet_label(sd: &SheetDiff) -> (r: &str)
    ensures
        r@ == spec_sheet_label(*sd),
{
    match &sd.new_sheet {
        Some(s) => s.name.as_str(),
        None => match &sd.old_sheet {
            Some(s) => s.name.as_str(),
            None => "?",
        },
    }
}

/// The tag of a sheet's change in the summary; `None` for an unchanged sheet.
pub open spec fn spec_change_tag(c: SheetChange) -> Option<Seq<char>> {
    match c {
        SheetChange::Added => Some(" [added]"@),
        SheetChange::Removed => Some(" [removed]"@),
        SheetChange::Renamed { .. } => Some(" [renamed]"@),
        SheetChange::RenamedAndMoved { .. } => Some(" [renamed+moved]"@),
        SheetChange::Moved => Some(" [moved]"@),
        SheetChange::Unchanged => None,
        SheetChange::Modified => Some(""@),
    }
}

/// A sheet's summary line: shown for a changed sheet, except a `Modified`
/// one (whose tag is empty) without cell changes.
pub open spec fn spec_sheet_line(sd: SheetDiff) -> Seq<char> {
    match spec_change_tag(sd.change) {
        None => Seq::empty(),
        Some(tag) => if sd.summary.cells_changed > 0 || !(sd.change is Modified) {
            "  sheet '"@ + spec_sheet_label(sd) + "'"@ + tag + ": "@ + spec_decimal(sd.summary.cells_changed as nat)
                + " cell(s) changed\n"@
        } else {
            Seq::empty()
        },
    }
}

/// The summary lines of the first `k` sheets.
pub open spec fn spec_sheet_lines(sheets: Seq<SheetDiff>, k: int) -> Seq<char>
    decreases k,
{
    if k <= 0 || k > sheets.len() {
        Seq::empty()
    } else {
        spec_sheet_lines(sheets, k - 1) + spec_sheet_line(sheets[k - 1])
    }
}

/// The text of the summary report.
pub open spec fn spec_summary_text(d: WorkbookDiff) -> Seq<char> {
    let s = d.summary;
    "sheets-diff: "@ + spec_name_or(d.old.source.display_name, "old"@) + "  →  "@ + spec_name_or(d.new.source.display_name, "new"@) + "\n"@
        + "  sheets : "@ + spec_decimal(s.sheets_added as nat) + " added, "@ + spec_decimal(s.sheets_removed as nat)
        + " removed, "@ + spec_decimal(s.sheets_renamed as nat) + " renamed, "@ + spec_decimal(s.sheets_moved as nat)
        + " moved, "@ + spec_decimal(s.sheets_changed as nat) + " changed\n"@
        + "  cells  : "@ + spec_decimal(s.cells_changed as nat) + " changed ("@ + spec_decimal(s.values_changed as nat)
        + " value, "@ + spec_decimal(s.formulas_changed as nat) + " formula)\n"@
        + (if s.diagnostics.errors > 0 || s.diagnostics.warnings > 0 {
        "  diagnostics: "@ + spec_decimal(s.diagnostics.errors as nat) + " error(s), "@ + spec_decimal(
            s.diagnostics.warnings as nat,
        ) + " warning(s)\n"@
    } else {
        Seq::empty()
    }) + spec_sheet_lines(d.sheets@, d.sheets@.len() as int)
}

fn write_sheet_line(out: &mut String, sd: &SheetDiff)
    ensures
        final(out)@ == old(out)@ + spec_sheet_line(*sd),
{
    let tag: &str = match sd.change {
        SheetChange::Added => " [added]",
        SheetChange::Removed => " [removed]",
        SheetChange::Renamed { .. } => " [renamed]",
        SheetChange::RenamedAndMoved { .. } => " [renamed+moved]",
        SheetChange::Moved => " [moved]",
        SheetChange::Unchanged => {
            assert(old(out)@ + spec_sheet_line(*sd) =~= old(out)@);
            return;
        },
        SheetChange::Modified => "",
    };
    let cells = sd.summary.cells_changed;
    let modified = match sd.change {
        SheetChange::Modified => true,
        _ => false,
    };
    if cells > 0 || !modified {
        push_str(out, "  sheet '");
        push_str(out, sheet_label(sd));
        push_str(out, "'");
        push_str(out, tag);
        push_str(out, ": ");
        push_decimal(out, cells as u64);
        push_str(out, " cell(s) changed\n");
        assert(final(out)@ =~= old(out)@ + spec_sheet_line(*sd));
    } else {
        assert(old(out)@ + spec_sheet_line(*sd) =~= old(out)@);
    }
}

fn name_or<'a>(name: &'a Option<String>, fallback: &'a str) -> (r: &'a str)
    ensures
        r@ == spec_name_or(*name, fallback@),
{
    match name {
        Some(n) => n.as_str(),
        None => fallback,
    }
}

/// Renders a compact human-readable summary of a `WorkbookDiff`.
pub fn render_summary(diff: &WorkbookDiff) -> (out: String)
    ensures
        out@ == spec_summary_text(*diff),
{
    let mut out = String::new();
    let s = &diff.summary;
    push_str(&mut out, "sheets-diff: ");
    push_str(&mut out, name_or(&diff.old.source.display_name, "old"));
    push_str(&mut out, "  →  ");
    push_str(&mut out, name_or(&diff.new.source.display_name, "new"));
    push_str(&mut out, "\n");
    push_str(&mut out, "  sheets : ");
    push_decimal(&mut out, s.sheets_added as u64);
    push_str(&mut out, " added, ");
    push_decimal(&mut out, s.sheets_removed as u64);
    push_str(&mut out, " removed, ");
    push_decimal(&mut out, s.sheets_renamed as u64);
    push_str(&mut out, " renamed, ");
    push_decimal(&mut out, s.sheets_moved as u64);
    push_str(&mut out, " moved, ");
    push_decimal(&mut out, s.sheets_changed as u64);
    push_str(&mut out, " changed\n");
    push_str(&mut out, "  cells  : ");
    push_decimal(&mut out, s.cells_changed as u64);
    push_str(&mut out, " changed (");
    push_decimal(&mut out, s.values_changed as u64);
    push_str(&mut out, " value, ");
    push_decimal(&mut out, s.formulas_changed as u64);
    push_str(&mut out, " formula)\n");
    if s.diagnostics.errors > 0 || s.diagnostics.warnings > 0 {
        push_str(&mut out, "  diagnostics: ");
        push_decimal(&mut out, s.diagnostics.errors as u64);
        push_str(&mut out, " error(s), ");
        push_decimal(&mut out, s.diagnostics.warnings as u64);
        push_str(&mut out, " warning(s)\n");
    }
    let ghost head = out@;
    let mut k: usize = 0;
    while k < diff.sheets.len()
        invariant
            k <= diff.sheets@.len(),
            out@ == head + spec_sheet_lines(diff.sheets@, k as int),
        decreases diff.sheets@.len() - k,
    {
        write_sheet_line(&mut out, &diff.sheets[k]);
        k += 1;
        assert(out@ =~= head + spec_sheet_lines(diff.sheets@, k as int));
    }
    assert(out@ =~= spec_summary_text(*diff));
    out
}

/// A sheet's 1-based tab position, or `?` without a sheet.
pub open spec fn spec_position(s: Option<SheetRef>) -> Seq<char> {
    match s {
        Some(r) => spec_decimal((r.index + 1) as nat),
        None => "?"@,
    }
}

/// A sheet's name, or `?` without a sheet.
pub open spec fn spec_name_of(s: Option<SheetRef>) -> Seq<char> {
    match s {
        Some(r) => r.name@,
        None => "?"@,
    }
}

/// The line describing a sheet's change in the unified diff.
pub open spec fn spec_change_line(sd: SheetDiff) -> Seq<char> {
    let o = spec_name_of(sd.old_sheet);
    let n = spec_name_of(sd.new_sheet);
    let op = spec_position(sd.old_sheet);
    let np = spec_position(sd.new_sheet);
    match sd.change {
        SheetChange::Added => "+[sheet added]\n"@,
        SheetChange::Removed => "-[sheet removed]\n"@,
        SheetChange::Renamed { .. } => " [renamed: '"@ + o + "' → '"@ + n + "']\n"@,
        SheetChange::RenamedAndMoved { .. } => " [renamed: '"@ + o + "' → '"@ + n + "'; moved: position "@ + op + " → "@ + np
            + "]\n"@,
        SheetChange::Moved => " [moved: position "@ + op + " → "@ + np + "]\n"@,
        _ => Seq::empty(),
    }
}

/// The value lines of a cell diff: the old value, then the new one.
pub open spec fn spec_value_lines(cd: CellDiff) -> Seq<char> {
    let a = cd.address.a1@;
    match cd.value {
        Some(vc) => "-"@ + a + "\t"@ + spec_display(vc.old) + "\n"@ + "+"@ + a + "\t"@ + spec_display(vc.new) + "\n"@,
        None => Seq::empty(),
    }
}

/// The text of an optional formula, empty when absent.
pub open spec fn spec_formula_raw(f: Option<crate::model::FormulaText>) -> Seq<char> {
    match f {
        Some(t) => t.raw@,
        None => Seq::empty(),
    }
}

/// The formula lines of a cell diff: a side's line only when it has text, or
/// when the formula was removed or added there.
pub open spec fn spec_formula_lines(cd: CellDiff) -> Seq<char> {
    let a = cd.address.a1@;
    match cd.formula {
        Some(fc) => {
            let of = spec_formula_raw(fc.old);
            let nf = spec_formula_raw(fc.new);
            (if of.len() > 0 || (fc.old is None && fc.new is Some) {
                "-"@ + a + "~\t"@ + of + "\n"@
            } else {
                Seq::empty()
            }) + if nf.len() > 0 || (fc.new is None && fc.old is Some) {
                "+"@ + a + "~\t"@ + nf + "\n"@
            } else {
                Seq::empty()
            }
        },
        None => Seq::empty(),
    }
}

/// The lines of a cell diff: its value lines, then its formula lines.
pub open spec fn spec_cell_text(cd: CellDiff) -> Seq<char> {
    spec_value_lines(cd) + spec_formula_lines(cd)
}

/// The lines of the first `k` cell diffs.
pub open spec fn spec_cells_text(cds: Seq<CellDiff>, k: int) -> Seq<char>
    decreases k,
{
    if k <= 0 || k > cds.len() {
        Seq::empty()
    } else {
        spec_cells_text(cds, k - 1) + spec_cell_text(cds[k - 1])
    }
}

/// A sheet's part of the unified diff; nothing for an unchanged sheet without
/// cell diffs.
pub open spec fn spec_unified_sheet(sd: SheetDiff) -> Seq<char> {
    if sd.change is Unchanged && sd.cell_diffs@.len() == 0 {
        Seq::empty()
    } else {
        "@@ sheet: "@ + spec_sheet_label(sd) + " @@\n"@ + spec_change_line(sd) + spec_cells_text(sd.cell_diffs@, sd.cell_diffs@.len() as int)
    }
}

/// The unified-diff parts of the first `k` sheets.
pub open spec fn spec_unified_sheets(sheets: Seq<SheetDiff>, k: int) -> Seq<char>
    decreases k,
{
    if k <= 0 || k > sheets.len() {
        Seq::empty()
    } else {
        spec_unified_sheets(sheets, k - 1) + spec_unified_sheet(sheets[k - 1])
    }
}

/// The diagnostic is shown: a warning or an error.
pub open spec fn spec_shown(d: Diagnostic) -> bool {
    d.severity is Warning || d.severity is Error
}

/// A shown diagnostic's line.
pub open spec fn spec_diag_line(d: Diagnostic) -> Seq<char> {
    "  ["@ + (if d.severity is Error { "ERROR"@ } else { "WARN"@ }) + "] "@ + spec_code(d.kind) + " — "@ + d.message@ + "\n"@
}

/// The lines of the shown diagnostics among the first `k`, and how many there are.
pub open spec fn spec_diag_lines(ds: Seq<Diagnostic>, k: int) -> (Seq<char>, nat)
    decreases k,
{
    if k <= 0 || k > ds.len() {
        (Seq::empty(), 0)
    } else {
        let p = spec_diag_lines(ds, k - 1);
        if spec_shown(ds[k - 1]) {
            (p.0 + spec_diag_line(ds[k - 1]), p.1 + 1)
        } else {
            p
        }
    }
}

/// The diagnostics section: a heading and the shown diagnostics, if any.
pub open spec fn spec_diag_section(ds: Seq<Diagnostic>) -> Seq<char> {
    let p = spec_diag_lines(ds, ds.len() as int);
    if p.1 > 0 {
        "\n# Diagnostics\n"@ + p.0
    } else {
        Seq::empty()
    }
}

/// The text of the unified diff.
pub open spec fn spec_unified_text(d: WorkbookDiff) -> Seq<char> {
    "--- "@ + spec_name_or(d.old.source.display_name, "old"@) + "\n"@ + "+++ "@ + spec_name_or(d.new.source.display_name, "new"@)
        + "\n"@ + spec_unified_sheets(d.sheets@, d.sheets@.len() as int) + spec_diag_section(d.diagnostics@)
}

fn push_position(out: &mut String, s: &Option<SheetRef>)
    ensures
        final(out)@ == old(out)@ + spec_position(*s),
{
    match s {
        Some(r) => push_decimal_wide(out, r.index as u128 + 1),
        None => push_str(out, "?"),
    }
}

fn name_of(s: &Option<SheetRef>) -> (r: &str)
    ensures
        r@ == spec_name_of(*s),
{
    match s {
        Some(r) => r.name.as_str(),
        None => "?",
    }
}

fn write_value_lines(out: &mut String, cd: &CellDiff)
    ensures
        final(out)@ == old(out)@ + spec_value_lines(*cd),
{
    let addr = cd.address.a1.as_str();
    if let Some(vc) = &cd.value {
        push_str(out, "-");
        push_str(out, addr);
        push_str(out, "\t");
        let o = vc.old.display_string();
        push_str(out, o.as_str());
        push_str(out, "\n");
        push_str(out, "+");
        push_str(out, addr);
        push_str(out, "\t");
        let n = vc.new.display_string();
        push_str(out, n.as_str());
        push_str(out, "\n");
    }
    assert(out@ =~= old(out)@ + spec_value_lines(*cd));
}

fn formula_raw(f: &Option<crate::model::FormulaText>) -> (r: &str)
    ensures
        r@ == spec_formula_raw(*f),
{
    proof {
        reveal_strlit("");
    }
    match f {
        Some(t) => t.raw.as_str(),
        None => "",
    }
}

fn write_formula_lines(out: &mut String, cd: &CellDiff)
    ensures
        final(out)@ == old(out)@ + spec_formula_lines(*cd),
{
    let addr = cd.address.a1.as_str();
    if let Some(fc) = &cd.formula {
        let old_f = formula_raw(&fc.old);
        let new_f = formula_raw(&fc.new);
        let ghost start = out@;
        if !old_f.is_empty() || (fc.old.is_none() && fc.new.is_some()) {
            push_str(out, "-");
            push_str(out, addr);
            push_str(out, "~\t");
            push_str(out, old_f);
            push_str(out, "\n");
        }
        let ghost mid = out@;
        if !new_f.is_empty() || (fc.new.is_none() && fc.old.is_some()) {
            push_str(out, "+");
            push_str(out, addr);
            push_str(out, "~\t");
            push_str(out, new_f);
            push_str(out, "\n");
        }
        assert(out@ =~= start + spec_formula_lines(*cd));
    } else {
        assert(out@ =~= old(out)@ + spec_formula_lines(*cd));
    }
}

fn write_cell_diff(out: &mut String, cd: &CellDiff)
    ensures
        final(out)@ == old(out)@ + spec_cell_text(*cd),
{
    write_value_lines(out, cd);
    write_formula_lines(out, cd);
    assert(out@ =~= old(out)@ + spec_cell_text(*cd));
}

fn write_change_line(out: &mut String, sd: &SheetDiff)
    ensures
        final(out)@ == old(out)@ + spec_change_line(*sd),
{
    match sd.change {
        SheetChange::Added => push_str(out, "+[sheet added]\n"),
        SheetChange::Removed => push_str(out, "-[sheet removed]\n"),
        SheetChange::Renamed { .. } => {
            push_str(out, " [renamed: '");
            push_str(out, name_of(&sd.old_sheet));
            push_str(out, "' → '");
            push_str(out, name_of(&sd.new_sheet));
            push_str(out, "']\n");
        },
        SheetChange::RenamedAndMoved { .. } => {
            push_str(out, " [renamed: '");
            push_str(out, name_of(&sd.old_sheet));
            push_str(out, "' → '");
            push_str(out, name_of(&sd.new_sheet));
            push_str(out, "'; moved: position ");
            push_position(out, &sd.old_sheet);
            push_str(out, " → ");
            push_position(out, &sd.new_sheet);
            push_str(out, "]\n");
        },
        SheetChange::Moved => {
            push_str(out, " [moved: position ");
            push_position(out, &sd.old_sheet);
            push_str(out, " → ");
            push_position(out, &sd.new_sheet);
            push_str(out, "]\n");
        },
        _ => {},
    }
    assert(out@ =~= old(out)@ + spec_change_line(*sd));
}

fn write_unified_sheet(out: &mut String, sd: &SheetDiff)
    ensures
        final(out)@ == old(out)@ + spec_unified_sheet(*sd),
{
    let unchanged = match sd.change {
        SheetChange::Unchanged => true,
        _ => false,
    };
    if unchanged && sd.cell_diffs.len() == 0 {
        assert(old(out)@ + spec_unified_sheet(*sd) =~= old(out)@);
        return;
    }
    push_str(out, "@@ sheet: ");
    push_str(out, sheet_label(sd));
    push_str(out, " @@\n");
    write_change_line(out, sd);
    let ghost head = out@;
    let mut k: usize = 0;
    while k < sd.cell_diffs.len()
        invariant
            k <= sd.cell_diffs@.len(),
            out@ == head + spec_cells_text(sd.cell_diffs@, k as int),
        decreases sd.cell_diffs@.len() - k,
    {
        write_cell_diff(out, &sd.cell_diffs[k]);
        k += 1;
        assert(out@ =~= head + spec_cells_text(sd.cell_diffs@, k as int));
    }
    assert(out@ =~= old(out)@ + spec_unified_sheet(*sd));
}

fn write_diagnostics_section(out: &mut String, diagnostics: &Vec<Diagnostic>)
    ensures
        final(out)@ == old(out)@ + spec_diag_section(diagnostics@),
{
    let mut lines = String::new();
    let mut shown: usize = 0;
    let mut k: usize = 0;
    while k < diagnostics.len()
        invariant
            k <= diagnostics@.len(),
            lines@ == spec_diag_lines(diagnostics@, k as int).0,
            shown == spec_diag_lines(diagnostics@, k as int).1,
            shown <= k,
        decreases diagnostics@.len() - k,
    {
        let d = &diagnostics[k];
        let prefix: Option<&str> = match d.severity {
            Severity::Error => Some("ERROR"),
            Severity::Warning => Some("WARN"),
            Severity::Info => None,
        };
        if let Some(p) = prefix {
            let ghost before = lines@;
            push_str(&mut lines, "  [");
            push_str(&mut lines, p);
            push_str(&mut lines, "] ");
            push_str(&mut lines, d.kind.code());
            push_str(&mut lines, " — ");
            push_str(&mut lines, d.message.as_str());
            push_str(&mut lines, "\n");
            shown += 1;
            assert(lines@ =~= before + spec_diag_line(*d));
        }
        k += 1;
    }
    if shown > 0 {
        push_str(out, "\n# Diagnostics\n");
        push_str(out, lines.as_str());
    }
    assert(out@ =~= old(out)@ + spec_diag_section(diagnostics@));
}

/// Renders a unified-style diff showing each cell's old and new values.
pub fn render_unified(diff: &WorkbookDiff) -> (out: String)
    ensures
        out@ == spec_unified_text(*diff),
{
    let mut out = String::new();
    push_str(&mut out, "--- ");
    push_str(&mut out, name_or(&diff.old.source.display_name, "old"));
    push_str(&mut out, "\n");
    push_str(&mut out, "+++ ");
    push_str(&mut out, name_or(&diff.new.source.display_name, "new"));
    push_str(&mut out, "\n");
    let ghost head = out@;
    let mut k: usize = 0;
    while k < diff.sheets.len()
        invariant
            k <= diff.sheets@.len(),
            out@ == head + spec_unified_sheets(diff.sheets@, k as int),
        decreases diff.sheets@.len() - k,
    {
        write_unified_sheet(&mut out, &diff.sheets[k]);
        k += 1;
        assert(out@ =~= head + spec_unified_sheets(diff.sheets@, k as int));
    }
    write_diagnostics_section(&mut out, &diff.diagnostics);
    assert(out@ =~= spec_unified_text(*diff));
    out
}

} // verus!