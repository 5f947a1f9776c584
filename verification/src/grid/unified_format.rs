//! A unified-diff presentation of a grid diff.

use vstd::prelude::*;

use crate::grid::diff::{spec_kind_text, CellDiff, Diff, SheetCellDiff, SheetDiff};
use crate::strings::{push_decimal, push_str, spec_decimal, string_of};

verus! {

/// A unified diff, ready to be formatted or split.
pub struct UnifiedDiff {
    pub content: Vec<UnifiedDiffContent>,
}

/// A unified diff with its prefix markers applied.
pub struct FormattedUnifiedDiff {
    pub content: Vec<UnifiedDiffContent>,
}

/// One sheet's part of a unified diff.
pub struct UnifiedDiffContent {
    pub old_title: String,
    pub new_title: String,
    pub lines: Vec<UnifiedDiffLine>,
}

/// One line of a unified diff.
pub struct UnifiedDiffLine {
    pub pos: Option<String>,
    pub old: Option<String>,
    pub new: Option<String>,
}

/// A unified diff split into its old and new views.
pub struct SplitUnifiedDiff {
    pub old: Vec<SplitUnifiedDiffContent>,
    pub new: Vec<SplitUnifiedDiffContent>,
}

/// One sheet's part of one side of a split unified diff.
pub struct SplitUnifiedDiffContent {
    pub title: String,
    pub lines: Vec<SplitUnifiedDiffLine>,
}

/// One line of one side of a split unified diff.
pub struct SplitUnifiedDiffLine {
    pub pos: Option<String>,
    pub text: Option<String>,
}

/// An optional text as plain characters.
pub open spec fn spec_opt(s: Option<String>) -> Option<Seq<char>> {
    match s {
        Some(t) => Some(t@),
        None => None,
    }
}

/// A prefixed optional text.
pub open spec fn spec_prefixed(p: Seq<char>, s: Option<Seq<char>>, q: Seq<char>) -> Option<Seq<char>> {
    match s {
        Some(t) => Some(p + t + q),
        None => None,
    }
}

/// A line as plain values.
pub open spec fn spec_line(l: UnifiedDiffLine) -> (Option<Seq<char>>, Option<Seq<char>>, Option<Seq<char>>) {
    (spec_opt(l.pos), spec_opt(l.old), spec_opt(l.new))
}

/// A content as plain values.
pub open spec fn spec_content(c: UnifiedDiffContent) -> (Seq<char>, Seq<char>, Seq<(Option<Seq<char>>, Option<Seq<char>>, Option<Seq<char>>)>) {
    (c.old_title@, c.new_title@, c.lines@.map_values(|l: UnifiedDiffLine| spec_line(l)))
}

/// A split content as plain values.
pub open spec fn spec_split_content(c: SplitUnifiedDiffContent) -> (Seq<char>, Seq<(Option<Seq<char>>, Option<Seq<char>>)>) {
    (c.title@, c.lines@.map_values(|l: SplitUnifiedDiffLine| (spec_opt(l.pos), spec_opt(l.text))))
}

/// The formatted form of a line: `@@ pos @@`, `- old`, `+ new`.
pub open spec fn spec_format_line(l: (Option<Seq<char>>, Option<Seq<char>>, Option<Seq<char>>)) -> (Option<Seq<char>>, Option<Seq<char>>, Option<Seq<char>>) {
    (spec_prefixed("@@ "@, l.0, " @@"@), spec_prefixed("- "@, l.1, ""@), spec_prefixed("+ "@, l.2, ""@))
}

/// The formatted form of a content: `--- ` and `+++ ` titles, formatted lines.
pub open spec fn spec_format_content(c: (Seq<char>, Seq<char>, Seq<(Option<Seq<char>>, Option<Seq<char>>, Option<Seq<char>>)>)) -> (Seq<char>, Seq<char>, Seq<(Option<Seq<char>>, Option<Seq<char>>, Option<Seq<char>>)>) {
    ("--- "@ + c.0, "+++ "@ + c.1, c.2.map_values(|l: (Option<Seq<char>>, Option<Seq<char>>, Option<Seq<char>>)| spec_format_line(l)))
}

fn prefixed(p: &str, s: &Option<String>, q: &str) -> (r: Option<String>)
    ensures
        spec_opt(r) == spec_prefixed(p@, spec_opt(*s), q@),
{
    match s {
        Some(t) => {
            let mut out = string_of(p);
            push_str(&mut out, t.as_str());
            push_str(&mut out, q);
            Some(out)
        },
        None => None,
    }
}

fn copy_opt(s: &Option<String>) -> (r: Option<String>)
    ensures
        spec_opt(r) == spec_opt(*s),
{
    match s {
        Some(t) => Some(t.clone()),
        None => None,
    }
}

impl UnifiedDiff {
    /// Applies the `---`/`+++`/`-`/`+`/`@@` markers to every field.
    pub fn format(&self) -> (r: FormattedUnifiedDiff)
        ensures
            r.content@.map_values(|c: UnifiedDiffContent| spec_content(c)) == self.content@.map_values(
                |c: UnifiedDiffContent| spec_format_content(spec_content(c)),
            ),
    {
        let mut content: Vec<UnifiedDiffContent> = Vec::new();
        let mut i: usize = 0;
        while i < self.content.len()
            invariant
                i <= self.content@.len(),
                content@.len() == i,
                forall|q: int| 0 <= q < i ==> spec_content(#[trigger] content@[q]) == spec_format_content(spec_content(self.content@[q])),
            decreases self.content@.len() - i,
        {
            let x = &self.content[i];
            let mut old_title = string_of("--- ");
            push_str(&mut old_title, x.old_title.as_str());
            let mut new_title = string_of("+++ ");
            push_str(&mut new_title, x.new_title.as_str());
            let mut lines: Vec<UnifiedDiffLine> = Vec::new();
            let mut k: usize = 0;
            proof {
                reveal_strlit("");
            }
            while k < x.lines.len()
                invariant
                    k <= x.lines@.len(),
                    lines@.len() == k,
                    forall|q: int| 0 <= q < k ==> spec_line(#[trigger] lines@[q]) == spec_format_line(spec_line(x.lines@[q])),
                decreases x.lines@.len() - k,
            {
                let l = &x.lines[k];
                lines.push(UnifiedDiffLine {
                    pos: prefixed("@@ ", &l.pos, " @@"),
                    old: prefixed("- ", &l.old, ""),
                    new: prefixed("+ ", &l.new, ""),
                });
                k += 1;
            }
            proof {
                assert(lines@.map_values(|l: UnifiedDiffLine| spec_line(l)) =~= spec_content(*x).2.map_values(
                    |l: (Option<Seq<char>>, Option<Seq<char>>, Option<Seq<char>>)| spec_format_line(l),
                ));
            }
            content.push(UnifiedDiffContent { old_title, new_title, lines });
            i += 1;
        }
        proof {
            assert(content@.map_values(|c: UnifiedDiffContent| spec_content(c)) =~= self.content@.map_values(
                |c: UnifiedDiffContent| spec_format_content(spec_content(c)),
            ));
        }
        FormattedUnifiedDiff { content }
    }

    /// Splits into the old view (old titles and texts) and the new view.
    pub fn split(&self) -> (r: SplitUnifiedDiff)
        ensures
            r.old@.map_values(|c: SplitUnifiedDiffContent| spec_split_content(c)) == self.content@.map_values(
                |c: UnifiedDiffContent| (c.old_title@, c.lines@.map_values(|l: UnifiedDiffLine| (spec_opt(l.pos), spec_opt(l.old)))),
            ),
            r.new@.map_values(|c: SplitUnifiedDiffContent| spec_split_content(c)) == self.content@.map_values(
                |c: UnifiedDiffContent| (c.new_title@, c.lines@.map_values(|l: UnifiedDiffLine| (spec_opt(l.pos), spec_opt(l.new)))),
            ),
    {
        let mut old: Vec<SplitUnifiedDiffContent> = Vec::new();
        let mut new: Vec<SplitUnifiedDiffContent> = Vec::new();
        let mut i: usize = 0;
        while i < self.content.len()
            invariant
                i <= self.content@.len(),
                old@.len() == i,
                new@.len() == i,
                forall|q: int| 0 <= q < i ==> spec_split_content(#[trigger] old@[q]) == ({
                    let c = self.content@[q];
                    (c.old_title@, c.lines@.map_values(|l: UnifiedDiffLine| (spec_opt(l.pos), spec_opt(l.old))))
                }),
                forall|q: int| 0 <= q < i ==> spec_split_content(#[trigger] new@[q]) == ({
                    let c = self.content@[q];
                    (c.new_title@, c.lines@.map_values(|l: UnifiedDiffLine| (spec_opt(l.pos), spec_opt(l.new))))
                }),
            decreases self.content@.len() - i,
        {
            let x = &self.content[i];
            let mut ol: Vec<SplitUnifiedDiffLine> = Vec::new();
            let mut nl: Vec<SplitUnifiedDiffLine> = Vec::new();
            let mut k: usize = 0;
            while k < x.lines.len()
                invariant
                    k <= x.lines@.len(),
                    ol@.len() == k,
                    nl@.len() == k,
                    forall|q: int| 0 <= q < k ==> (spec_opt((#[trigger] ol@[q]).pos), spec_opt(ol@[q].text)) == (spec_opt(x.lines@[q].pos), spec_opt(x.lines@[q].old)),
                    forall|q: int| 0 <= q < k ==> (spec_opt((#[trigger] nl@[q]).pos), spec_opt(nl@[q].text)) == (spec_opt(x.lines@[q].pos), spec_opt(x.lines@[q].new)),
                decreases x.lines@.len() - k,
            {
                let l = &x.lines[k];
                ol.push(SplitUnifiedDiffLine { pos: copy_opt(&l.pos), text: copy_opt(&l.old) });
                nl.push(SplitUnifiedDiffLine { pos: copy_opt(&l.pos), text: copy_opt(&l.new) });
                k += 1;
            }
            proof {
                assert(ol@.map_values(|l: SplitUnifiedDiffLine| (spec_opt(l.pos), spec_opt(l.text))) =~= x.lines@.map_values(
                    |l: UnifiedDiffLine| (spec_opt(l.pos), spec_opt(l.old)),
                ));
                assert(nl@.map_values(|l: SplitUnifiedDiffLine| (spec_opt(l.pos), spec_opt(l.text))) =~= x.lines@.map_values(
                    |l: UnifiedDiffLine| (spec_opt(l.pos), spec_opt(l.new)),
                ));
            }
            old.push(SplitUnifiedDiffContent { title: x.old_title.clone(), lines: ol });
            new.push(SplitUnifiedDiffContent { title: x.new_title.clone(), lines: nl });
            i += 1;
        }
        proof {
            assert(old@.map_values(|c: SplitUnifiedDiffContent| spec_split_content(c)) =~= self.content@.map_values(
                |c: UnifiedDiffContent| (c.old_title@, c.lines@.map_values(|l: UnifiedDiffLine| (spec_opt(l.pos), spec_opt(l.old)))),
            ));
            assert(new@.map_values(|c: SplitUnifiedDiffContent| spec_split_content(c)) =~= self.content@.map_values(
                |c: UnifiedDiffContent| (c.new_title@, c.lines@.map_values(|l: UnifiedDiffLine| (spec_opt(l.pos), spec_opt(l.new)))),
            ));
        }
        SplitUnifiedDiff { old, new }
    }
}

/// An optional text's line, or nothing.
pub open spec fn spec_opt_line(s: Option<Seq<char>>) -> Seq<char> {
    match s {
        Some(t) => t + "\n"@,
        None => Seq::empty(),
    }
}

/// The text of the lines: each line's position, old and new text, where present.
pub open spec fn spec_lines_text(ls: Seq<(Option<Seq<char>>, Option<Seq<char>>, Option<Seq<char>>)>, k: int) -> Seq<char>
    decreases k,
{
    if k <= 0 || k > ls.len() {
        Seq::empty()
    } else {
        spec_lines_text(ls, k - 1) + spec_opt_line(ls[k - 1].0) + spec_opt_line(ls[k - 1].1) + spec_opt_line(ls[k - 1].2)
    }
}

/// The text of the first `k` contents: each one's titles, then its lines.
pub open spec fn spec_contents_text(cs: Seq<UnifiedDiffContent>, k: int) -> Seq<char>
    decreases k,
{
    if k <= 0 || k > cs.len() {
        Seq::empty()
    } else {
        let c = spec_content(cs[k - 1]);
        spec_contents_text(cs, k - 1) + c.0 + "\n"@ + c.1 + "\n"@ + spec_lines_text(c.2, c.2.len() as int)
    }
}

fn push_opt_line(out: &mut String, s: &Option<String>)
    ensures
        final(out)@ == old(out)@ + spec_opt_line(spec_opt(*s)),
{
    match s {
        Some(t) => {
            push_str(out, t.as_str());
            push_str(out, "\n");
        },
        None => {},
    }
    assert(out@ =~= old(out)@ + spec_opt_line(spec_opt(*s)));
}

impl FormattedUnifiedDiff {
    /// The unified diff as plain text, one field per line.
    pub fn to_text(&self) -> (r: String)
        ensures
            r@ == spec_contents_text(self.content@, self.content@.len() as int),
    {
        let mut out = String::new();
        let mut i: usize = 0;
        while i < self.content.len()
            invariant
                i <= self.content@.len(),
                out@ == spec_contents_text(self.content@, i as int),
            decreases self.content@.len() - i,
        {
            let x = &self.content[i];
            let ghost head = out@;
            push_str(&mut out, x.old_title.as_str());
            push_str(&mut out, "\n");
            push_str(&mut out, x.new_title.as_str());
            push_str(&mut out, "\n");
            let ghost mid = out@;
            let ghost ls = spec_content(*x).2;
            let mut k: usize = 0;
            while k < x.lines.len()
                invariant
                    k <= x.lines@.len(),
                    ls == x.lines@.map_values(|l: UnifiedDiffLine| spec_line(l)),
                    out@ == mid + spec_lines_text(ls, k as int),
                decreases x.lines@.len() - k,
            {
                let l = &x.lines[k];
                push_opt_line(&mut out, &l.pos);
                push_opt_line(&mut out, &l.old);
                push_opt_line(&mut out, &l.new);
                k += 1;
                proof {
                    assert(ls[k - 1] == spec_line(x.lines@[k - 1]));
                    assert(out@ =~= mid + spec_lines_text(ls, k as int));
                }
            }
            i += 1;
            assert(out@ =~= spec_contents_text(self.content@, i as int));
        }
        out
    }
}

/// The position text of a cell diff: `"{addr}({row},{col}) {kind}"`.
pub open spec fn spec_pos_text(c: CellDiff) -> Seq<char> {
    c.addr@ + "("@ + spec_decimal(c.row as nat) + ","@ + spec_decimal(c.col as nat) + ") "@ + spec_kind_text(c.kind)
}

/// `u` is the unified diff of `d`: the sheets only one side has (titled with
/// `(sheet names)`), then each sheet's cell diffs (titled with `[sheet]`).
pub open spec fn spec_unified_of(u: Seq<UnifiedDiffContent>, d: Diff) -> bool {
    let has_sheets = d.sheet_diff@.len() > 0;
    let base: int = if has_sheets { 1 } else { 0 };
    &&& u.len() == base + d.cell_diffs@.len()
    &&& has_sheets ==> {
        let c = u[0];
        &&& c.old_title@ == d.old_filepath@ + " (sheet names)"@
        &&& c.new_title@ == d.new_filepath@ + " (sheet names)"@
        &&& c.lines@.map_values(|l: UnifiedDiffLine| spec_line(l)) == d.sheet_diff@.map_values(
            |s: SheetDiff| (None::<Seq<char>>, spec_opt(s.old), spec_opt(s.new)),
        )
    }
    &&& forall|k: int| 0 <= k < d.cell_diffs@.len() ==> {
        let c = #[trigger] u[base + k];
        let e = d.cell_diffs@[k];
        &&& c.old_title@ == d.old_filepath@ + " ["@ + e.sheet@ + "]"@
        &&& c.new_title@ == d.new_filepath@ + " ["@ + e.sheet@ + "]"@
        &&& c.lines@.map_values(|l: UnifiedDiffLine| spec_line(l)) == e.cells@.map_values(
            |x: CellDiff| (Some(spec_pos_text(x)), spec_opt(x.old), spec_opt(x.new)),
        )
    }
}

fn titled(label: &String, mid: &str, name: &str, end: &str) -> (r: String)
    ensures
        r@ == label@ + mid@ + name@ + end@,
{
    let mut s = label.clone();
    push_str(&mut s, mid);
    push_str(&mut s, name);
    push_str(&mut s, end);
    s
}

fn cell_lines(cells: &Vec<CellDiff>) -> (r: Vec<UnifiedDiffLine>)
    ensures
        r@.map_values(|l: UnifiedDiffLine| spec_line(l)) == cells@.map_values(
            |x: CellDiff| (Some(spec_pos_text(x)), spec_opt(x.old), spec_opt(x.new)),
        ),
{
    let mut lines: Vec<UnifiedDiffLine> = Vec::new();
    let mut k: usize = 0;
    while k < cells.len()
        invariant
            k <= cells@.len(),
            lines@.len() == k,
            forall|q: int| 0 <= q < k ==> spec_line(#[trigger] lines@[q]) == (Some(spec_pos_text(cells@[q])), spec_opt(cells@[q].old), spec_opt(cells@[q].new)),
        decreases cells@.len() - k,
    {
        let x = &cells[k];
        let mut pos = x.addr.clone();
        push_str(&mut pos, "(");
        push_decimal(&mut pos, x.row as u64);
        push_str(&mut pos, ",");
        push_decimal(&mut pos, x.col as u64);
        push_str(&mut pos, ") ");
        push_str(&mut pos, x.kind.text());
        proof {
            assert(pos@ =~= spec_pos_text(*x));
        }
        lines.push(UnifiedDiffLine { pos: Some(pos), old: copy_opt(&x.old), new: copy_opt(&x.new) });
        k += 1;
    }
    assert(lines@.map_values(|l: UnifiedDiffLine| spec_line(l)) =~= cells@.map_values(
        |x: CellDiff| (Some(spec_pos_text(x)), spec_opt(x.old), spec_opt(x.new)),
    ));
    lines
}

/// Builds the unified diff of a grid diff (see `spec_unified_of`).
pub fn unified_diff(diff: &Diff) -> (r: UnifiedDiff)
    ensures
        spec_unified_of(r.content@, *diff),
{
    let mut ret: Vec<UnifiedDiffContent> = Vec::new();
    if diff.sheet_diff.len() > 0 {
        let mut lines: Vec<UnifiedDiffLine> = Vec::new();
        let mut k: usize = 0;
        while k < diff.sheet_diff.len()
            invariant
                k <= diff.sheet_diff@.len(),
                lines@.len() == k,
                forall|q: int| 0 <= q < k ==> spec_line(#[trigger] lines@[q]) == (None::<Seq<char>>, spec_opt(diff.sheet_diff@[q].old), spec_opt(diff.sheet_diff@[q].new)),
            decreases diff.sheet_diff@.len() - k,
        {
            let x = &diff.sheet_diff[k];
            lines.push(UnifiedDiffLine { pos: None, old: copy_opt(&x.old), new: copy_opt(&x.new) });
            k += 1;
        }
        proof {
            assert(lines@.map_values(|l: UnifiedDiffLine| spec_line(l)) =~= diff.sheet_diff@.map_values(
                |s: SheetDiff| (None::<Seq<char>>, spec_opt(s.old), spec_opt(s.new)),
            ));
        }
        let mut old_title = diff.old_filepath.clone();
        push_str(&mut old_title, " (sheet names)");
        let mut new_title = diff.new_filepath.clone();
        push_str(&mut new_title, " (sheet names)");
        ret.push(UnifiedDiffContent { old_title, new_title, lines });
    }
    let ghost base = ret@.len();
    let mut i: usize = 0;
    while i < diff.cell_diffs.len()
        invariant
            i <= diff.cell_diffs@.len(),
            base == (if diff.sheet_diff@.len() > 0 { 1int } else { 0int }),
            ret@.len() == base + i,
            diff.sheet_diff@.len() > 0 ==> {
                let c = ret@[0];
                &&& c.old_title@ == diff.old_filepath@ + " (sheet names)"@
                &&& c.new_title@ == diff.new_filepath@ + " (sheet names)"@
                &&& c.lines@.map_values(|l: UnifiedDiffLine| spec_line(l)) == diff.sheet_diff@.map_values(
                    |s: SheetDiff| (None::<Seq<char>>, spec_opt(s.old), spec_opt(s.new)),
                )
            },
            forall|k: int| 0 <= k < i ==> {
                let c = #[trigger] ret@[base + k];
                let e = diff.cell_diffs@[k];
                &&& c.old_title@ == diff.old_filepath@ + " ["@ + e.sheet@ + "]"@
                &&& c.new_title@ == diff.new_filepath@ + " ["@ + e.sheet@ + "]"@
                &&& c.lines@.map_values(|l: UnifiedDiffLine| spec_line(l)) == e.cells@.map_values(
                    |x: CellDiff| (Some(spec_pos_text(x)), spec_opt(x.old), spec_opt(x.new)),
                )
            },
        decreases diff.cell_diffs@.len() - i,
    {
        let x = &diff.cell_diffs[i];
        let lines = cell_lines(&x.cells);
        let old_title = titled(&diff.old_filepath, " [", x.sheet.as_str(), "]");
        let new_title = titled(&diff.new_filepath, " [", x.sheet.as_str(), "]");
        let ghost before = ret@;
        ret.push(UnifiedDiffContent { old_title, new_title, lines });
        proof {
            assert(ret@[0] == before[0] || before.len() == 0);
            assert forall|k: int| 0 <= k < i + 1 implies ({
                let c = #[trigger] ret@[base + k];
                let e = diff.cell_diffs@[k];
                &&& c.old_title@ == diff.old_filepath@ + " ["@ + e.sheet@ + "]"@
                &&& c.new_title@ == diff.new_filepath@ + " ["@ + e.sheet@ + "]"@
                &&& c.lines@.map_values(|l: UnifiedDiffLine| spec_line(l)) == e.cells@.map_values(
                    |x: CellDiff| (Some(spec_pos_text(x)), spec_opt(x.old), spec_opt(x.new)),
                )
            }) by {
                if k < i {
                    assert(ret@[base + k] == before[base + k]);
                }
            }
        }
        i += 1;
    }
    UnifiedDiff { content: ret }
}

} // verus!
