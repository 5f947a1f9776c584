//! Workbook-level metadata comparison: defined names and sheet visibility.
//!
//! Defined names carry no scope from the reader, so they are matched by their
//! lower-cased name only, and an informational diagnostic says so.

use vstd::prelude::*;

use crate::model::{Diagnostic, DiagnosticKind, DiagnosticLocation, DiffStage, Severity, WorkbookChange};
use crate::objects::{SheetMeta, SheetVisibility};
use crate::strings::{push_str, str_equal, string_of};

verus! {

/// `a` sorts strictly before `b`: lexicographically by character, which is
/// also the order of their UTF-8 bytes.
pub open spec fn spec_lex_lt(a: Seq<char>, b: Seq<char>) -> bool
    decreases a.len(),
{
    if a.len() == 0 {
        b.len() > 0
    } else if b.len() == 0 {
        false
    } else if a[0] != b[0] {
        (a[0] as u32) < (b[0] as u32)
    } else {
        spec_lex_lt(a.drop_first(), b.drop_first())
    }
}

/// Whether `a` sorts strictly before `b` under `String`'s `<`
/// (`PartialOrd::lt`), which compares the UTF-8 bytes lexicographically. The
/// claim: that is `spec_lex_lt` of the two texts, since UTF-8 byte order is
/// the order of the characters' code points.
#[verifier::external_body]
pub(crate) fn str_less(a: &String, b: &String) -> (r: bool)
    ensures
        r == spec_lex_lt(a@, b@),
{
    a < b
}

/// What `str::to_lowercase` returns for a text.
pub uninterp spec fn spec_lowercase(s: Seq<char>) -> Seq<char>;

/// The lower-case form of a text, by `str::to_lowercase`. The claim: the
/// result depends on the text alone (it is `spec_lowercase` of it); nothing
/// is stated of which characters change.
#[verifier::external_body]
fn lowercase(s: &str) -> (r: String)
    ensures
        r@ == spec_lowercase(s@),
{
    s.to_lowercase()
}

/// A table of texts keyed by text, as plain values.
pub open spec fn spec_table_view(t: Seq<(String, String)>) -> Seq<(Seq<char>, Seq<char>)> {
    t.map_values(|e: (String, String)| (e.0@, e.1@))
}

/// The first position at or after `from` whose key does not sort before `k`.
pub open spec fn spec_slot(t: Seq<(Seq<char>, Seq<char>)>, k: Seq<char>, from: int) -> int
    decreases t.len() - from,
{
    if from < 0 || from >= t.len() {
        t.len() as int
    } else if spec_lex_lt(t[from].0, k) {
        spec_slot(t, k, from + 1)
    } else {
        from
    }
}

/// The table with `k` set to `v`: the entry replaced where `k` is at its
/// slot, else inserted there.
pub open spec fn spec_put(t: Seq<(Seq<char>, Seq<char>)>, k: Seq<char>, v: Seq<char>) -> Seq<(Seq<char>, Seq<char>)> {
    let p = spec_slot(t, k, 0);
    if p < t.len() && t[p].0 == k {
        t.update(p, (k, v))
    } else {
        t.insert(p, (k, v))
    }
}

/// The table of a list of `(key, value)` pairs: each put in turn, so that the
/// last value of a key wins and keys come in order.
pub open spec fn spec_table(pairs: Seq<(Seq<char>, Seq<char>)>) -> Seq<(Seq<char>, Seq<char>)>
    decreases pairs.len(),
{
    if pairs.len() == 0 {
        Seq::empty()
    } else {
        spec_put(spec_table(pairs.drop_last()), pairs.last().0, pairs.last().1)
    }
}

/// The value of the first entry whose key is `k`, at or after `from`.
pub open spec fn spec_lookup(t: Seq<(Seq<char>, Seq<char>)>, k: Seq<char>, from: int) -> Option<Seq<char>>
    decreases t.len() - from,
{
    if from < 0 || from >= t.len() {
        None
    } else if t[from].0 == k {
        Some(t[from].1)
    } else {
        spec_lookup(t, k, from + 1)
    }
}

fn table_put(t: &mut Vec<(String, String)>, k: String, v: String)
    ensures
        spec_table_view(final(t)@) == spec_put(spec_table_view(old(t)@), k@, v@),
{
    let ghost tv = spec_table_view(t@);
    let mut p: usize = 0;
    while p < t.len() && str_less(&t[p].0, &k)
        invariant
            p <= t@.len(),
            tv == spec_table_view(t@),
            spec_slot(tv, k@, 0) == spec_slot(tv, k@, p as int),
        decreases t@.len() - p,
    {
        proof {
            assert(tv[p as int] == (t@[p as int].0@, t@[p as int].1@));
        }
        p += 1;
    }
    proof {
        if p < t@.len() {
            assert(tv[p as int] == (t@[p as int].0@, t@[p as int].1@));
        }
    }
    if p < t.len() && str_equal(&t[p].0, &k) {
        let ghost kv = k@;
        let ghost vv = v@;
        t.set(p, (k, v));
        proof {
            assert(spec_table_view(t@) =~= tv.update(p as int, (kv, vv)));
        }
    } else {
        let ghost kv = k@;
        let ghost vv = v@;
        t.insert(p, (k, v));
        proof {
            assert(spec_table_view(t@) =~= tv.insert(p as int, (kv, vv)));
        }
    }
}

fn table_lookup(t: &Vec<(String, String)>, k: &String) -> (r: Option<usize>)
    ensures
        match r {
            Some(i) => i < t@.len() && spec_lookup(spec_table_view(t@), k@, 0) == Some(t@[i as int].1@),
            None => spec_lookup(spec_table_view(t@), k@, 0) is None,
        },
{
    let ghost tv = spec_table_view(t@);
    let mut i: usize = 0;
    while i < t.len()
        invariant
            i <= t@.len(),
            tv == spec_table_view(t@),
            spec_lookup(tv, k@, 0) == spec_lookup(tv, k@, i as int),
        decreases t@.len() - i,
    {
        proof {
            assert(tv[i as int] == (t@[i as int].0@, t@[i as int].1@));
        }
        if str_equal(&t[i].0, k) {
            return Some(i);
        }
        i += 1;
    }
    None
}

/// The defined names as `(lower-cased name, target)` pairs.
pub open spec fn spec_name_pairs(names: Seq<(String, String)>) -> Seq<(Seq<char>, Seq<char>)> {
    names.map_values(|e: (String, String)| (spec_lowercase(e.0@), e.1@))
}

/// `d` is the informational diagnostic of a metadata difference.
pub open spec fn spec_is_meta_diag(d: Diagnostic, category: Seq<char>, sheet: Option<Seq<char>>, message: Seq<char>) -> bool {
    &&& d.severity == Severity::Info
    &&& d.kind matches DiagnosticKind::UnsupportedWorkbookMetadata { category: c } && c@ == category
    &&& d.location.stage == DiffStage::Metadata
    &&& d.location.sheet_order is None
    &&& match sheet {
        None => d.location.sheet_name is None,
        Some(n) => d.location.sheet_name matches Some(s) && s@ == n,
    }
    &&& d.location.address is None
    &&& d.message@ == message
}

/// A metadata difference: its category, the sheet it is about, and its message.
pub type MetaEvent = (Seq<char>, Option<Seq<char>>, Seq<char>);

/// The names added: in the new table, not in the old one.
pub open spec fn spec_added_names(ot: Seq<(Seq<char>, Seq<char>)>, nt: Seq<(Seq<char>, Seq<char>)>, k: int) -> Seq<MetaEvent>
    decreases k,
{
    if k <= 0 || k > nt.len() {
        Seq::empty()
    } else {
        let p = spec_added_names(ot, nt, k - 1);
        let (name, target) = nt[k - 1];
        if spec_lookup(ot, name, 0) is None {
            p.push(("defined_name_added:"@ + name, None, "defined name added: '"@ + name + "' → '"@ + target + "'"@))
        } else {
            p
        }
    }
}

/// The names removed: in the old table, not in the new one.
pub open spec fn spec_removed_names(ot: Seq<(Seq<char>, Seq<char>)>, nt: Seq<(Seq<char>, Seq<char>)>, k: int) -> Seq<MetaEvent>
    decreases k,
{
    if k <= 0 || k > ot.len() {
        Seq::empty()
    } else {
        let p = spec_removed_names(ot, nt, k - 1);
        let (name, target) = ot[k - 1];
        if spec_lookup(nt, name, 0) is None {
            p.push(("defined_name_removed:"@ + name, None, "defined name removed: '"@ + name + "' (was '"@ + target + "')"@))
        } else {
            p
        }
    }
}

/// The names whose target changed.
pub open spec fn spec_changed_names(ot: Seq<(Seq<char>, Seq<char>)>, nt: Seq<(Seq<char>, Seq<char>)>, k: int) -> Seq<MetaEvent>
    decreases k,
{
    if k <= 0 || k > ot.len() {
        Seq::empty()
    } else {
        let p = spec_changed_names(ot, nt, k - 1);
        let (name, target) = ot[k - 1];
        match spec_lookup(nt, name, 0) {
            Some(t2) => if t2 != target {
                p.push(("defined_name_changed:"@ + name, None, "defined name '"@ + name + "' target changed: '"@ + target + "' → '"@ + t2 + "'"@))
            } else {
                p
            },
            None => p,
        }
    }
}

/// `after` is `before` followed by one diagnostic per event, in order.
pub open spec fn spec_events_appended(before: Seq<Diagnostic>, after: Seq<Diagnostic>, events: Seq<MetaEvent>) -> bool {
    &&& after.len() == before.len() + events.len()
    &&& after.take(before.len() as int) == before
    &&& forall|j: int| 0 <= j < events.len() ==> spec_is_meta_diag(#[trigger] after[before.len() + j], events[j].0, events[j].1, events[j].2)
}

/// The message of the scope diagnostic.
pub open spec fn spec_scope_message() -> Seq<char> {
    "defined-name scope is unavailable in calamine 0.35; names are matched by normalized name only"@
}

/// `d` says that defined names are matched without their scope.
pub open spec fn spec_is_scope_diag(d: Diagnostic) -> bool {
    &&& d.severity == Severity::Info
    &&& d.kind == DiagnosticKind::DefinedNameScopeUnknown
    &&& d.location == (DiagnosticLocation { stage: DiffStage::Metadata, sheet_order: None, sheet_name: None, address: None })
    &&& d.message@ == spec_scope_message()
}

/// The diagnostics of the defined names: the scope note if either side has
/// names, then the added, removed and changed names.
pub open spec fn spec_name_diags(before: Seq<Diagnostic>, after: Seq<Diagnostic>, old_names: Seq<(String, String)>, new_names: Seq<(String, String)>) -> bool {
    let ot = spec_table(spec_name_pairs(old_names));
    let nt = spec_table(spec_name_pairs(new_names));
    let scope = ot.len() > 0 || nt.len() > 0;
    let mid: int = if scope { before.len() + 1int } else { before.len() as int };
    &&& after.len() >= mid
    &&& after.take(before.len() as int) == before
    &&& scope ==> spec_is_scope_diag(after[before.len() as int])
    &&& spec_events_appended(
        after.take(mid),
        after,
        spec_added_names(ot, nt, nt.len() as int) + spec_removed_names(ot, nt, ot.len() as int)
            + spec_changed_names(ot, nt, ot.len() as int),
    )
}

fn push_meta(diagnostics: &mut Vec<Diagnostic>, category: String, sheet: Option<String>, message: String)
    ensures
        final(diagnostics)@.drop_last() == old(diagnostics)@,
        final(diagnostics)@.len() == old(diagnostics)@.len() + 1,
        spec_is_meta_diag(
            final(diagnostics)@.last(),
            category@,
            match sheet {
                Some(s) => Some(s@),
                None => None,
            },
            message@,
        ),
{
    diagnostics.push(Diagnostic {
        severity: Severity::Info,
        kind: DiagnosticKind::UnsupportedWorkbookMetadata { category },
        location: DiagnosticLocation { stage: DiffStage::Metadata, sheet_order: None, sheet_name: sheet, address: None },
        message,
    });
    assert(diagnostics@.drop_last() =~= old(diagnostics)@);
}

proof fn lemma_events_push(before: Seq<Diagnostic>, mid: Seq<Diagnostic>, after: Seq<Diagnostic>, events: Seq<MetaEvent>, e: MetaEvent)
    requires
        spec_events_appended(before, mid, events),
        after.drop_last() == mid,
        after.len() == mid.len() + 1,
        spec_is_meta_diag(after.last(), e.0, e.1, e.2),
    ensures
        spec_events_appended(before, after, events.push(e)),
{
    let ev = events.push(e);
    assert forall|j: int| 0 <= j < ev.len() implies spec_is_meta_diag(#[trigger] after[before.len() + j], ev[j].0, ev[j].1, ev[j].2) by {
        if j < events.len() {
            assert(after[before.len() + j] == mid[before.len() + j]);
        }
    }
    assert(after.take(before.len() as int) =~= mid.take(before.len() as int));
}

fn build_table(pairs_src: &Vec<(String, String)>, lower: bool) -> (t: Vec<(String, String)>)
    ensures
        lower ==> spec_table_view(t@) == spec_table(spec_name_pairs(pairs_src@)),
        !lower ==> spec_table_view(t@) == spec_table(spec_table_view(pairs_src@)),
{
    let mut t: Vec<(String, String)> = Vec::new();
    let mut i: usize = 0;
    while i < pairs_src.len()
        invariant
            i <= pairs_src@.len(),
            lower ==> spec_table_view(t@) == spec_table(spec_name_pairs(pairs_src@).take(i as int)),
            !lower ==> spec_table_view(t@) == spec_table(spec_table_view(pairs_src@).take(i as int)),
        decreases pairs_src@.len() - i,
    {
        let key = if lower {
            lowercase(pairs_src[i].0.as_str())
        } else {
            pairs_src[i].0.clone()
        };
        let val = pairs_src[i].1.clone();
        proof {
            assert(spec_name_pairs(pairs_src@).take(i + 1).drop_last() =~= spec_name_pairs(pairs_src@).take(i as int));
            assert(spec_table_view(pairs_src@).take(i + 1).drop_last() =~= spec_table_view(pairs_src@).take(i as int));
        }
        table_put(&mut t, key, val);
        i += 1;
    }
    proof {
        assert(spec_name_pairs(pairs_src@).take(pairs_src@.len() as int) =~= spec_name_pairs(pairs_src@));
        assert(spec_table_view(pairs_src@).take(pairs_src@.len() as int) =~= spec_table_view(pairs_src@));
    }
    t
}

/// Reports defined names added, removed, or whose target changed, matched by
/// lower-cased name; and, if either side has names, that scope is unknown.
pub fn diff_defined_names(
    old_names: &Vec<(String, String)>,
    new_names: &Vec<(String, String)>,
    diagnostics: &mut Vec<Diagnostic>,
)
    ensures
        spec_name_diags(old(diagnostics)@, final(diagnostics)@, old_names@, new_names@),
{
    let ghost before = diagnostics@;
    let ot = build_table(old_names, true);
    let nt = build_table(new_names, true);
    let ghost otv = spec_table_view(ot@);
    let ghost ntv = spec_table_view(nt@);
    if ot.len() > 0 || nt.len() > 0 {
        diagnostics.push(Diagnostic {
            severity: Severity::Info,
            kind: DiagnosticKind::DefinedNameScopeUnknown,
            location: DiagnosticLocation { stage: DiffStage::Metadata, sheet_order: None, sheet_name: None, address: None },
            message: string_of("defined-name scope is unavailable in calamine 0.35; names are matched by normalized name only"),
        });
    }
    let ghost base = diagnostics@;
    proof {
        assert(diagnostics@.take(base.len() as int) =~= base);
    }
    let mut k: usize = 0;
    while k < nt.len()
        invariant
            k <= nt@.len(),
            otv == spec_table_view(ot@),
            ntv == spec_table_view(nt@),
            spec_events_appended(base, diagnostics@, spec_added_names(otv, ntv, k as int)),
        decreases nt@.len() - k,
    {
        let ghost mid = diagnostics@;
        proof {
            assert(ntv[k as int] == (nt@[k as int].0@, nt@[k as int].1@));
        }
        if table_lookup(&ot, &nt[k].0).is_none() {
            let mut cat = string_of("defined_name_added:");
            push_str(&mut cat, nt[k].0.as_str());
            let mut msg = string_of("defined name added: '");
            push_str(&mut msg, nt[k].0.as_str());
            push_str(&mut msg, "' → '");
            push_str(&mut msg, nt[k].1.as_str());
            push_str(&mut msg, "'");
            let ghost e: MetaEvent = (cat@, None, msg@);
            push_meta(diagnostics, cat, None, msg);
            proof {
                lemma_events_push(base, mid, diagnostics@, spec_added_names(otv, ntv, k as int), e);
                assert(spec_added_names(otv, ntv, k + 1) =~= spec_added_names(otv, ntv, k as int).push(e));
            }
        }
        k += 1;
    }
    let ghost added = spec_added_names(otv, ntv, ntv.len() as int);
    let mut k: usize = 0;
    while k < ot.len()
        invariant
            k <= ot@.len(),
            otv == spec_table_view(ot@),
            ntv == spec_table_view(nt@),
            added == spec_added_names(otv, ntv, ntv.len() as int),
            spec_events_appended(base, diagnostics@, added + spec_removed_names(otv, ntv, k as int)),
        decreases ot@.len() - k,
    {
        let ghost mid = diagnostics@;
        proof {
            assert(otv[k as int] == (ot@[k as int].0@, ot@[k as int].1@));
        }
        if table_lookup(&nt, &ot[k].0).is_none() {
            let mut cat = string_of("defined_name_removed:");
            push_str(&mut cat, ot[k].0.as_str());
            let mut msg = string_of("defined name removed: '");
            push_str(&mut msg, ot[k].0.as_str());
            push_str(&mut msg, "' (was '");
            push_str(&mut msg, ot[k].1.as_str());
            push_str(&mut msg, "')");
            let ghost e: MetaEvent = (cat@, None, msg@);
            push_meta(diagnostics, cat, None, msg);
            proof {
                lemma_events_push(base, mid, diagnostics@, added + spec_removed_names(otv, ntv, k as int), e);
                assert(added + spec_removed_names(otv, ntv, k + 1) =~= (added + spec_removed_names(otv, ntv, k as int)).push(e));
            }
        }
        k += 1;
    }
    let ghost removed = spec_removed_names(otv, ntv, otv.len() as int);
    let mut k: usize = 0;
    while k < ot.len()
        invariant
            k <= ot@.len(),
            otv == spec_table_view(ot@),
            ntv == spec_table_view(nt@),
            added == spec_added_names(otv, ntv, ntv.len() as int),
            removed == spec_removed_names(otv, ntv, otv.len() as int),
            spec_events_appended(base, diagnostics@, added + removed + spec_changed_names(otv, ntv, k as int)),
        decreases ot@.len() - k,
    {
        let ghost mid = diagnostics@;
        proof {
            assert(otv[k as int] == (ot@[k as int].0@, ot@[k as int].1@));
        }
        match table_lookup(&nt, &ot[k].0) {
            Some(j) => {
                if !str_equal(&ot[k].1, &nt[j].1) {
                    let mut cat = string_of("defined_name_changed:");
                    push_str(&mut cat, ot[k].0.as_str());
                    let mut msg = string_of("defined name '");
                    push_str(&mut msg, ot[k].0.as_str());
                    push_str(&mut msg, "' target changed: '");
                    push_str(&mut msg, ot[k].1.as_str());
                    push_str(&mut msg, "' → '");
                    push_str(&mut msg, nt[j].1.as_str());
                    push_str(&mut msg, "'");
                    let ghost e: MetaEvent = (cat@, None, msg@);
                    push_meta(diagnostics, cat, None, msg);
                    proof {
                        lemma_events_push(base, mid, diagnostics@, added + removed + spec_changed_names(otv, ntv, k as int), e);
                        assert(added + removed + spec_changed_names(otv, ntv, k + 1) =~= (added + removed + spec_changed_names(otv, ntv, k as int)).push(e));
                    }
                } else {
                    proof {
                        assert(spec_changed_names(otv, ntv, k + 1) =~= spec_changed_names(otv, ntv, k as int));
                    }
                }
            },
            None => {},
        }
        k += 1;
    }
    proof {
        assert(otv.len() == ot@.len());
        assert(ntv.len() == nt@.len());
        assert(diagnostics@.take(base.len() as int) == base);
        assert(diagnostics@.take(base.len() as int).take(before.len() as int) =~= diagnostics@.take(before.len() as int));
        assert(base.take(before.len() as int) =~= before);
        if otv.len() > 0 || ntv.len() > 0 {
            assert(base[before.len() as int] == diagnostics@[before.len() as int]);
        }
    }
}

/// The name of a visibility, as the reader prints it.
pub open spec fn spec_visibility_text(v: SheetVisibility) -> Seq<char> {
    match v {
        SheetVisibility::Visible => "Visible"@,
        SheetVisibility::Hidden => "Hidden"@,
        SheetVisibility::VeryHidden => "VeryHidden"@,
    }
}

fn visibility_text(v: SheetVisibility) -> (r: &'static str)
    ensures
        r@ == spec_visibility_text(v),
{
    match v {
        SheetVisibility::Visible => "Visible",
        SheetVisibility::Hidden => "Hidden",
        SheetVisibility::VeryHidden => "VeryHidden",
    }
}

/// The sheets' `(name, visibility)` pairs.
pub open spec fn spec_visibility_pairs(metas: Seq<SheetMeta>) -> Seq<(Seq<char>, Seq<char>)> {
    metas.map_values(|m: SheetMeta| (m.name@, spec_visibility_text(m.visible)))
}

/// The sheets, in name order, whose visibility differs between the sides.
pub open spec fn spec_visibility_changes(ot: Seq<(Seq<char>, Seq<char>)>, nt: Seq<(Seq<char>, Seq<char>)>, k: int) -> Seq<MetaEvent>
    decreases k,
{
    if k <= 0 || k > ot.len() {
        Seq::empty()
    } else {
        let p = spec_visibility_changes(ot, nt, k - 1);
        let (name, ov) = ot[k - 1];
        match spec_lookup(nt, name, 0) {
            Some(nv) => if nv != ov {
                p.push(("sheet_visibility_changed:"@ + name, Some(name), "sheet '"@ + name + "' visibility: "@ + ov + " → "@ + nv))
            } else {
                p
            },
            None => p,
        }
    }
}

/// Reports sheets, matched by name, whose visibility changed.
pub fn diff_sheet_visibility(old_metas: &Vec<SheetMeta>, new_metas: &Vec<SheetMeta>, diagnostics: &mut Vec<Diagnostic>)
    ensures
        spec_events_appended(
            old(diagnostics)@,
            final(diagnostics)@,
            spec_visibility_changes(
                spec_table(spec_visibility_pairs(old_metas@)),
                spec_table(spec_visibility_pairs(new_metas@)),
                spec_table(spec_visibility_pairs(old_metas@)).len() as int,
            ),
        ),
{
    let ghost before = diagnostics@;
    let mut op: Vec<(String, String)> = Vec::new();
    let mut i: usize = 0;
    while i < old_metas.len()
        invariant
            i <= old_metas@.len(),
            spec_table_view(op@) == spec_visibility_pairs(old_metas@).take(i as int),
        decreases old_metas@.len() - i,
    {
        let ghost prev = op@;
        let name = old_metas[i].name.clone();
        let text = string_of(visibility_text(old_metas[i].visible));
        proof {
            assert(spec_visibility_pairs(old_metas@)[i as int] == (name@, text@));
        }
        op.push((name, text));
        proof {
            assert(spec_table_view(op@) =~= spec_table_view(prev).push((name@, text@)));
            assert(spec_visibility_pairs(old_metas@).take(i + 1) =~= spec_visibility_pairs(old_metas@).take(i as int).push((name@, text@)));
        }
        i += 1;
    }
    let mut np: Vec<(String, String)> = Vec::new();
    let mut i: usize = 0;
    while i < new_metas.len()
        invariant
            i <= new_metas@.len(),
            spec_table_view(np@) == spec_visibility_pairs(new_metas@).take(i as int),
        decreases new_metas@.len() - i,
    {
        let ghost prev = np@;
        let name = new_metas[i].name.clone();
        let text = string_of(visibility_text(new_metas[i].visible));
        proof {
            assert(spec_visibility_pairs(new_metas@)[i as int] == (name@, text@));
        }
        np.push((name, text));
        proof {
            assert(spec_table_view(np@) =~= spec_table_view(prev).push((name@, text@)));
            assert(spec_visibility_pairs(new_metas@).take(i + 1) =~= spec_visibility_pairs(new_metas@).take(i as int).push((name@, text@)));
        }
        i += 1;
    }
    proof {
        assert(spec_visibility_pairs(old_metas@).take(old_metas@.len() as int) =~= spec_visibility_pairs(old_metas@));
        assert(spec_visibility_pairs(new_metas@).take(new_metas@.len() as int) =~= spec_visibility_pairs(new_metas@));
    }
    let ot = build_table(&op, false);
    let nt = build_table(&np, false);
    let ghost otv = spec_table_view(ot@);
    let ghost ntv = spec_table_view(nt@);
    proof {
        assert(diagnostics@.take(before.len() as int) =~= before);
    }
    let mut k: usize = 0;
    while k < ot.len()
        invariant
            k <= ot@.len(),
            otv == spec_table_view(ot@),
            ntv == spec_table_view(nt@),
            before == old(diagnostics)@,
            spec_events_appended(before, diagnostics@, spec_visibility_changes(otv, ntv, k as int)),
        decreases ot@.len() - k,
    {
        let ghost mid = diagnostics@;
        proof {
            assert(otv[k as int] == (ot@[k as int].0@, ot@[k as int].1@));
        }
        match table_lookup(&nt, &ot[k].0) {
            Some(j) => {
                if !str_equal(&ot[k].1, &nt[j].1) {
                    let mut cat = string_of("sheet_visibility_changed:");
                    push_str(&mut cat, ot[k].0.as_str());
                    let mut msg = string_of("sheet '");
                    push_str(&mut msg, ot[k].0.as_str());
                    push_str(&mut msg, "' visibility: ");
                    push_str(&mut msg, ot[k].1.as_str());
                    push_str(&mut msg, " → ");
                    push_str(&mut msg, nt[j].1.as_str());
                    let ghost e: MetaEvent = (cat@, Some(ot@[k as int].0@), msg@);
                    push_meta(diagnostics, cat, Some(ot[k].0.clone()), msg);
                    proof {
                        lemma_events_push(before, mid, diagnostics@, spec_visibility_changes(otv, ntv, k as int), e);
                        assert(spec_visibility_changes(otv, ntv, k + 1) =~= spec_visibility_changes(otv, ntv, k as int).push(e));
                    }
                } else {
                    proof {
                        assert(spec_visibility_changes(otv, ntv, k + 1) =~= spec_visibility_changes(otv, ntv, k as int));
                    }
                }
            },
            None => {},
        }
        k += 1;
    }
}

/// The diagnostics comparing the metadata appends: those of the defined
/// names, then one per sheet whose visibility changed.
pub open spec fn spec_metadata_diags(
    before: Seq<Diagnostic>,
    after: Seq<Diagnostic>,
    old_names: Seq<(String, String)>,
    new_names: Seq<(String, String)>,
    old_metas: Seq<SheetMeta>,
    new_metas: Seq<SheetMeta>,
) -> bool {
    exists|mid: Seq<Diagnostic>| #[trigger] spec_name_diags(before, mid, old_names, new_names)
        && spec_events_appended(
        mid,
        after,
        spec_visibility_changes(
            spec_table(spec_visibility_pairs(old_metas)),
            spec_table(spec_visibility_pairs(new_metas)),
            spec_table(spec_visibility_pairs(old_metas)).len() as int,
        ),
    )
}

/// Compares workbook-level metadata (defined names, sheet visibility),
/// reporting differences as diagnostics. Returns no structured changes:
/// `WorkbookChange` has no variants yet.
pub fn compare_workbook_metadata(
    old_names: &Vec<(String, String)>,
    new_names: &Vec<(String, String)>,
    old_metas: &Vec<SheetMeta>,
    new_metas: &Vec<SheetMeta>,
    diagnostics: &mut Vec<Diagnostic>,
) -> (r: Vec<WorkbookChange>)
    ensures
        r@.len() == 0,
        spec_metadata_diags(old(diagnostics)@, final(diagnostics)@, old_names@, new_names@, old_metas@, new_metas@),
{
    diff_defined_names(old_names, new_names, diagnostics);
    let ghost mid = diagnostics@;
    diff_sheet_visibility(old_metas, new_metas, diagnostics);
    proof {
        assert(spec_name_diags(old(diagnostics)@, mid, old_names@, new_names@));
    }
    Vec::new()
}

} // verus!
