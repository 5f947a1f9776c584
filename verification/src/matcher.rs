//! Sheet matching: exact-name pairing and conservative rename detection.

use vstd::prelude::*;

use crate::model::{
    Diagnostic, DiagnosticKind, DiagnosticLocation, DiffStage, MatchConfidence, Severity,
    SheetChange, SheetMatchReason, SheetRef,
};
use crate::options::SheetMatchingMode;
use crate::strings::{push_decimal, push_str, spec_decimal, str_equal, string_of};

verus! {

/// The result of matching one logical sheet pair.
pub struct MatchedPair {
    pub old_sheet: Option<SheetRef>,
    pub new_sheet: Option<SheetRef>,
    pub change: SheetChange,
}

/// The position of the first sheet at or after `from` whose name is `name`.
pub open spec fn spec_find_name(s: Seq<SheetRef>, name: Seq<char>, from: int) -> Option<int>
    decreases s.len() - from,
{
    if from < 0 || from >= s.len() {
        None
    } else if s[from].name@ == name {
        Some(from)
    } else {
        spec_find_name(s, name, from + 1)
    }
}

/// The position of the first sheet at or after `from` whose index is `index`.
pub open spec fn spec_find_index(s: Seq<SheetRef>, index: usize, from: int) -> Option<int>
    decreases s.len() - from,
{
    if from < 0 || from >= s.len() {
        None
    } else if s[from].index == index {
        Some(from)
    } else {
        spec_find_index(s, index, from + 1)
    }
}

/// The exact-name pair of `old` with the first new sheet of the same name, if any:
/// `Unchanged` when the index is the same, `Moved` otherwise.
pub open spec fn spec_exact_step(old: SheetRef, news: Seq<SheetRef>) -> Seq<MatchedPair> {
    match spec_find_name(news, old.name@, 0) {
        Some(ni) => seq![
            MatchedPair {
                old_sheet: Some(old),
                new_sheet: Some(news[ni]),
                change: if old.index == news[ni].index {
                    SheetChange::Unchanged
                } else {
                    SheetChange::Moved
                },
            },
        ],
        None => Seq::empty(),
    }
}

/// Phase 1: the exact-name pairs, in old-workbook order.
pub open spec fn spec_exact_pairs(olds: Seq<SheetRef>, news: Seq<SheetRef>) -> Seq<MatchedPair>
    decreases olds.len(),
{
    if olds.len() == 0 {
        Seq::empty()
    } else {
        spec_exact_pairs(olds.drop_last(), news) + spec_exact_step(olds.last(), news)
    }
}

/// The old sheets no new sheet has the name of, in order.
pub open spec fn spec_unmatched_old(olds: Seq<SheetRef>, news: Seq<SheetRef>) -> Seq<SheetRef>
    decreases olds.len(),
{
    if olds.len() == 0 {
        Seq::empty()
    } else {
        spec_unmatched_old(olds.drop_last(), news) + if spec_find_name(
            news,
            olds.last().name@,
            0,
        ) is None {
            seq![olds.last()]
        } else {
            Seq::empty()
        }
    }
}

/// New sheet `ni` was taken by phase 1: some old sheet's name first occurs there.
pub open spec fn spec_new_matched(olds: Seq<SheetRef>, news: Seq<SheetRef>, ni: int) -> bool {
    exists|o: int| 0 <= o < olds.len() && spec_find_name(news, #[trigger] olds[o].name@, 0) == Some(ni)
}

/// The first `k` new sheets that phase 1 did not take, in order.
pub open spec fn spec_unmatched_new_upto(olds: Seq<SheetRef>, news: Seq<SheetRef>, k: int) -> Seq<
    SheetRef,
>
    decreases k,
{
    if k <= 0 {
        Seq::empty()
    } else {
        spec_unmatched_new_upto(olds, news, k - 1) + if !spec_new_matched(olds, news, k - 1) {
            seq![news[k - 1]]
        } else {
            Seq::empty()
        }
    }
}

/// The new sheets that phase 1 did not take, in order.
pub open spec fn spec_unmatched_new(olds: Seq<SheetRef>, news: Seq<SheetRef>) -> Seq<SheetRef> {
    spec_unmatched_new_upto(olds, news, news.len() as int)
}

/// `Removed` pairs for the given old sheets.
pub open spec fn spec_removed(s: Seq<SheetRef>) -> Seq<MatchedPair> {
    Seq::new(
        s.len(),
        |i: int| MatchedPair { old_sheet: Some(s[i]), new_sheet: None, change: SheetChange::Removed },
    )
}

/// `Added` pairs for the given new sheets.
pub open spec fn spec_added(s: Seq<SheetRef>) -> Seq<MatchedPair> {
    Seq::new(
        s.len(),
        |i: int| MatchedPair { old_sheet: None, new_sheet: Some(s[i]), change: SheetChange::Added },
    )
}

/// The single rename pair of the conservative mode: `Renamed` at Medium
/// confidence when the index is unchanged, `RenamedAndMoved` at Low otherwise.
pub open spec fn spec_rename_pair(old: SheetRef, new: SheetRef) -> MatchedPair {
    MatchedPair {
        old_sheet: Some(old),
        new_sheet: Some(new),
        change: if old.index == new.index {
            SheetChange::Renamed {
                confidence: MatchConfidence::Medium,
                reason: SheetMatchReason::IndexAndContent,
            }
        } else {
            SheetChange::RenamedAndMoved {
                confidence: MatchConfidence::Low,
                reason: SheetMatchReason::IndexAndContent,
            }
        },
    }
}

/// Index matching over the first `k` remaining old sheets: the pairs made and
/// the positions of the remaining new sheets used. Each old sheet is tried
/// against the first remaining new sheet with its index, and paired if that one
/// is still free.
pub open spec fn spec_index_match(olds: Seq<SheetRef>, news: Seq<SheetRef>, k: int) -> (
    Seq<MatchedPair>,
    Set<int>,
)
    decreases k,
{
    if k <= 0 {
        (Seq::empty(), Set::empty())
    } else {
        let prev = spec_index_match(olds, news, k - 1);
        let old = olds[k - 1];
        match spec_find_index(news, old.index, 0) {
            Some(ni) => if !prev.1.contains(ni) {
                (
                    prev.0.push(
                        MatchedPair {
                            old_sheet: Some(old),
                            new_sheet: Some(news[ni]),
                            change: SheetChange::Renamed {
                                confidence: MatchConfidence::Low,
                                reason: SheetMatchReason::IndexAndContent,
                            },
                        },
                    ),
                    prev.1.insert(ni),
                )
            } else {
                prev
            },
            None => prev,
        }
    }
}

/// Some pair (not `Removed`) has an old sheet named `name`.
pub open spec fn spec_old_name_paired(pairs: Seq<MatchedPair>, name: Seq<char>) -> bool {
    exists|p: int|
        0 <= p < pairs.len() && (pairs[p].old_sheet matches Some(r) && r.name@ == name) && !(
        #[trigger] pairs[p].change is Removed)
}

/// Some pair (not `Added`) has a new sheet named `name`.
pub open spec fn spec_new_name_paired(pairs: Seq<MatchedPair>, name: Seq<char>) -> bool {
    exists|p: int|
        0 <= p < pairs.len() && (pairs[p].new_sheet matches Some(r) && r.name@ == name) && !(
        #[trigger] pairs[p].change is Added)
}

/// The sheets of `s` whose name no pair of `pairs` has on the old side.
pub open spec fn spec_still_old(s: Seq<SheetRef>, pairs: Seq<MatchedPair>) -> Seq<SheetRef>
    decreases s.len(),
{
    if s.len() == 0 {
        Seq::empty()
    } else {
        spec_still_old(s.drop_last(), pairs) + if !spec_old_name_paired(pairs, s.last().name@) {
            seq![s.last()]
        } else {
            Seq::empty()
        }
    }
}

/// The sheets of `s` whose name no pair of `pairs` has on the new side.
pub open spec fn spec_still_new(s: Seq<SheetRef>, pairs: Seq<MatchedPair>) -> Seq<SheetRef>
    decreases s.len(),
{
    if s.len() == 0 {
        Seq::empty()
    } else {
        spec_still_new(s.drop_last(), pairs) + if !spec_new_name_paired(pairs, s.last().name@) {
            seq![s.last()]
        } else {
            Seq::empty()
        }
    }
}

/// The conservative mode leaves the sheets unpaired and warns: more than one
/// sheet is unmatched on some side, and at least one on each.
pub open spec fn spec_ambiguous(uo: Seq<SheetRef>, un: Seq<SheetRef>) -> bool {
    uo.len() > 0 && un.len() > 0 && !(uo.len() == 1 && un.len() == 1)
}

/// The pairs `match_sheets` returns.
pub open spec fn spec_match_sheets(
    olds: Seq<SheetRef>,
    news: Seq<SheetRef>,
    mode: SheetMatchingMode,
) -> Seq<MatchedPair> {
    let exact = spec_exact_pairs(olds, news);
    let uo = spec_unmatched_old(olds, news);
    let un = spec_unmatched_new(olds, news);
    match mode {
        SheetMatchingMode::ExactNameOnly => exact + spec_removed(uo) + spec_added(un),
        SheetMatchingMode::ExactNameThenConservativeRename => if uo.len() == 0 && un.len() == 0 {
            exact
        } else if uo.len() == 1 && un.len() == 1 {
            exact.push(spec_rename_pair(uo[0], un[0]))
        } else {
            exact + spec_removed(uo) + spec_added(un)
        },
        SheetMatchingMode::ExactNameThenIndex => {
            let paired = exact + spec_index_match(uo, un, uo.len() as int).0;
            paired + spec_removed(spec_still_old(uo, paired)) + spec_added(
                spec_still_new(un, paired),
            )
        },
    }
}

/// The message of the ambiguity warning.
pub open spec fn spec_ambiguity_message(n_old: nat, n_new: nat) -> Seq<char> {
    spec_decimal(n_old) + " removed and "@ + spec_decimal(n_new)
        + " added sheets could not be confidently matched; treating all as Added/Removed"@
}

/// `d` is the warning about the unmatched sheets `uo` and `un`.
pub open spec fn spec_is_ambiguity_diagnostic(d: Diagnostic, uo: Seq<SheetRef>, un: Seq<SheetRef>) -> bool {
    &&& d.severity == Severity::Warning
    &&& d.kind matches DiagnosticKind::AmbiguousSheetMatch { candidates } && candidates@ == un
    &&& d.location == (DiagnosticLocation {
        stage: DiffStage::Match,
        sheet_order: None,
        sheet_name: None,
        address: None,
    })
    &&& d.message@ == spec_ambiguity_message(uo.len(), un.len())
}

fn find_name(s: &Vec<SheetRef>, name: &String) -> (r: Option<usize>)
    ensures
        r matches Some(i) ==> spec_find_name(s@, name@, 0) == Some(i as int),
        r is None ==> spec_find_name(s@, name@, 0) is None,
{
    let mut i: usize = 0;
    while i < s.len()
        invariant
            i <= s@.len(),
            spec_find_name(s@, name@, 0) == spec_find_name(s@, name@, i as int),
        decreases s@.len() - i,
    {
        if str_equal(&s[i].name, name) {
            return Some(i);
        }
        i += 1;
    }
    None
}

fn find_index(s: &Vec<SheetRef>, index: usize) -> (r: Option<usize>)
    ensures
        r matches Some(i) ==> spec_find_index(s@, index, 0) == Some(i as int),
        r is None ==> spec_find_index(s@, index, 0) is None,
{
    let mut i: usize = 0;
    while i < s.len()
        invariant
            i <= s@.len(),
            spec_find_index(s@, index, 0) == spec_find_index(s@, index, i as int),
        decreases s@.len() - i,
    {
        if s[i].index == index {
            return Some(i);
        }
        i += 1;
    }
    None
}

proof fn lemma_find_name_bounds(s: Seq<SheetRef>, name: Seq<char>, from: int)
    ensures
        spec_find_name(s, name, from) matches Some(i) ==> from <= i < s.len() && s[i].name@ == name,
    decreases s.len() - from,
{
    if 0 <= from < s.len() && s[from].name@ != name {
        lemma_find_name_bounds(s, name, from + 1);
    }
}

proof fn lemma_find_index_bounds(s: Seq<SheetRef>, index: usize, from: int)
    ensures
        spec_find_index(s, index, from) matches Some(i) ==> from <= i < s.len() && s[i].index == index,
    decreases s.len() - from,
{
    if 0 <= from < s.len() && s[from].index != index {
        lemma_find_index_bounds(s, index, from + 1);
    }
}

/// Appends `Removed` pairs for `sheets` to `pairs`.
fn push_removed(sheets: &Vec<SheetRef>, pairs: &mut Vec<MatchedPair>)
    ensures
        final(pairs)@ == old(pairs)@ + spec_removed(sheets@),
{
    let mut i: usize = 0;
    while i < sheets.len()
        invariant
            i <= sheets@.len(),
            pairs@ == old(pairs)@ + spec_removed(sheets@.take(i as int)),
        decreases sheets@.len() - i,
    {
        pairs.push(MatchedPair { old_sheet: Some(sheets[i].clone()), new_sheet: None, change: SheetChange::Removed });
        i += 1;
        assert(pairs@ =~= old(pairs)@ + spec_removed(sheets@.take(i as int)));
    }
    assert(sheets@.take(i as int) =~= sheets@);
}

/// Appends `Added` pairs for `sheets` to `pairs`.
fn push_added(sheets: &Vec<SheetRef>, pairs: &mut Vec<MatchedPair>)
    ensures
        final(pairs)@ == old(pairs)@ + spec_added(sheets@),
{
    let mut i: usize = 0;
    while i < sheets.len()
        invariant
            i <= sheets@.len(),
            pairs@ == old(pairs)@ + spec_added(sheets@.take(i as int)),
        decreases sheets@.len() - i,
    {
        pairs.push(MatchedPair { old_sheet: None, new_sheet: Some(sheets[i].clone()), change: SheetChange::Added });
        i += 1;
        assert(pairs@ =~= old(pairs)@ + spec_added(sheets@.take(i as int)));
    }
    assert(sheets@.take(i as int) =~= sheets@);
}

fn clone_sheets(s: &Vec<SheetRef>) -> (r: Vec<SheetRef>)
    ensures
        r@ == s@,
{
    let mut r: Vec<SheetRef> = Vec::new();
    let mut i: usize = 0;
    while i < s.len()
        invariant
            i <= s@.len(),
            r@ == s@.take(i as int),
        decreases s@.len() - i,
    {
        r.push(s[i].clone());
        i += 1;
        assert(r@ =~= s@.take(i as int));
    }
    assert(s@.take(i as int) =~= s@);
    r
}

/// Conservative rename detection over the sheets phase 1 left unmatched.
fn conservative_rename(
    old_remaining: &Vec<SheetRef>,
    new_remaining: &Vec<SheetRef>,
    pairs: &mut Vec<MatchedPair>,
    diagnostics: &mut Vec<Diagnostic>,
)
    ensures
        final(pairs)@ == old(pairs)@ + if old_remaining@.len() == 0 && new_remaining@.len() == 0 {
            Seq::empty()
        } else if old_remaining@.len() == 1 && new_remaining@.len() == 1 {
            seq![spec_rename_pair(old_remaining@[0], new_remaining@[0])]
        } else {
            spec_removed(old_remaining@) + spec_added(new_remaining@)
        },
        spec_ambiguous(old_remaining@, new_remaining@) ==> final(diagnostics)@.len() == old(diagnostics)@.len() + 1
            && final(diagnostics)@.drop_last() == old(diagnostics)@
            && spec_is_ambiguity_diagnostic(final(diagnostics)@.last(), old_remaining@, new_remaining@),
        !spec_ambiguous(old_remaining@, new_remaining@) ==> final(diagnostics)@ == old(diagnostics)@,
{
    let n_old = old_remaining.len();
    let n_new = new_remaining.len();
    if n_old == 0 && n_new == 0 {
        assert(pairs@ =~= old(pairs)@ + Seq::<MatchedPair>::empty());
        return;
    }
    if n_old == 1 && n_new == 1 {
        let o = &old_remaining[0];
        let new = &new_remaining[0];
        let change = if o.index == new.index {
            SheetChange::Renamed { confidence: MatchConfidence::Medium, reason: SheetMatchReason::IndexAndContent }
        } else {
            SheetChange::RenamedAndMoved { confidence: MatchConfidence::Low, reason: SheetMatchReason::IndexAndContent }
        };
        pairs.push(MatchedPair { old_sheet: Some(o.clone()), new_sheet: Some(new.clone()), change });
        assert(pairs@ =~= old(pairs)@ + seq![spec_rename_pair(old_remaining@[0], new_remaining@[0])]);
        return;
    }
    if n_old > 0 && n_new > 0 {
        let candidates = clone_sheets(new_remaining);
        let mut message = String::new();
        push_decimal(&mut message, n_old as u64);
        push_str(&mut message, " removed and ");
        push_decimal(&mut message, n_new as u64);
        push_str(&mut message, " added sheets could not be confidently matched; treating all as Added/Removed");
        assert(message@ =~= spec_ambiguity_message(n_old as nat, n_new as nat));
        diagnostics.push(Diagnostic {
            severity: Severity::Warning,
            kind: DiagnosticKind::AmbiguousSheetMatch { candidates },
            location: DiagnosticLocation { stage: DiffStage::Match, sheet_order: None, sheet_name: None, address: None },
            message,
        });
        assert(diagnostics@.drop_last() =~= old(diagnostics)@);
    }
    push_removed(old_remaining, pairs);
    push_added(new_remaining, pairs);
    assert(pairs@ =~= old(pairs)@ + (spec_removed(old_remaining@) + spec_added(new_remaining@)));
}

/// Index-based fallback matching over the sheets phase 1 left unmatched.
fn index_match(old_remaining: &Vec<SheetRef>, new_remaining: &Vec<SheetRef>, pairs: &mut Vec<MatchedPair>)
    ensures
        final(pairs)@ == old(pairs)@ + spec_index_match(old_remaining@, new_remaining@, old_remaining@.len() as int).0,
{
    let mut used_new: Vec<bool> = Vec::new();
    let mut k: usize = 0;
    while k < new_remaining.len()
        invariant
            k <= new_remaining@.len(),
            used_new@.len() == k,
            forall|j: int| 0 <= j < k ==> !used_new@[j],
        decreases new_remaining@.len() - k,
    {
        used_new.push(false);
        k += 1;
    }
    let mut i: usize = 0;
    while i < old_remaining.len()
        invariant
            i <= old_remaining@.len(),
            used_new@.len() == new_remaining@.len(),
            pairs@ == old(pairs)@ + spec_index_match(old_remaining@, new_remaining@, i as int).0,
            forall|j: int| 0 <= j < used_new@.len() ==> (used_new@[j] <==> spec_index_match(
                old_remaining@,
                new_remaining@,
                i as int,
            ).1.contains(j)),
        decreases old_remaining@.len() - i,
    {
        let o = &old_remaining[i];
        let found = find_index(new_remaining, o.index);
        proof {
            lemma_find_index_bounds(new_remaining@, o.index, 0);
        }
        match found {
            Some(ni) => {
                if !used_new[ni] {
                    used_new.set(ni, true);
                    pairs.push(MatchedPair {
                        old_sheet: Some(o.clone()),
                        new_sheet: Some(new_remaining[ni].clone()),
                        change: SheetChange::Renamed { confidence: MatchConfidence::Low, reason: SheetMatchReason::IndexAndContent },
                    });
                }
            },
            None => {},
        }
        i += 1;
        assert(pairs@ =~= old(pairs)@ + spec_index_match(old_remaining@, new_remaining@, i as int).0);
    }
}

fn old_name_paired(pairs: &Vec<MatchedPair>, name: &String) -> (r: bool)
    ensures
        r == spec_old_name_paired(pairs@, name@),
{
    let mut p: usize = 0;
    while p < pairs.len()
        invariant
            p <= pairs@.len(),
            forall|q: int| 0 <= q < p ==> !((pairs@[q].old_sheet matches Some(r) && r.name@ == name@) && !(#[trigger] pairs@[q].change is Removed)),
        decreases pairs@.len() - p,
    {
        let hit = match &pairs[p].old_sheet {
            Some(r) => str_equal(&r.name, name),
            None => false,
        };
        if hit && !matches!(pairs[p].change, SheetChange::Removed) {
            return true;
        }
        p += 1;
    }
    false
}

fn new_name_paired(pairs: &Vec<MatchedPair>, name: &String) -> (r: bool)
    ensures
        r == spec_new_name_paired(pairs@, name@),
{
    let mut p: usize = 0;
    while p < pairs.len()
        invariant
            p <= pairs@.len(),
            forall|q: int| 0 <= q < p ==> !((pairs@[q].new_sheet matches Some(r) && r.name@ == name@) && !(#[trigger] pairs@[q].change is Added)),
        decreases pairs@.len() - p,
    {
        let hit = match &pairs[p].new_sheet {
            Some(r) => str_equal(&r.name, name),
            None => false,
        };
        if hit && !matches!(pairs[p].change, SheetChange::Added) {
            return true;
        }
        p += 1;
    }
    false
}

/// Match the sheets from two workbooks under the given mode.
///
/// Returns the list of matched/unmatched pairs; an ambiguity warning is
/// appended to `diagnostics` when the conservative mode cannot pair the
/// unmatched sheets.
pub fn match_sheets(
    old_sheets: &Vec<SheetRef>,
    new_sheets: &Vec<SheetRef>,
    mode: SheetMatchingMode,
    diagnostics: &mut Vec<Diagnostic>,
) -> (r: Vec<MatchedPair>)
    ensures
        r@ == spec_match_sheets(old_sheets@, new_sheets@, mode),
        ({
            let uo = spec_unmatched_old(old_sheets@, new_sheets@);
            let un = spec_unmatched_new(old_sheets@, new_sheets@);
            if mode is ExactNameThenConservativeRename && spec_ambiguous(uo, un) {
                &&& final(diagnostics)@.len() == old(diagnostics)@.len() + 1
                &&& final(diagnostics)@.drop_last() == old(diagnostics)@
                &&& spec_is_ambiguity_diagnostic(final(diagnostics)@.last(), uo, un)
            } else {
                final(diagnostics)@ == old(diagnostics)@
            }
        }),
{
    let mut pairs: Vec<MatchedPair> = Vec::new();
    let mut matched_new: Vec<bool> = Vec::new();
    let mut k: usize = 0;
    while k < new_sheets.len()
        invariant
            k <= new_sheets@.len(),
            matched_new@.len() == k,
            forall|j: int| 0 <= j < k ==> !matched_new@[j],
        decreases new_sheets@.len() - k,
    {
        matched_new.push(false);
        k += 1;
    }
    // Phase 1: exact name matching.
    let mut old_remaining: Vec<SheetRef> = Vec::new();
    let mut oi: usize = 0;
    while oi < old_sheets.len()
        invariant
            oi <= old_sheets@.len(),
            matched_new@.len() == new_sheets@.len(),
            pairs@ == spec_exact_pairs(old_sheets@.take(oi as int), new_sheets@),
            old_remaining@ == spec_unmatched_old(old_sheets@.take(oi as int), new_sheets@),
            forall|j: int| 0 <= j < matched_new@.len() ==> (matched_new@[j] <==> spec_new_matched(
                old_sheets@.take(oi as int),
                new_sheets@,
                j,
            )),
        decreases old_sheets@.len() - oi,
    {
        let old = &old_sheets[oi];
        let found = find_name(new_sheets, &old.name);
        proof {
            lemma_find_name_bounds(new_sheets@, old.name@, 0);
            assert(old_sheets@.take(oi + 1).drop_last() =~= old_sheets@.take(oi as int));
            assert(old_sheets@.take(oi + 1).last() == old_sheets@[oi as int]);
        }
        let ghost prev = old_sheets@.take(oi as int);
        let ghost next = old_sheets@.take(oi + 1);
        match found {
            Some(ni) => {
                let new = &new_sheets[ni];
                let change = if old.index == new.index {
                    SheetChange::Unchanged
                } else {
                    SheetChange::Moved
                };
                pairs.push(MatchedPair { old_sheet: Some(old.clone()), new_sheet: Some(new.clone()), change });
                matched_new.set(ni, true);
                proof {
                    assert(pairs@ =~= spec_exact_pairs(next, new_sheets@));
                    assert(old_remaining@ =~= spec_unmatched_old(next, new_sheets@));
                    assert forall|j: int| 0 <= j < matched_new@.len() implies (matched_new@[j] <==> spec_new_matched(next, new_sheets@, j)) by {
                        if j == ni {
                            assert(next[oi as int] == old_sheets@[oi as int]);
                            assert(spec_find_name(new_sheets@, next[oi as int].name@, 0) == Some(j));
                        } else {
                            if spec_new_matched(next, new_sheets@, j) {
                                let o = choose|o: int| 0 <= o < next.len() && spec_find_name(new_sheets@, #[trigger] next[o].name@, 0) == Some(j);
                                assert(o != oi);
                                assert(prev[o] == next[o]);
                            }
                            if spec_new_matched(prev, new_sheets@, j) {
                                let o = choose|o: int| 0 <= o < prev.len() && spec_find_name(new_sheets@, #[trigger] prev[o].name@, 0) == Some(j);
                                assert(prev[o] == next[o]);
                            }
                        }
                    }
                }
            },
            None => {
                old_remaining.push(old.clone());
                proof {
                    assert(pairs@ =~= spec_exact_pairs(next, new_sheets@));
                    assert(old_remaining@ =~= spec_unmatched_old(next, new_sheets@));
                    assert forall|j: int| 0 <= j < matched_new@.len() implies (matched_new@[j] <==> spec_new_matched(next, new_sheets@, j)) by {
                        if spec_new_matched(next, new_sheets@, j) {
                            let o = choose|o: int| 0 <= o < next.len() && spec_find_name(new_sheets@, #[trigger] next[o].name@, 0) == Some(j);
                            assert(o != oi);
                            assert(prev[o] == next[o]);
                        }
                        if spec_new_matched(prev, new_sheets@, j) {
                            let o = choose|o: int| 0 <= o < prev.len() && spec_find_name(new_sheets@, #[trigger] prev[o].name@, 0) == Some(j);
                            assert(prev[o] == next[o]);
                        }
                    }
                }
            },
        }
        oi += 1;
    }
    assert(old_sheets@.take(oi as int) =~= old_sheets@);
    let mut new_remaining: Vec<SheetRef> = Vec::new();
    let mut ni: usize = 0;
    while ni < new_sheets.len()
        invariant
            ni <= new_sheets@.len(),
            matched_new@.len() == new_sheets@.len(),
            new_remaining@ == spec_unmatched_new_upto(old_sheets@, new_sheets@, ni as int),
            forall|j: int| 0 <= j < matched_new@.len() ==> (matched_new@[j] <==> spec_new_matched(old_sheets@, new_sheets@, j)),
        decreases new_sheets@.len() - ni,
    {
        if !matched_new[ni] {
            new_remaining.push(new_sheets[ni].clone());
        }
        ni += 1;
        assert(new_remaining@ =~= spec_unmatched_new_upto(old_sheets@, new_sheets@, ni as int));
    }
    let ghost exact = pairs@;
    // Phase 2: rename detection.
    match mode {
        SheetMatchingMode::ExactNameOnly => {
            push_removed(&old_remaining, &mut pairs);
            push_added(&new_remaining, &mut pairs);
        },
        SheetMatchingMode::ExactNameThenConservativeRename => {
            conservative_rename(&old_remaining, &new_remaining, &mut pairs, diagnostics);
            proof {
                if old_remaining@.len() == 0 && new_remaining@.len() == 0 {
                    assert(pairs@ =~= exact);
                } else if old_remaining@.len() == 1 && new_remaining@.len() == 1 {
                    assert(pairs@ =~= exact.push(spec_rename_pair(old_remaining@[0], new_remaining@[0])));
                } else {
                    assert(pairs@ =~= exact + spec_removed(old_remaining@) + spec_added(new_remaining@));
                }
            }
        },
        SheetMatchingMode::ExactNameThenIndex => {
            index_match(&old_remaining, &new_remaining, &mut pairs);
            let ghost paired = pairs@;
            let mut still_old: Vec<SheetRef> = Vec::new();
            let mut i: usize = 0;
            while i < old_remaining.len()
                invariant
                    i <= old_remaining@.len(),
                    pairs@ == paired,
                    still_old@ == spec_still_old(old_remaining@.take(i as int), paired),
                decreases old_remaining@.len() - i,
            {
                if !old_name_paired(&pairs, &old_remaining[i].name) {
                    still_old.push(old_remaining[i].clone());
                }
                proof {
                    assert(old_remaining@.take(i + 1).drop_last() =~= old_remaining@.take(i as int));
                }
                i += 1;
                assert(still_old@ =~= spec_still_old(old_remaining@.take(i as int), paired));
            }
            assert(old_remaining@.take(i as int) =~= old_remaining@);
            let mut still_new: Vec<SheetRef> = Vec::new();
            let mut j: usize = 0;
            while j < new_remaining.len()
                invariant
                    j <= new_remaining@.len(),
                    pairs@ == paired,
                    still_new@ == spec_still_new(new_remaining@.take(j as int), paired),
                decreases new_remaining@.len() - j,
            {
                if !new_name_paired(&pairs, &new_remaining[j].name) {
                    still_new.push(new_remaining[j].clone());
                }
                proof {
                    assert(new_remaining@.take(j + 1).drop_last() =~= new_remaining@.take(j as int));
                }
                j += 1;
                assert(still_new@ =~= spec_still_new(new_remaining@.take(j as int), paired));
            }
            assert(new_remaining@.take(j as int) =~= new_remaining@);
            push_removed(&still_old, &mut pairs);
            push_added(&still_new, &mut pairs);
        },
    }
    pairs
}


/// No two sheets of the list have the same name, as in any workbook.
pub open spec fn spec_names_unique(s: Seq<SheetRef>) -> bool {
    forall|i: int, j: int| 0 <= i < j < s.len() ==> (#[trigger] s[i]).name@ != (#[trigger] s[j]).name@
}

/// The number of pairs whose old side is `o`.
pub open spec fn spec_old_count(ps: Seq<MatchedPair>, o: SheetRef) -> nat
    decreases ps.len(),
{
    if ps.len() == 0 {
        0
    } else {
        spec_old_count(ps.drop_last(), o) + if ps.last().old_sheet == Some(o) {
            1nat
        } else {
            0nat
        }
    }
}

/// The number of pairs whose new side is `n`.
pub open spec fn spec_new_count(ps: Seq<MatchedPair>, n: SheetRef) -> nat
    decreases ps.len(),
{
    if ps.len() == 0 {
        0
    } else {
        spec_new_count(ps.drop_last(), n) + if ps.last().new_sheet == Some(n) {
            1nat
        } else {
            0nat
        }
    }
}

/// The number of times `o` occurs in the list.
pub open spec fn spec_occ(s: Seq<SheetRef>, o: SheetRef) -> nat
    decreases s.len(),
{
    if s.len() == 0 {
        0
    } else {
        spec_occ(s.drop_last(), o) + if s.last() == o {
            1nat
        } else {
            0nat
        }
    }
}

proof fn lemma_counts_concat(a: Seq<MatchedPair>, b: Seq<MatchedPair>, o: SheetRef)
    ensures
        spec_old_count(a + b, o) == spec_old_count(a, o) + spec_old_count(b, o),
        spec_new_count(a + b, o) == spec_new_count(a, o) + spec_new_count(b, o),
    decreases b.len(),
{
    if b.len() == 0 {
        assert(a + b =~= a);
    } else {
        lemma_counts_concat(a, b.drop_last(), o);
        assert((a + b).drop_last() =~= a + b.drop_last());
    }
}

proof fn lemma_removed_added_counts(s: Seq<SheetRef>, o: SheetRef)
    ensures
        spec_old_count(spec_removed(s), o) == spec_occ(s, o),
        spec_new_count(spec_removed(s), o) == 0,
        spec_old_count(spec_added(s), o) == 0,
        spec_new_count(spec_added(s), o) == spec_occ(s, o),
    decreases s.len(),
{
    if s.len() > 0 {
        lemma_removed_added_counts(s.drop_last(), o);
        assert(spec_removed(s).drop_last() =~= spec_removed(s.drop_last()));
        assert(spec_added(s).drop_last() =~= spec_added(s.drop_last()));
    }
}

proof fn lemma_unique_prefix(s: Seq<SheetRef>)
    requires
        spec_names_unique(s),
        s.len() > 0,
    ensures
        spec_names_unique(s.drop_last()),
        forall|i: int| 0 <= i < s.len() - 1 ==> #[trigger] s[i] != s.last(),
{
    assert forall|i: int| 0 <= i < s.len() - 1 implies #[trigger] s[i] != s.last() by {
        assert(s[i].name@ != s[s.len() - 1].name@);
    }
    assert forall|i: int, j: int| 0 <= i < j < s.drop_last().len() implies (#[trigger] s.drop_last()[i]).name@ != (#[trigger] s.drop_last()[j]).name@ by {
        assert(s.drop_last()[i] == s[i] && s.drop_last()[j] == s[j]);
    }
}

/// `o` is one of the sheets of the list.
pub open spec fn spec_in(s: Seq<SheetRef>, o: SheetRef) -> bool {
    exists|i: int| 0 <= i < s.len() && s[i] == o
}

proof fn lemma_exact_old_counts(olds: Seq<SheetRef>, news: Seq<SheetRef>, o: SheetRef)
    requires
        spec_names_unique(olds),
    ensures
        spec_old_count(spec_exact_pairs(olds, news), o) == if spec_in(olds, o) && spec_find_name(news, o.name@, 0) is Some {
            1nat
        } else {
            0nat
        },
        spec_occ(spec_unmatched_old(olds, news), o) == if spec_in(olds, o) && spec_find_name(news, o.name@, 0) is None {
            1nat
        } else {
            0nat
        },
    decreases olds.len(),
{
    if olds.len() > 0 {
        let q = olds.drop_last();
        let last = olds.last();
        lemma_unique_prefix(olds);
        lemma_exact_old_counts(q, news, o);
        lemma_counts_concat(spec_exact_pairs(q, news), spec_exact_step(last, news), o);
        let step = spec_exact_step(last, news);
        match spec_find_name(news, last.name@, 0) {
            Some(ni) => {
                assert(step.drop_last() =~= Seq::<MatchedPair>::empty());
                assert(spec_old_count(step.drop_last(), o) == 0);
                assert(step.last().old_sheet == Some(last));
                assert(spec_old_count(step, o) == if last == o { 1nat } else { 0nat });
            },
            None => {
                assert(step =~= Seq::<MatchedPair>::empty());
                assert(spec_old_count(step, o) == 0);
            },
        }
        assert(spec_exact_pairs(olds, news) == spec_exact_pairs(q, news) + step);
        let tail: Seq<SheetRef> = if spec_find_name(news, last.name@, 0) is None {
            seq![last]
        } else {
            Seq::empty()
        };
        assert(spec_unmatched_old(olds, news) == spec_unmatched_old(q, news) + tail);
        if spec_find_name(news, last.name@, 0) is None {
            assert((spec_unmatched_old(q, news) + tail).drop_last() =~= spec_unmatched_old(q, news));
        } else {
            assert(spec_unmatched_old(q, news) + tail =~= spec_unmatched_old(q, news));
        }
        if o == last {
            assert(!spec_in(q, o));
            assert(olds[olds.len() - 1] == o);
        } else {
            if spec_in(olds, o) {
                let i = choose|i: int| 0 <= i < olds.len() && olds[i] == o;
                assert(q[i] == o);
            }
            if spec_in(q, o) {
                let i = choose|i: int| 0 <= i < q.len() && q[i] == o;
                assert(olds[i] == o);
            }
        }
    } else {
        assert(spec_exact_pairs(olds, news) =~= Seq::<MatchedPair>::empty());
    }
}

proof fn lemma_exact_new_counts(olds: Seq<SheetRef>, news: Seq<SheetRef>, j: int)
    requires
        spec_names_unique(olds),
        spec_names_unique(news),
        0 <= j < news.len(),
    ensures
        spec_new_count(spec_exact_pairs(olds, news), news[j]) == if spec_new_matched(olds, news, j) {
            1nat
        } else {
            0nat
        },
    decreases olds.len(),
{
    if olds.len() > 0 {
        let q = olds.drop_last();
        let last = olds.last();
        lemma_unique_prefix(olds);
        lemma_exact_new_counts(q, news, j);
        lemma_counts_concat(spec_exact_pairs(q, news), spec_exact_step(last, news), news[j]);
        let step = spec_exact_step(last, news);
        assert(spec_exact_pairs(olds, news) == spec_exact_pairs(q, news) + step);
        lemma_find_name_bounds(news, last.name@, 0);
        let last_hits = spec_find_name(news, last.name@, 0) == Some(j);
        match spec_find_name(news, last.name@, 0) {
            Some(ni) => {
                assert(step.drop_last() =~= Seq::<MatchedPair>::empty());
                assert(spec_new_count(step.drop_last(), news[j]) == 0);
                assert(step.last().new_sheet == Some(news[ni]));
                if ni != j {
                    if ni < j {
                        assert(news[ni].name@ != news[j].name@);
                    } else {
                        assert(news[j].name@ != news[ni].name@);
                    }
                }
                assert(spec_new_count(step, news[j]) == if last_hits { 1nat } else { 0nat });
            },
            None => {
                assert(step =~= Seq::<MatchedPair>::empty());
                assert(spec_new_count(step, news[j]) == 0);
            },
        }
        if spec_new_matched(olds, news, j) {
            let o = choose|o: int| 0 <= o < olds.len() && spec_find_name(news, #[trigger] olds[o].name@, 0) == Some(j);
            if o < q.len() {
                assert(q[o] == olds[o]);
                assert(spec_new_matched(q, news, j));
            }
        }
        if spec_new_matched(q, news, j) {
            let o = choose|o: int| 0 <= o < q.len() && spec_find_name(news, #[trigger] q[o].name@, 0) == Some(j);
            assert(q[o] == olds[o]);
            assert(spec_new_matched(olds, news, j));
            if last_hits {
                lemma_find_name_bounds(news, q[o].name@, 0);
                assert(olds[o].name@ != olds[olds.len() - 1].name@);
            }
        }
        if last_hits {
            assert(olds[olds.len() - 1] == last);
            assert(spec_new_matched(olds, news, j));
        }
    } else {
        assert(spec_exact_pairs(olds, news) =~= Seq::<MatchedPair>::empty());
    }
}

proof fn lemma_unmatched_new_occ(olds: Seq<SheetRef>, news: Seq<SheetRef>, j: int, k: int)
    requires
        spec_names_unique(news),
        0 <= j < news.len(),
        0 <= k <= news.len(),
    ensures
        spec_occ(spec_unmatched_new_upto(olds, news, k), news[j]) == if j < k && !spec_new_matched(olds, news, j) {
            1nat
        } else {
            0nat
        },
    decreases k,
{
    if k > 0 {
        lemma_unmatched_new_occ(olds, news, j, k - 1);
        let p = spec_unmatched_new_upto(olds, news, k - 1);
        if !spec_new_matched(olds, news, k - 1) {
            assert((p + seq![news[k - 1]]).drop_last() =~= p);
            if k - 1 != j {
                if k - 1 < j {
                    assert(news[k - 1].name@ != news[j].name@);
                } else {
                    assert(news[j].name@ != news[k - 1].name@);
                }
            }
        } else {
            assert(p + Seq::<SheetRef>::empty() =~= p);
        }
    }
}

proof fn lemma_occ_single(s: Seq<SheetRef>, o: SheetRef)
    requires
        s.len() == 1,
    ensures
        spec_occ(s, o) == if s[0] == o { 1nat } else { 0nat },
{
    assert(s.drop_last() =~= Seq::<SheetRef>::empty());
    assert(spec_occ(s.drop_last(), o) == 0);
}

proof fn lemma_count_exists(ps: Seq<MatchedPair>, o: SheetRef)
    ensures
        spec_old_count(ps, o) > 0 <==> exists|p: int| 0 <= p < ps.len() && (#[trigger] ps[p]).old_sheet == Some(o),
        spec_new_count(ps, o) > 0 <==> exists|p: int| 0 <= p < ps.len() && (#[trigger] ps[p]).new_sheet == Some(o),
    decreases ps.len(),
{
    if ps.len() > 0 {
        let d = ps.drop_last();
        lemma_count_exists(d, o);
        if exists|p: int| 0 <= p < d.len() && (#[trigger] d[p]).old_sheet == Some(o) {
            let p = choose|p: int| 0 <= p < d.len() && (#[trigger] d[p]).old_sheet == Some(o);
            assert(ps[p] == d[p]);
        }
        if exists|p: int| 0 <= p < d.len() && (#[trigger] d[p]).new_sheet == Some(o) {
            let p = choose|p: int| 0 <= p < d.len() && (#[trigger] d[p]).new_sheet == Some(o);
            assert(ps[p] == d[p]);
        }
        if exists|p: int| 0 <= p < ps.len() && (#[trigger] ps[p]).old_sheet == Some(o) {
            let p = choose|p: int| 0 <= p < ps.len() && (#[trigger] ps[p]).old_sheet == Some(o);
            if p < d.len() {
                assert(d[p] == ps[p]);
            }
        }
        if exists|p: int| 0 <= p < ps.len() && (#[trigger] ps[p]).new_sheet == Some(o) {
            let p = choose|p: int| 0 <= p < ps.len() && (#[trigger] ps[p]).new_sheet == Some(o);
            if p < d.len() {
                assert(d[p] == ps[p]);
            }
        }
    }
}

proof fn lemma_occ_two(s: Seq<SheetRef>, x: SheetRef, k1: int, k2: int)
    requires
        0 <= k1 < k2 < s.len(),
        s[k1] == x,
        s[k2] == x,
    ensures
        spec_occ(s, x) >= 2,
    decreases s.len(),
{
    let d = s.drop_last();
    if k2 < s.len() - 1 {
        assert(d[k1] == x && d[k2] == x);
        lemma_occ_two(d, x, k1, k2);
    } else {
        assert(d[k1] == x);
        lemma_occ_pos(d, x, k1);
    }
}

proof fn lemma_occ_pos(s: Seq<SheetRef>, x: SheetRef, k: int)
    requires
        0 <= k < s.len(),
        s[k] == x,
    ensures
        spec_occ(s, x) >= 1,
    decreases s.len(),
{
    if k < s.len() - 1 {
        assert(s.drop_last()[k] == x);
        lemma_occ_pos(s.drop_last(), x, k);
    }
}

proof fn lemma_unmatched_old_members(olds: Seq<SheetRef>, news: Seq<SheetRef>)
    ensures
        forall|k: int| 0 <= k < spec_unmatched_old(olds, news).len() ==> exists|i: int|
            0 <= i < olds.len() && #[trigger] spec_unmatched_old(olds, news)[k] == olds[i] && spec_find_name(news, olds[i].name@, 0) is None,
    decreases olds.len(),
{
    if olds.len() > 0 {
        let q = olds.drop_last();
        lemma_unmatched_old_members(q, news);
        let p = spec_unmatched_old(q, news);
        let u = spec_unmatched_old(olds, news);
        assert forall|k: int| 0 <= k < u.len() implies exists|i: int|
            0 <= i < olds.len() && #[trigger] u[k] == olds[i] && spec_find_name(news, olds[i].name@, 0) is None by {
            if k < p.len() {
                let i = choose|i: int| 0 <= i < q.len() && p[k] == q[i] && spec_find_name(news, q[i].name@, 0) is None;
                assert(u[k] == p[k]);
                assert(q[i] == olds[i]);
            } else {
                assert(u[k] == olds[olds.len() - 1]);
            }
        }
    }
}

proof fn lemma_unmatched_new_members(olds: Seq<SheetRef>, news: Seq<SheetRef>, kk: int)
    requires
        0 <= kk <= news.len(),
    ensures
        forall|k: int| 0 <= k < spec_unmatched_new_upto(olds, news, kk).len() ==> exists|j: int|
            0 <= j < kk && #[trigger] spec_unmatched_new_upto(olds, news, kk)[k] == news[j] && !spec_new_matched(olds, news, j),
    decreases kk,
{
    if kk > 0 {
        lemma_unmatched_new_members(olds, news, kk - 1);
        let p = spec_unmatched_new_upto(olds, news, kk - 1);
        let u = spec_unmatched_new_upto(olds, news, kk);
        assert forall|k: int| 0 <= k < u.len() implies exists|j: int|
            0 <= j < kk && #[trigger] u[k] == news[j] && !spec_new_matched(olds, news, j) by {
            if k < p.len() {
                assert(u[k] == p[k]);
            } else {
                assert(u[k] == news[kk - 1]);
            }
        }
    }
}

proof fn lemma_unmatched_unique(olds: Seq<SheetRef>, news: Seq<SheetRef>)
    requires
        spec_names_unique(olds),
        spec_names_unique(news),
    ensures
        spec_names_unique(spec_unmatched_old(olds, news)),
        spec_names_unique(spec_unmatched_new(olds, news)),
{
    let uo = spec_unmatched_old(olds, news);
    let un = spec_unmatched_new(olds, news);
    lemma_unmatched_old_members(olds, news);
    lemma_unmatched_new_members(olds, news, news.len() as int);
    assert forall|k1: int, k2: int| 0 <= k1 < k2 < uo.len() implies (#[trigger] uo[k1]).name@ != (#[trigger] uo[k2]).name@ by {
        let i1 = choose|i: int| 0 <= i < olds.len() && uo[k1] == olds[i] && spec_find_name(news, olds[i].name@, 0) is None;
        let i2 = choose|i: int| 0 <= i < olds.len() && uo[k2] == olds[i] && spec_find_name(news, olds[i].name@, 0) is None;
        if uo[k1].name@ == uo[k2].name@ {
            if i1 < i2 {
                assert(olds[i1].name@ != olds[i2].name@);
            } else if i2 < i1 {
                assert(olds[i2].name@ != olds[i1].name@);
            } else {
                lemma_occ_two(uo, olds[i1], k1, k2);
                lemma_exact_old_counts(olds, news, olds[i1]);
            }
        }
    }
    assert forall|k1: int, k2: int| 0 <= k1 < k2 < un.len() implies (#[trigger] un[k1]).name@ != (#[trigger] un[k2]).name@ by {
        let j1 = choose|j: int| 0 <= j < news.len() && un[k1] == news[j] && !spec_new_matched(olds, news, j);
        let j2 = choose|j: int| 0 <= j < news.len() && un[k2] == news[j] && !spec_new_matched(olds, news, j);
        if un[k1].name@ == un[k2].name@ {
            if j1 < j2 {
                assert(news[j1].name@ != news[j2].name@);
            } else if j2 < j1 {
                assert(news[j2].name@ != news[j1].name@);
            } else {
                lemma_occ_two(un, news[j1], k1, k2);
                lemma_unmatched_new_occ(olds, news, j1, news.len() as int);
            }
        }
    }
}

/// The pair is the exact-name pair of some old sheet that has a match.
pub open spec fn spec_exact_from(olds: Seq<SheetRef>, news: Seq<SheetRef>, x: MatchedPair) -> bool {
    exists|a: int|
        0 <= a < olds.len() && spec_find_name(news, olds[a].name@, 0) is Some && x == #[trigger] spec_exact_step(olds[a], news)[0]
}

proof fn lemma_exact_members(olds: Seq<SheetRef>, news: Seq<SheetRef>)
    ensures
        forall|p: int| 0 <= p < spec_exact_pairs(olds, news).len() ==> spec_exact_from(olds, news, #[trigger] spec_exact_pairs(olds, news)[p]),
    decreases olds.len(),
{
    if olds.len() > 0 {
        let q = olds.drop_last();
        lemma_exact_members(q, news);
        let e = spec_exact_pairs(q, news);
        let st = spec_exact_step(olds.last(), news);
        let t = spec_exact_pairs(olds, news);
        assert(t == e + st);
        assert forall|p: int| 0 <= p < t.len() implies spec_exact_from(olds, news, #[trigger] t[p]) by {
            if p < e.len() {
                assert(spec_exact_from(q, news, e[p]));
                let a = choose|a: int|
                    0 <= a < q.len() && spec_find_name(news, q[a].name@, 0) is Some && e[p] == #[trigger] spec_exact_step(q[a], news)[0];
                assert(q[a] == olds[a]);
                assert(t[p] == e[p]);
                assert(0 <= a < olds.len() && spec_find_name(news, olds[a].name@, 0) is Some
                    && t[p] == spec_exact_step(olds[a], news)[0]);
            } else {
                assert(st.len() > 0);
                assert(spec_find_name(news, olds.last().name@, 0) is Some);
                assert(t[p] == st[0]);
                let a = olds.len() - 1;
                assert(olds[a] == olds.last());
                assert(0 <= a < olds.len() && spec_find_name(news, olds[a].name@, 0) is Some
                    && t[p] == spec_exact_step(olds[a], news)[0]);
            }
        }
    } else {
        assert(spec_exact_pairs(olds, news) =~= Seq::<MatchedPair>::empty());
    }
}

proof fn lemma_occ_exists(s: Seq<SheetRef>, x: SheetRef)
    ensures
        spec_occ(s, x) > 0 ==> exists|k: int| 0 <= k < s.len() && #[trigger] s[k] == x,
        spec_occ(s, x) <= s.len(),
    decreases s.len(),
{
    if s.len() > 0 {
        lemma_occ_exists(s.drop_last(), x);
        if spec_occ(s.drop_last(), x) > 0 {
            let k = choose|k: int| 0 <= k < s.drop_last().len() && #[trigger] s.drop_last()[k] == x;
            assert(s[k] == x);
        }
    }
}

proof fn lemma_still_occ(s: Seq<SheetRef>, pairs: Seq<MatchedPair>, x: SheetRef)
    ensures
        spec_occ(spec_still_old(s, pairs), x) == if spec_old_name_paired(pairs, x.name@) { 0 } else { spec_occ(s, x) },
        spec_occ(spec_still_new(s, pairs), x) == if spec_new_name_paired(pairs, x.name@) { 0 } else { spec_occ(s, x) },
    decreases s.len(),
{
    if s.len() > 0 {
        lemma_still_occ(s.drop_last(), pairs, x);
        let d = s.drop_last();
        let so = spec_still_old(d, pairs);
        let sn = spec_still_new(d, pairs);
        if !spec_old_name_paired(pairs, s.last().name@) {
            assert((so + seq![s.last()]).drop_last() =~= so);
        } else {
            assert(so + Seq::<SheetRef>::empty() =~= so);
        }
        if !spec_new_name_paired(pairs, s.last().name@) {
            assert((sn + seq![s.last()]).drop_last() =~= sn);
        } else {
            assert(sn + Seq::<SheetRef>::empty() =~= sn);
        }
    }
}

/// Old sheet `t` of `uo` is paired by index matching.
pub open spec fn spec_index_paired(uo: Seq<SheetRef>, un: Seq<SheetRef>, t: int) -> bool {
    match spec_find_index(un, uo[t].index, 0) {
        Some(ni) => !spec_index_match(uo, un, t).1.contains(ni),
        None => false,
    }
}

proof fn lemma_index_match_facts(uo: Seq<SheetRef>, un: Seq<SheetRef>, k: int)
    requires
        0 <= k <= uo.len(),
        spec_names_unique(uo),
        spec_names_unique(un),
    ensures
        forall|p: int| 0 <= p < spec_index_match(uo, un, k).0.len() ==> exists|t: int, ni: int|
            0 <= t < k && 0 <= ni < un.len() && spec_index_match(uo, un, k).1.contains(ni)
            && (#[trigger] spec_index_match(uo, un, k).0[p]).old_sheet == Some(uo[t])
            && spec_index_match(uo, un, k).0[p].new_sheet == Some(un[ni])
            && spec_index_match(uo, un, k).0[p].change is Renamed,
        forall|x: int| #[trigger] spec_index_match(uo, un, k).1.contains(x) ==> 0 <= x < un.len(),
        forall|t: int| 0 <= t < uo.len() ==> spec_old_count(spec_index_match(uo, un, k).0, #[trigger] uo[t]) == if t < k && spec_index_paired(uo, un, t) {
            1nat
        } else {
            0nat
        },
        forall|j: int| 0 <= j < un.len() ==> spec_new_count(spec_index_match(uo, un, k).0, #[trigger] un[j]) == if spec_index_match(uo, un, k).1.contains(j) {
            1nat
        } else {
            0nat
        },
    decreases k,
{
    if k > 0 {
        lemma_index_match_facts(uo, un, k - 1);
        let prev = spec_index_match(uo, un, k - 1);
        let cur = spec_index_match(uo, un, k);
        let old = uo[k - 1];
        lemma_find_index_bounds(un, old.index, 0);
        if spec_index_paired(uo, un, k - 1) {
            let ni = spec_find_index(un, old.index, 0)->0;
            let pair = cur.0.last();
            assert(cur.0 == prev.0.push(pair));
            assert(cur.0.drop_last() =~= prev.0);
            assert(pair.old_sheet == Some(old));
            assert(pair.new_sheet == Some(un[ni]));
            assert forall|p: int| 0 <= p < cur.0.len() implies exists|t: int, x: int|
                0 <= t < k && 0 <= x < un.len() && cur.1.contains(x)
                && (#[trigger] cur.0[p]).old_sheet == Some(uo[t])
                && cur.0[p].new_sheet == Some(un[x])
                && cur.0[p].change is Renamed by {
                if p < prev.0.len() {
                    assert(cur.0[p] == prev.0[p]);
                    let (t, x) = choose|t: int, x: int|
                        0 <= t < k - 1 && 0 <= x < un.len() && prev.1.contains(x)
                        && (#[trigger] prev.0[p]).old_sheet == Some(uo[t])
                        && prev.0[p].new_sheet == Some(un[x])
                        && prev.0[p].change is Renamed;
                    assert(cur.1.contains(x));
                } else {
                    assert(cur.0[p] == pair);
                    assert(cur.1.contains(ni));
                }
            }
            assert forall|t: int| 0 <= t < uo.len() implies spec_old_count(cur.0, #[trigger] uo[t]) == if t < k && spec_index_paired(uo, un, t) {
                1nat
            } else {
                0nat
            } by {
                assert(spec_old_count(cur.0, uo[t]) == spec_old_count(prev.0, uo[t]) + if pair.old_sheet == Some(uo[t]) { 1nat } else { 0nat });
                if t != k - 1 {
                    if t < k - 1 {
                        assert(uo[t].name@ != uo[k - 1].name@);
                    } else {
                        assert(uo[k - 1].name@ != uo[t].name@);
                    }
                }
            }
            assert forall|j: int| 0 <= j < un.len() implies spec_new_count(cur.0, #[trigger] un[j]) == if cur.1.contains(j) {
                1nat
            } else {
                0nat
            } by {
                assert(spec_new_count(cur.0, un[j]) == spec_new_count(prev.0, un[j]) + if pair.new_sheet == Some(un[j]) { 1nat } else { 0nat });
                if j != ni {
                    if j < ni {
                        assert(un[j].name@ != un[ni].name@);
                    } else {
                        assert(un[ni].name@ != un[j].name@);
                    }
                }
            }
        } else {
            assert(cur == prev);
            assert forall|t: int| 0 <= t < uo.len() implies spec_old_count(cur.0, #[trigger] uo[t]) == if t < k && spec_index_paired(uo, un, t) {
                1nat
            } else {
                0nat
            } by {
            }
            assert forall|p: int| 0 <= p < cur.0.len() implies exists|t: int, x: int|
                0 <= t < k && 0 <= x < un.len() && cur.1.contains(x)
                && (#[trigger] cur.0[p]).old_sheet == Some(uo[t])
                && cur.0[p].new_sheet == Some(un[x])
                && cur.0[p].change is Renamed by {
                let (t, x) = choose|t: int, x: int|
                    0 <= t < k - 1 && 0 <= x < un.len() && prev.1.contains(x)
                    && (#[trigger] prev.0[p]).old_sheet == Some(uo[t])
                    && prev.0[p].new_sheet == Some(un[x])
                    && prev.0[p].change is Renamed;
            }
        }
    } else {
        assert(spec_index_match(uo, un, 0).0 =~= Seq::<MatchedPair>::empty());
    }
}

proof fn lemma_index_mode_once(olds: Seq<SheetRef>, news: Seq<SheetRef>)
    requires
        spec_names_unique(olds),
        spec_names_unique(news),
    ensures
        forall|i: int| 0 <= i < olds.len() ==> spec_old_count(
            spec_match_sheets(olds, news, SheetMatchingMode::ExactNameThenIndex),
            #[trigger] olds[i],
        ) == 1,
        forall|j: int| 0 <= j < news.len() ==> spec_new_count(
            spec_match_sheets(olds, news, SheetMatchingMode::ExactNameThenIndex),
            #[trigger] news[j],
        ) == 1,
{
    let exact = spec_exact_pairs(olds, news);
    let uo = spec_unmatched_old(olds, news);
    let un = spec_unmatched_new(olds, news);
    lemma_unmatched_unique(olds, news);
    lemma_index_match_facts(uo, un, uo.len() as int);
    lemma_exact_members(olds, news);
    let im = spec_index_match(uo, un, uo.len() as int);
    let paired = exact + im.0;
    let so = spec_still_old(uo, paired);
    let sn = spec_still_new(un, paired);
    let res = paired + spec_removed(so) + spec_added(sn);
    assert(res == spec_match_sheets(olds, news, SheetMatchingMode::ExactNameThenIndex));
    assert forall|i: int| 0 <= i < olds.len() implies spec_old_count(res, #[trigger] olds[i]) == 1 by {
        let o = olds[i];
        assert(spec_in(olds, o));
        lemma_exact_old_counts(olds, news, o);
        lemma_counts_concat(exact, im.0, o);
        lemma_counts_concat(paired, spec_removed(so), o);
        lemma_counts_concat(paired + spec_removed(so), spec_added(sn), o);
        lemma_removed_added_counts(so, o);
        lemma_removed_added_counts(sn, o);
        lemma_still_occ(uo, paired, o);
        lemma_count_exists(im.0, o);
        if spec_find_name(news, o.name@, 0) is Some {
            if spec_old_count(im.0, o) > 0 {
                let p = choose|p: int| 0 <= p < im.0.len() && (#[trigger] im.0[p]).old_sheet == Some(o);
                let (t, x) = choose|t: int, x: int|
                    0 <= t < uo.len() && 0 <= x < un.len() && im.1.contains(x)
                    && (#[trigger] im.0[p]).old_sheet == Some(uo[t])
                    && im.0[p].new_sheet == Some(un[x])
                    && im.0[p].change is Renamed;
                lemma_occ_pos(uo, o, t);
            }
        } else {
            lemma_occ_exists(uo, o);
            let k = choose|k: int| 0 <= k < uo.len() && #[trigger] uo[k] == o;
            assert(spec_old_count(im.0, uo[k]) <= 1);
            if spec_old_name_paired(paired, o.name@) {
                let p = choose|p: int|
                    0 <= p < paired.len() && (paired[p].old_sheet matches Some(r) && r.name@ == o.name@) && !(
                    #[trigger] paired[p].change is Removed);
                if p < exact.len() {
                    assert(paired[p] == exact[p]);
                    assert(spec_exact_from(olds, news, exact[p]));
                    let a = choose|a: int|
                        0 <= a < olds.len() && spec_find_name(news, olds[a].name@, 0) is Some && exact[p] == #[trigger] spec_exact_step(olds[a], news)[0];
                    assert(exact[p].old_sheet == Some(olds[a]));
                    assert(olds[a].name@ == o.name@);
                    assert(false);
                } else {
                    let pp = p - exact.len();
                    assert(paired[p] == im.0[pp]);
                    let (t, x) = choose|t: int, x: int|
                        0 <= t < uo.len() && 0 <= x < un.len() && im.1.contains(x)
                        && (#[trigger] im.0[pp]).old_sheet == Some(uo[t])
                        && im.0[pp].new_sheet == Some(un[x])
                        && im.0[pp].change is Renamed;
                    if t < k {
                        assert(uo[t].name@ != uo[k].name@);
                    } else if k < t {
                        assert(uo[k].name@ != uo[t].name@);
                    }
                    assert(im.0[pp].old_sheet == Some(o));
                }
            } else {
                if spec_old_count(im.0, o) > 0 {
                    let p = choose|p: int| 0 <= p < im.0.len() && (#[trigger] im.0[p]).old_sheet == Some(o);
                    let (t, x) = choose|t: int, x: int|
                        0 <= t < uo.len() && 0 <= x < un.len() && im.1.contains(x)
                        && (#[trigger] im.0[p]).old_sheet == Some(uo[t])
                        && im.0[p].new_sheet == Some(un[x])
                        && im.0[p].change is Renamed;
                    assert(paired[exact.len() + p] == im.0[p]);
                    assert(!(paired[exact.len() + p].change is Removed));
                    assert(spec_old_name_paired(paired, o.name@));
                }
            }
        }
    }
    assert forall|j: int| 0 <= j < news.len() implies spec_new_count(res, #[trigger] news[j]) == 1 by {
        let n = news[j];
        lemma_exact_new_counts(olds, news, j);
        lemma_unmatched_new_occ(olds, news, j, news.len() as int);
        lemma_counts_concat(exact, im.0, n);
        lemma_counts_concat(paired, spec_removed(so), n);
        lemma_counts_concat(paired + spec_removed(so), spec_added(sn), n);
        lemma_removed_added_counts(so, n);
        lemma_removed_added_counts(sn, n);
        lemma_still_occ(un, paired, n);
        lemma_count_exists(im.0, n);
        if spec_new_matched(olds, news, j) {
            if spec_new_count(im.0, n) > 0 {
                let p = choose|p: int| 0 <= p < im.0.len() && (#[trigger] im.0[p]).new_sheet == Some(n);
                let (t, x) = choose|t: int, x: int|
                    0 <= t < uo.len() && 0 <= x < un.len() && im.1.contains(x)
                    && (#[trigger] im.0[p]).old_sheet == Some(uo[t])
                    && im.0[p].new_sheet == Some(un[x])
                    && im.0[p].change is Renamed;
                lemma_occ_pos(un, n, x);
            }
        } else {
            lemma_occ_exists(un, n);
            let k = choose|k: int| 0 <= k < un.len() && #[trigger] un[k] == n;
            if spec_new_name_paired(paired, n.name@) {
                let p = choose|p: int|
                    0 <= p < paired.len() && (paired[p].new_sheet matches Some(r) && r.name@ == n.name@) && !(
                    #[trigger] paired[p].change is Added);
                if p < exact.len() {
                    assert(paired[p] == exact[p]);
                    assert(spec_exact_from(olds, news, exact[p]));
                    let a = choose|a: int|
                        0 <= a < olds.len() && spec_find_name(news, olds[a].name@, 0) is Some && exact[p] == #[trigger] spec_exact_step(olds[a], news)[0];
                    let ni = spec_find_name(news, olds[a].name@, 0)->0;
                    lemma_find_name_bounds(news, olds[a].name@, 0);
                    assert(exact[p].new_sheet == Some(news[ni]));
                    if ni < j {
                        assert(news[ni].name@ != news[j].name@);
                    } else if j < ni {
                        assert(news[j].name@ != news[ni].name@);
                    }
                    assert(spec_find_name(news, olds[a].name@, 0) == Some(j));
                    assert(spec_new_matched(olds, news, j));
                } else {
                    let pp = p - exact.len();
                    assert(paired[p] == im.0[pp]);
                    let (t, x) = choose|t: int, x: int|
                        0 <= t < uo.len() && 0 <= x < un.len() && im.1.contains(x)
                        && (#[trigger] im.0[pp]).old_sheet == Some(uo[t])
                        && im.0[pp].new_sheet == Some(un[x])
                        && im.0[pp].change is Renamed;
                    if x < k {
                        assert(un[x].name@ != un[k].name@);
                    } else if k < x {
                        assert(un[k].name@ != un[x].name@);
                    }
                    assert(im.1.contains(k));
                }
            } else {
                if im.1.contains(k) {
                    assert(spec_new_count(im.0, un[k]) == 1);
                    let p = choose|p: int| 0 <= p < im.0.len() && (#[trigger] im.0[p]).new_sheet == Some(n);
                    let (t, x) = choose|t: int, x: int|
                        0 <= t < uo.len() && 0 <= x < un.len() && im.1.contains(x)
                        && (#[trigger] im.0[p]).old_sheet == Some(uo[t])
                        && im.0[p].new_sheet == Some(un[x])
                        && im.0[p].change is Renamed;
                    assert(paired[exact.len() + p] == im.0[p]);
                    assert(!(paired[exact.len() + p].change is Added));
                    assert(spec_new_name_paired(paired, n.name@));
                }
            }
        }
    }
}

/// The pair takes its sheets from the two lists: it has at least one, and
/// each it has is one of its side's sheets.
pub open spec fn spec_pair_from(olds: Seq<SheetRef>, news: Seq<SheetRef>, x: MatchedPair) -> bool {
    &&& x.old_sheet is Some || x.new_sheet is Some
    &&& (x.old_sheet matches Some(o) ==> spec_in(olds, o))
    &&& (x.new_sheet matches Some(n) ==> spec_in(news, n))
}

/// Every pair of the list takes its sheets from the two lists.
pub open spec fn spec_pairs_from(olds: Seq<SheetRef>, news: Seq<SheetRef>, ps: Seq<MatchedPair>) -> bool {
    forall|p: int| 0 <= p < ps.len() ==> spec_pair_from(olds, news, #[trigger] ps[p])
}

proof fn lemma_pairs_from_concat(olds: Seq<SheetRef>, news: Seq<SheetRef>, a: Seq<MatchedPair>, b: Seq<MatchedPair>)
    requires
        spec_pairs_from(olds, news, a),
        spec_pairs_from(olds, news, b),
    ensures
        spec_pairs_from(olds, news, a + b),
{
    assert forall|p: int| 0 <= p < (a + b).len() implies spec_pair_from(olds, news, #[trigger] (a + b)[p]) by {
        if p < a.len() {
            assert((a + b)[p] == a[p]);
        } else {
            assert((a + b)[p] == b[p - a.len()]);
        }
    }
}

proof fn lemma_sub_in(s: Seq<SheetRef>, big: Seq<SheetRef>, o: SheetRef)
    requires
        forall|k: int| 0 <= k < s.len() ==> spec_in(big, #[trigger] s[k]),
        spec_in(s, o),
    ensures
        spec_in(big, o),
{
    let k = choose|k: int| 0 <= k < s.len() && s[k] == o;
    assert(spec_in(big, s[k]));
}

proof fn lemma_still_old_in(s: Seq<SheetRef>, pairs: Seq<MatchedPair>)
    ensures
        forall|k: int| 0 <= k < spec_still_old(s, pairs).len() ==> spec_in(s, #[trigger] spec_still_old(s, pairs)[k]),
    decreases s.len(),
{
    if s.len() > 0 {
        let d = s.drop_last();
        lemma_still_old_in(d, pairs);
        let p = spec_still_old(d, pairs);
        let t = spec_still_old(s, pairs);
        assert forall|k: int| 0 <= k < t.len() implies spec_in(s, #[trigger] t[k]) by {
            if k < p.len() {
                assert(t[k] == p[k]);
                assert(spec_in(d, p[k]));
                let i = choose|i: int| 0 <= i < d.len() && d[i] == p[k];
                assert(s[i] == d[i]);
            } else {
                assert(t[k] == s.last());
                assert(s[s.len() - 1] == s.last());
            }
        }
    }
}

proof fn lemma_still_new_in(s: Seq<SheetRef>, pairs: Seq<MatchedPair>)
    ensures
        forall|k: int| 0 <= k < spec_still_new(s, pairs).len() ==> spec_in(s, #[trigger] spec_still_new(s, pairs)[k]),
    decreases s.len(),
{
    if s.len() > 0 {
        let d = s.drop_last();
        lemma_still_new_in(d, pairs);
        let p = spec_still_new(d, pairs);
        let t = spec_still_new(s, pairs);
        assert forall|k: int| 0 <= k < t.len() implies spec_in(s, #[trigger] t[k]) by {
            if k < p.len() {
                assert(t[k] == p[k]);
                assert(spec_in(d, p[k]));
                let i = choose|i: int| 0 <= i < d.len() && d[i] == p[k];
                assert(s[i] == d[i]);
            } else {
                assert(t[k] == s.last());
                assert(s[s.len() - 1] == s.last());
            }
        }
    }
}

proof fn lemma_index_match_from(uo: Seq<SheetRef>, un: Seq<SheetRef>, k: int)
    requires
        0 <= k <= uo.len(),
    ensures
        spec_pairs_from(uo, un, spec_index_match(uo, un, k).0),
    decreases k,
{
    if k > 0 {
        lemma_index_match_from(uo, un, k - 1);
        let prev = spec_index_match(uo, un, k - 1);
        let old = uo[k - 1];
        lemma_find_index_bounds(un, old.index, 0);
        match spec_find_index(un, old.index, 0) {
            Some(ni) => if !prev.1.contains(ni) {
                let t = spec_index_match(uo, un, k).0;
                assert forall|p: int| 0 <= p < t.len() implies spec_pair_from(uo, un, #[trigger] t[p]) by {
                    if p < prev.0.len() {
                        assert(t[p] == prev.0[p]);
                    } else {
                        assert(spec_in(uo, uo[k - 1]));
                        assert(spec_in(un, un[ni]));
                    }
                }
            },
            None => {},
        }
    }
}

proof fn lemma_sheets_from(olds: Seq<SheetRef>, news: Seq<SheetRef>, s: Seq<SheetRef>, old_side: bool)
    requires
        forall|k: int| 0 <= k < s.len() ==> spec_in(if old_side { olds } else { news }, #[trigger] s[k]),
    ensures
        spec_pairs_from(olds, news, if old_side { spec_removed(s) } else { spec_added(s) }),
{
    let ps = if old_side { spec_removed(s) } else { spec_added(s) };
    assert forall|p: int| 0 <= p < ps.len() implies spec_pair_from(olds, news, #[trigger] ps[p]) by {
        assert(spec_in(if old_side { olds } else { news }, s[p]));
    }
}

/// Every pair takes its sheets from the two workbooks' sheet lists, in every
/// matching mode.
pub proof fn lemma_pairs_from(olds: Seq<SheetRef>, news: Seq<SheetRef>, mode: SheetMatchingMode)
    ensures
        spec_pairs_from(olds, news, spec_match_sheets(olds, news, mode)),
{
    let exact = spec_exact_pairs(olds, news);
    let uo = spec_unmatched_old(olds, news);
    let un = spec_unmatched_new(olds, news);
    lemma_exact_members(olds, news);
    assert forall|p: int| 0 <= p < exact.len() implies spec_pair_from(olds, news, #[trigger] exact[p]) by {
        assert(spec_exact_from(olds, news, exact[p]));
        let a = choose|a: int|
            0 <= a < olds.len() && spec_find_name(news, olds[a].name@, 0) is Some && exact[p] == #[trigger] spec_exact_step(olds[a], news)[0];
        lemma_find_name_bounds(news, olds[a].name@, 0);
        let ni = spec_find_name(news, olds[a].name@, 0).unwrap();
        assert(spec_in(olds, olds[a]));
        assert(spec_in(news, news[ni]));
    }
    lemma_unmatched_old_members(olds, news);
    lemma_unmatched_new_members(olds, news, news.len() as int);
    assert forall|k: int| 0 <= k < uo.len() implies spec_in(olds, #[trigger] uo[k]) by {
        let i = choose|i: int| 0 <= i < olds.len() && uo[k] == olds[i] && spec_find_name(news, olds[i].name@, 0) is None;
    }
    assert forall|k: int| 0 <= k < un.len() implies spec_in(news, #[trigger] un[k]) by {
        let j = choose|j: int| 0 <= j < news.len() && un[k] == news[j] && !spec_new_matched(olds, news, j);
    }
    lemma_sheets_from(olds, news, uo, true);
    lemma_sheets_from(olds, news, un, false);
    lemma_pairs_from_concat(olds, news, exact, spec_removed(uo));
    lemma_pairs_from_concat(olds, news, exact + spec_removed(uo), spec_added(un));
    match mode {
        SheetMatchingMode::ExactNameOnly => {},
        SheetMatchingMode::ExactNameThenConservativeRename => {
            if uo.len() == 1 && un.len() == 1 {
                let one = seq![spec_rename_pair(uo[0], un[0])];
                assert(spec_in(olds, uo[0]));
                assert(spec_in(news, un[0]));
                assert(spec_pairs_from(olds, news, one));
                lemma_pairs_from_concat(olds, news, exact, one);
                assert(exact.push(spec_rename_pair(uo[0], un[0])) =~= exact + one);
            }
        },
        SheetMatchingMode::ExactNameThenIndex => {
            let im = spec_index_match(uo, un, uo.len() as int).0;
            lemma_index_match_from(uo, un, uo.len() as int);
            assert forall|p: int| 0 <= p < im.len() implies spec_pair_from(olds, news, #[trigger] im[p]) by {
                assert(spec_pair_from(uo, un, im[p]));
                if let Some(o) = im[p].old_sheet {
                    lemma_sub_in(uo, olds, o);
                }
                if let Some(n) = im[p].new_sheet {
                    lemma_sub_in(un, news, n);
                }
            }
            lemma_pairs_from_concat(olds, news, exact, im);
            let paired = exact + im;
            let so = spec_still_old(uo, paired);
            let sn = spec_still_new(un, paired);
            lemma_still_old_in(uo, paired);
            lemma_still_new_in(un, paired);
            assert forall|k: int| 0 <= k < so.len() implies spec_in(olds, #[trigger] so[k]) by {
                lemma_sub_in(uo, olds, so[k]);
            }
            assert forall|k: int| 0 <= k < sn.len() implies spec_in(news, #[trigger] sn[k]) by {
                lemma_sub_in(un, news, sn[k]);
            }
            lemma_sheets_from(olds, news, so, true);
            lemma_sheets_from(olds, news, sn, false);
            lemma_pairs_from_concat(olds, news, paired, spec_removed(so));
            lemma_pairs_from_concat(olds, news, paired + spec_removed(so), spec_added(sn));
        },
    }
}

proof fn lemma_find_name_none(s: Seq<SheetRef>, name: Seq<char>, from: int)
    requires
        0 <= from,
        spec_find_name(s, name, from) is None,
    ensures
        forall|j: int| from <= j < s.len() ==> (#[trigger] s[j]).name@ != name,
    decreases s.len() - from,
{
    if from < s.len() {
        lemma_find_name_none(s, name, from + 1);
    }
}

/// An unmatched old sheet's name is no new sheet's name.
proof fn lemma_unmatched_name_absent(olds: Seq<SheetRef>, news: Seq<SheetRef>, o: SheetRef, n: SheetRef)
    requires
        spec_in(spec_unmatched_old(olds, news), o),
        spec_in(news, n),
    ensures
        o.name@ != n.name@,
{
    lemma_unmatched_old_members(olds, news);
    let uo = spec_unmatched_old(olds, news);
    let k = choose|k: int| 0 <= k < uo.len() && uo[k] == o;
    let i = choose|i: int| 0 <= i < olds.len() && #[trigger] uo[k] == olds[i] && spec_find_name(news, olds[i].name@, 0) is None;
    lemma_find_name_none(news, o.name@, 0);
    let j = choose|j: int| 0 <= j < news.len() && news[j] == n;
    assert(news[j].name@ != o.name@);
}

/// In every matching mode, a pair whose two sheets share a name is an exact
/// match: `Unchanged` when the sheet keeps its index, `Moved` when it does not.
pub proof fn lemma_same_name_pair_change(olds: Seq<SheetRef>, news: Seq<SheetRef>, mode: SheetMatchingMode, k: int)
    requires
        0 <= k < spec_match_sheets(olds, news, mode).len(),
    ensures
        ({
            let p = spec_match_sheets(olds, news, mode)[k];
            let o = p.old_sheet.unwrap();
            let n = p.new_sheet.unwrap();
            p.old_sheet is Some && p.new_sheet is Some && o.name@ == n.name@ ==> p.change == if o.index == n.index {
                SheetChange::Unchanged
            } else {
                SheetChange::Moved
            }
        }),
{
    let ps = spec_match_sheets(olds, news, mode);
    let exact = spec_exact_pairs(olds, news);
    let uo = spec_unmatched_old(olds, news);
    let un = spec_unmatched_new(olds, news);
    let p = ps[k];
    lemma_exact_members(olds, news);
    lemma_unmatched_new_members(olds, news, news.len() as int);
    if p.old_sheet is Some && p.new_sheet is Some && p.old_sheet.unwrap().name@ == p.new_sheet.unwrap().name@ {
        let o = p.old_sheet.unwrap();
        let n = p.new_sheet.unwrap();
        if k < exact.len() {
            match mode {
                SheetMatchingMode::ExactNameOnly => {
                    assert(p == (exact + spec_removed(uo) + spec_added(un))[k]);
                },
                SheetMatchingMode::ExactNameThenConservativeRename => {
                    if uo.len() == 0 && un.len() == 0 {
                    } else if uo.len() == 1 && un.len() == 1 {
                        assert(p == exact.push(spec_rename_pair(uo[0], un[0]))[k]);
                    } else {
                        assert(p == (exact + spec_removed(uo) + spec_added(un))[k]);
                    }
                },
                SheetMatchingMode::ExactNameThenIndex => {
                    let im = spec_index_match(uo, un, uo.len() as int).0;
                    let paired = exact + im;
                    let q = paired + spec_removed(spec_still_old(uo, paired)) + spec_added(spec_still_new(un, paired));
                    assert(p == q[k]);
                    assert(q[k] == paired[k]);
                },
            }
            assert(p == exact[k]);
            assert(spec_exact_from(olds, news, exact[k]));
            let a = choose|a: int|
                0 <= a < olds.len() && spec_find_name(news, olds[a].name@, 0) is Some && exact[k] == #[trigger] spec_exact_step(olds[a], news)[0];
            lemma_find_name_bounds(news, olds[a].name@, 0);
        } else {
            match mode {
                SheetMatchingMode::ExactNameOnly => {
                    let q = exact + spec_removed(uo) + spec_added(un);
                    assert(p == q[k]);
                    if k < exact.len() + uo.len() {
                        assert(q[k] == spec_removed(uo)[k - exact.len()]);
                    } else {
                        assert(q[k] == spec_added(un)[k - exact.len() - uo.len()]);
                    }
                },
                SheetMatchingMode::ExactNameThenConservativeRename => {
                    if uo.len() == 1 && un.len() == 1 {
                        assert(p == spec_rename_pair(uo[0], un[0]));
                        assert(spec_in(uo, uo[0]));
                        let j = choose|j: int| 0 <= j < news.len() && #[trigger] un[0] == news[j] && !spec_new_matched(olds, news, j);
                        assert(spec_in(news, news[j]));
                        lemma_unmatched_name_absent(olds, news, uo[0], un[0]);
                    } else {
                        let q = exact + spec_removed(uo) + spec_added(un);
                        assert(p == q[k]);
                        if k < exact.len() + uo.len() {
                            assert(q[k] == spec_removed(uo)[k - exact.len()]);
                        } else {
                            assert(q[k] == spec_added(un)[k - exact.len() - uo.len()]);
                        }
                    }
                },
                SheetMatchingMode::ExactNameThenIndex => {
                    let im = spec_index_match(uo, un, uo.len() as int).0;
                    let paired = exact + im;
                    let so = spec_still_old(uo, paired);
                    let sn = spec_still_new(un, paired);
                    let q = paired + spec_removed(so) + spec_added(sn);
                    assert(p == q[k]);
                    if k < paired.len() {
                        assert(q[k] == paired[k]);
                        assert(paired[k] == im[k - exact.len()]);
                        lemma_index_match_from(uo, un, uo.len() as int);
                        assert(spec_pair_from(uo, un, im[k - exact.len()]));
                        let jn = choose|jn: int| 0 <= jn < un.len() && un[jn] == n;
                        let j = choose|j: int| 0 <= j < news.len() && #[trigger] un[jn] == news[j] && !spec_new_matched(olds, news, j);
                        assert(spec_in(news, news[j]));
                        lemma_unmatched_name_absent(olds, news, o, n);
                    } else if k < paired.len() + so.len() {
                        assert(q[k] == spec_removed(so)[k - paired.len()]);
                    } else {
                        assert(q[k] == spec_added(sn)[k - paired.len() - so.len()]);
                    }
                },
            }
        }
    }
}

/// In the conservative mode, a pair of two differently named sheets is a
/// rename of the one unmatched old sheet into the one unmatched new sheet:
/// `Renamed` at Medium confidence when the sheet keeps its index, and
/// `RenamedAndMoved` at Low confidence when its index changes. Sheets paired
/// under one name keep that name on both sides.
pub proof fn lemma_conservative_rename_change(olds: Seq<SheetRef>, news: Seq<SheetRef>, k: int)
    requires
        0 <= k < spec_match_sheets(olds, news, SheetMatchingMode::ExactNameThenConservativeRename).len(),
    ensures
        ({
            let p = spec_match_sheets(olds, news, SheetMatchingMode::ExactNameThenConservativeRename)[k];
            let o = p.old_sheet.unwrap();
            let n = p.new_sheet.unwrap();
            p.old_sheet is Some && p.new_sheet is Some && o.name@ != n.name@ ==> {
                &&& o.index == n.index ==> p.change == (SheetChange::Renamed {
                    confidence: MatchConfidence::Medium,
                    reason: SheetMatchReason::IndexAndContent,
                })
                &&& o.index != n.index ==> p.change == (SheetChange::RenamedAndMoved {
                    confidence: MatchConfidence::Low,
                    reason: SheetMatchReason::IndexAndContent,
                })
                &&& spec_unmatched_old(olds, news) == seq![o]
                &&& spec_unmatched_new(olds, news) == seq![n]
            }
        }),
{
    let ps = spec_match_sheets(olds, news, SheetMatchingMode::ExactNameThenConservativeRename);
    let exact = spec_exact_pairs(olds, news);
    let uo = spec_unmatched_old(olds, news);
    let un = spec_unmatched_new(olds, news);
    let p = ps[k];
    lemma_exact_members(olds, news);
    if k < exact.len() {
        if uo.len() == 0 && un.len() == 0 {
            assert(p == exact[k]);
        } else if uo.len() == 1 && un.len() == 1 {
            assert(p == exact.push(spec_rename_pair(uo[0], un[0]))[k]);
            assert(p == exact[k]);
        } else {
            assert(p == (exact + spec_removed(uo) + spec_added(un))[k]);
            assert(p == exact[k]);
        }
        assert(spec_exact_from(olds, news, exact[k]));
        let a = choose|a: int|
            0 <= a < olds.len() && spec_find_name(news, olds[a].name@, 0) is Some && exact[k] == #[trigger] spec_exact_step(olds[a], news)[0];
        lemma_find_name_bounds(news, olds[a].name@, 0);
    } else if uo.len() == 1 && un.len() == 1 {
        assert(p == spec_rename_pair(uo[0], un[0]));
        assert(uo =~= seq![uo[0]]);
        assert(un =~= seq![un[0]]);
    } else {
        let q = exact + spec_removed(uo) + spec_added(un);
        assert(p == q[k]);
        if k < exact.len() + uo.len() {
            assert(q[k] == (exact + spec_removed(uo))[k]);
            assert(q[k] == spec_removed(uo)[k - exact.len()]);
        } else {
            assert(q[k] == spec_added(un)[k - exact.len() - uo.len()]);
        }
    }
}

/// Pairing takes each sheet exactly once: when the sheet names of each
/// workbook are distinct, as a workbook's are, every old sheet is the old side
/// of exactly one pair and every new sheet the new side of exactly one, in
/// every matching mode.
pub proof fn lemma_each_sheet_paired_once(olds: Seq<SheetRef>, news: Seq<SheetRef>, mode: SheetMatchingMode)
    requires
        spec_names_unique(olds),
        spec_names_unique(news),
    ensures
        forall|i: int| 0 <= i < olds.len() ==> spec_old_count(spec_match_sheets(olds, news, mode), #[trigger] olds[i]) == 1,
        forall|j: int| 0 <= j < news.len() ==> spec_new_count(spec_match_sheets(olds, news, mode), #[trigger] news[j]) == 1,
{
    if mode is ExactNameThenIndex {
        lemma_index_mode_once(olds, news);
    } else {
        let exact = spec_exact_pairs(olds, news);
        let uo = spec_unmatched_old(olds, news);
        let un = spec_unmatched_new(olds, news);
        assert forall|i: int| 0 <= i < olds.len() implies spec_old_count(spec_match_sheets(olds, news, mode), #[trigger] olds[i]) == 1 by {
            let o = olds[i];
            assert(spec_in(olds, o));
            lemma_exact_old_counts(olds, news, o);
            lemma_removed_added_counts(uo, o);
            lemma_removed_added_counts(un, o);
            lemma_counts_concat(exact, spec_removed(uo), o);
            lemma_counts_concat(exact + spec_removed(uo), spec_added(un), o);
            if uo.len() == 1 && un.len() == 1 {
                lemma_occ_single(uo, o);
                lemma_counts_concat(exact, seq![spec_rename_pair(uo[0], un[0])], o);
                assert(exact.push(spec_rename_pair(uo[0], un[0])) == exact + seq![spec_rename_pair(uo[0], un[0])]);
                let one = seq![spec_rename_pair(uo[0], un[0])];
                assert(one.drop_last() =~= Seq::<MatchedPair>::empty());
                assert(spec_old_count(one.drop_last(), o) == 0);
            }
        }
        assert forall|j: int| 0 <= j < news.len() implies spec_new_count(spec_match_sheets(olds, news, mode), #[trigger] news[j]) == 1 by {
            let n = news[j];
            lemma_exact_new_counts(olds, news, j);
            lemma_unmatched_new_occ(olds, news, j, news.len() as int);
            lemma_removed_added_counts(uo, n);
            lemma_removed_added_counts(un, n);
            lemma_counts_concat(exact, spec_removed(uo), n);
            lemma_counts_concat(exact + spec_removed(uo), spec_added(un), n);
            if uo.len() == 1 && un.len() == 1 {
                lemma_occ_single(un, n);
                lemma_counts_concat(exact, seq![spec_rename_pair(uo[0], un[0])], n);
                assert(exact.push(spec_rename_pair(uo[0], un[0])) == exact + seq![spec_rename_pair(uo[0], un[0])]);
                let one = seq![spec_rename_pair(uo[0], un[0])];
                assert(one.drop_last() =~= Seq::<MatchedPair>::empty());
                assert(spec_new_count(one.drop_last(), n) == 0);
            }
        }
    }
}

} // verus!
