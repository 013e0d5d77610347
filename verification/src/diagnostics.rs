//! Diagnostics: what the analysis passes report about analyzed code, and
//! the grouped summary batch mode prints.

use crate::seq_views::views;
use crate::symbols::FileLocation;
use crate::symbols::FileLocationV;
use itertools::Itertools;
use vstd::prelude::*;

verus! {

broadcast use {vstd::seq::group_seq_axioms, vstd::std_specs::vec::group_vec_axioms};

/// How grave a reported issue is.
#[derive(Clone, Copy, Debug, PartialEq, Eq, Structural)]
pub enum Severity {
    Hint,
    Information,
    Warning,
    Error,
}

/// One reported issue: severity, source range, message, and an identity
/// discriminator that groups issues of one kind.
#[derive(Debug, PartialEq, Eq)]
pub struct Diagnostic {
    pub severity: Severity,
    pub location: FileLocation,
    pub message: String,
    pub kind: u32,
}

/// Ghost counterpart of `Diagnostic`.
pub struct DiagnosticV {
    pub severity: Severity,
    pub location: FileLocationV,
    pub message: Seq<char>,
    pub kind: u32,
}

impl View for Diagnostic {
    type V = DiagnosticV;

    open spec fn view(&self) -> DiagnosticV {
        DiagnosticV {
            severity: self.severity,
            location: self.location@,
            message: self.message@,
            kind: self.kind,
        }
    }
}

impl Diagnostic {
    /// A copy, equal to the original in view.
    pub fn duplicate(&self) -> (r: Diagnostic)
        ensures
            r@ == self@,
    {
        Diagnostic {
            severity: self.severity,
            location: self.location.duplicate(),
            message: self.message.clone(),
            kind: self.kind,
        }
    }
}

/// A copy of a diagnostic list, equal to the original in view.
pub fn clone_diagnostics(ds: &Vec<Diagnostic>) -> (r: Vec<Diagnostic>)
    ensures
        views(r@) == views(ds@),
{
    let mut out: Vec<Diagnostic> = Vec::new();
    let mut i: usize = 0;
    while i < ds.len()
        invariant
            i <= ds.len(),
            views(out@) == views(ds@).take(i as int),
            out@.len() == i,
        decreases ds.len() - i,
    {
        let copied = ds[i].duplicate();
        proof {
            crate::seq_views::lemma_views_push(out@, copied);
            crate::seq_views::lemma_views_index(ds@, i as int);
            crate::seq_views::lemma_views_len(out@);
            assert(views(ds@).take(i as int).push(views(ds@)[i as int]) =~= views(ds@).take(
                i + 1,
            ));
        }
        out.push(copied);
        i = i + 1;
    }
    proof {
        crate::seq_views::lemma_views_len(ds@);
        assert(views(ds@).take(views(ds@).len() as int) =~= views(ds@));
    }
    out
}

/// Moves a copy of every diagnostic of `extra` to the end of `out`.
pub fn append_diagnostics(out: &mut Vec<Diagnostic>, extra: &Vec<Diagnostic>)
    ensures
        views(final(out)@) == views(old(out)@) + views(extra@),
{
    let mut i: usize = 0;
    proof {
        crate::seq_views::lemma_views_len(extra@);
        assert(views(extra@).take(0) =~= Seq::<DiagnosticV>::empty());
        assert(views(old(out)@) + Seq::<DiagnosticV>::empty() =~= views(old(out)@));
    }
    while i < extra.len()
        invariant
            i <= extra.len(),
            views(extra@).len() == extra@.len(),
            views(out@) =~= views(old(out)@) + views(extra@).take(i as int),
        decreases extra.len() - i,
    {
        let copied = extra[i].duplicate();
        proof {
            crate::seq_views::lemma_views_push(out@, copied);
            crate::seq_views::lemma_views_index(extra@, i as int);
            assert((views(old(out)@) + views(extra@).take(i as int)).push(
                views(extra@)[i as int],
            ) =~= views(old(out)@) + views(extra@).take(i + 1));
        }
        out.push(copied);
        i = i + 1;
    }
    proof {
        assert(views(extra@).take(extra@.len() as int) =~= views(extra@));
    }
}

/// How many of the numbers equal `k`.
pub open spec fn count_kind(s: Seq<u32>, k: u32) -> nat
    decreases s,
{
    if s.len() == 0 {
        0
    } else {
        count_kind(s.drop_last(), k) + (if s.last() == k {
            1nat
        } else {
            0nat
        })
    }
}

/// How many diagnostics carry the kind `k`.
pub open spec fn count_diag_kind(s: Seq<Diagnostic>, k: u32) -> nat
    decreases s,
{
    if s.len() == 0 {
        0
    } else {
        count_diag_kind(s.drop_last(), k) + (if s.last().kind == k {
            1nat
        } else {
            0nat
        })
    }
}

pub proof fn lemma_count_kinds_agree(ds: Seq<Diagnostic>, kinds: Seq<u32>, k: u32)
    requires
        kinds.len() == ds.len(),
        forall|j: int| 0 <= j < ds.len() ==> kinds[j] == ds[j].kind,
    ensures
        count_kind(kinds, k) == count_diag_kind(ds, k),
    decreases ds.len(),
{
    if ds.len() > 0 {
        lemma_count_kinds_agree(ds.drop_last(), kinds.drop_last(), k);
    }
}

/// Some group carries the key `k`.
pub open spec fn group_has_kind(r: Seq<(u32, Vec<u32>)>, k: u32) -> bool {
    exists|g: int| 0 <= g < r.len() && r[g].0 == k
}

/// Some summary pair carries the key `k`.
pub open spec fn summary_has_kind(r: Seq<(u32, usize)>, k: u32) -> bool {
    exists|g: int| 0 <= g < r.len() && r[g].0 == k
}

/// Relies on itertools' `into_group_map`: every pair lands in its key's
/// group, so each group holds exactly the occurrences of its key, each
/// key once, in no promised group order (a hash map is walked).
#[verifier::external_body]
fn group_by_kind(kinds: Vec<u32>) -> (r: Vec<(u32, Vec<u32>)>)
    ensures
        forall|g: int, x: int|
            0 <= g < r@.len() && 0 <= x < r@[g].1@.len() ==> r@[g].1@[x] == r@[g].0,
        forall|g: int| 0 <= g < r@.len() ==> r@[g].1@.len() == count_kind(kinds@, r@[g].0),
        forall|g: int, h: int| 0 <= g < h < r@.len() ==> r@[g].0 != r@[h].0,
        forall|i: int| 0 <= i < kinds@.len() ==> group_has_kind(r@, #[trigger] kinds@[i]),
{
    let m: std::collections::HashMap<u32, Vec<u32>> = kinds.into_iter().map(
        |k| (k, k),
    ).into_group_map();
    m.into_iter().collect()
}

/// How often each issue kind occurs: one pair per distinct kind, in no
/// promised order.
pub fn issue_summary(issues: &Vec<Diagnostic>) -> (r: Vec<(u32, usize)>)
    ensures
        forall|g: int| 0 <= g < r@.len() ==> r@[g].1 == count_diag_kind(issues@, r@[g].0),
        forall|g: int, h: int| 0 <= g < h < r@.len() ==> r@[g].0 != r@[h].0,
        forall|i: int|
            0 <= i < issues@.len() ==> summary_has_kind(r@, (#[trigger] issues@[i]).kind),
{
    let mut kinds: Vec<u32> = Vec::new();
    let mut i: usize = 0;
    while i < issues.len()
        invariant
            i <= issues.len(),
            kinds@.len() == i,
            forall|j: int| 0 <= j < i ==> kinds@[j] == issues@[j].kind,
        decreases issues.len() - i,
    {
        kinds.push(issues[i].kind);
        i = i + 1;
    }
    let ghost kv: Seq<u32> = kinds@;
    let groups = group_by_kind(kinds);
    let mut out: Vec<(u32, usize)> = Vec::new();
    let mut g: usize = 0;
    while g < groups.len()
        invariant
            g <= groups.len(),
            kv.len() == issues@.len(),
            forall|j: int| 0 <= j < issues@.len() ==> kv[j] == issues@[j].kind,
            out@.len() == g,
            forall|p: int| 0 <= p < g ==> out@[p].0 == groups@[p].0,
            forall|p: int| 0 <= p < g ==> out@[p].1 == count_kind(kv, out@[p].0),
            forall|p: int| 0 <= p < groups@.len() ==> groups@[p].1@.len() == count_kind(
                kv,
                groups@[p].0,
            ),
        decreases groups.len() - g,
    {
        let pair = (groups[g].0, groups[g].1.len());
        out.push(pair);
        g = g + 1;
    }
    proof {
        assert forall|p: int| 0 <= p < out@.len() implies out@[p].1 == count_diag_kind(
            issues@,
            out@[p].0,
        ) by {
            lemma_count_kinds_agree(issues@, kv, out@[p].0);
        }
        assert forall|i2: int| 0 <= i2 < issues@.len() implies summary_has_kind(
            out@,
            (#[trigger] issues@[i2]).kind,
        ) by {
            assert(kv[i2] == issues@[i2].kind);
            assert(group_has_kind(groups@, kv[i2]));
            let w = choose|g2: int| 0 <= g2 < groups@.len() && groups@[g2].0 == kv[i2];
            assert(out@[w].0 == groups@[w].0);
            assert(out@[w].0 == issues@[i2].kind);
        }
    }
    out
}

} // verus!
