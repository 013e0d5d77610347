//! One analysis root: its file registry, the two-pass scheduler that
//! turns the registry into a shared symbol table and a diagnostic list,
//! and the round-robin plan that spreads the registry over a worker
//! pool.
//!
//! The scheduler publishes a result that depends on the registry alone:
//! pass 1 declares every file's symbols into a fresh table, a hard
//! barrier ends pass 1 before any pass-2 work, and pass 2 resolves every
//! file's references against the completed table. The worker count is
//! validated and sizes the pool; it never changes the published result.

use crate::diagnostics::Diagnostic;
use crate::diagnostics::DiagnosticV;
use crate::progress::CallbackProgress;
use crate::progress::ProgressEvent;
use crate::progress::ProgressV;
use crate::seq_views::lemma_views_push;
use crate::seq_views::views;
use crate::source_unit::spec_declare_all;
use crate::source_unit::spec_unresolved;
use crate::source_unit::CachedSourceUnit;
use crate::symbols::spec_declared_names;
use crate::symbols::spec_has_symbol;
use crate::symbols::table_wf;
use crate::symbols::FileLocationV;
use crate::symbols::SymbolTable;
use crate::uri::parse_uri;
use crate::uri::Uri;
use vstd::prelude::*;

verus! {

broadcast use {vstd::seq::group_seq_axioms, vstd::std_specs::vec::group_vec_axioms};

/// The ways a run's configuration can be rejected, before any work
/// starts.
#[derive(Clone, Copy, Debug, PartialEq, Eq, Structural)]
pub enum ConfigError {
    /// The worker count was zero.
    ZeroWorkers,
    /// The worker count was above sixty-four.
    TooManyWorkers,
}

/// The largest accepted worker count.
pub const MAX_WORKERS: usize = 64;

/// The table after pass 1 of one file: its declarations entered, an
/// unparsed file skipped.
pub open spec fn spec_apply_unit(
    t: Seq<(Seq<char>, Seq<FileLocationV>)>,
    f: CachedSourceUnit,
) -> Seq<(Seq<char>, Seq<FileLocationV>)> {
    match f.unit {
        Some(u) => spec_declare_all(t, u.declarations@),
        None => t,
    }
}

/// The table after pass 1 of every file, in registry order.
pub open spec fn spec_run_pass1(
    t: Seq<(Seq<char>, Seq<FileLocationV>)>,
    files: Seq<CachedSourceUnit>,
) -> Seq<(Seq<char>, Seq<FileLocationV>)>
    decreases files.len(),
{
    if files.len() == 0 {
        t
    } else {
        spec_run_pass1(spec_apply_unit(t, files[0]), files.skip(1))
    }
}

/// The diagnostics pass 2 of one file reports against the completed
/// table; an unparsed file reports none.
pub open spec fn spec_unit_issues(
    t: Seq<(Seq<char>, Seq<FileLocationV>)>,
    f: CachedSourceUnit,
) -> Seq<DiagnosticV> {
    match f.unit {
        Some(u) => spec_unresolved(t, u.references@),
        None => Seq::empty(),
    }
}

/// The diagnostics of pass 2 over every file, in registry order, each
/// against the same completed table.
pub open spec fn spec_run_pass2(
    t: Seq<(Seq<char>, Seq<FileLocationV>)>,
    files: Seq<CachedSourceUnit>,
) -> Seq<DiagnosticV>
    decreases files.len(),
{
    if files.len() == 0 {
        Seq::empty()
    } else {
        spec_unit_issues(t, files[0]) + spec_run_pass2(t, files.skip(1))
    }
}

/// The progress state and the emissions after `k` reports under one
/// label.
pub open spec fn spec_pass_reports(p: ProgressV, label: Seq<char>, k: nat) -> (
    ProgressV,
    Seq<(int, Seq<char>)>,
)
    decreases k,
{
    if k == 0 {
        (p, Seq::empty())
    } else {
        let step = p.spec_step(label);
        let rest = spec_pass_reports(step.0, label, (k - 1) as nat);
        (
            rest.0,
            (match step.1 {
                Some(pct) => seq![(pct, label)],
                None => Seq::empty(),
            }) + rest.1,
        )
    }
}

/// The progress state and the Report stream of one whole run over `n`
/// files: the bound set to `n`, then one report per file under
/// "pass 1/2", then one per file under "pass 2/2".
pub open spec fn spec_run_progress(p: ProgressV, n: nat) -> (ProgressV, Seq<(int, Seq<char>)>) {
    let p0 = ProgressV {
        max: n as int,
        prev_ident: p.prev_ident,
        count: p.count,
        prev_output: p.prev_output,
    };
    let first = spec_pass_reports(p0, "pass 1/2"@, n);
    let second = spec_pass_reports(first.0, "pass 2/2"@, n);
    (second.0, first.1 + second.1)
}

/// One analysis root.
pub struct CodeTree {
    pub root_folder: String,
    pub files: Vec<CachedSourceUnit>,
    pub symbol_data: Option<SymbolTable>,
    pub issues: Vec<Diagnostic>,
}

impl CodeTree {
    pub open spec fn wf(&self) -> bool {
        &&& forall|i: int| 0 <= i < self.files@.len() ==> (#[trigger] self.files@[i]).wf()
        &&& match self.symbol_data {
            Some(t) => table_wf(t@),
            None => true,
        }
    }

    pub fn new(root_folder: String) -> (r: CodeTree)
        ensures
            r.root_folder@ == root_folder@,
            r.files@.len() == 0,
            r.symbol_data is None,
            r.issues@.len() == 0,
            r.wf(),
    {
        CodeTree { root_folder, files: Vec::new(), symbol_data: None, issues: Vec::new() }
    }

    /// A tree rooted at the path of a file-scheme identifier string;
    /// nothing for a string that does not parse or names another scheme.
    pub fn new_for_url(url: &str, _name: String) -> (r: Option<CodeTree>)
        ensures
            r is Some <==> crate::uri::uri_parses(url@) && crate::uri::uri_scheme_of(url@)
                == "file"@,
            r matches Some(t) ==> t.root_folder@ == crate::uri::uri_path_of(url@) && t.wf()
                && t.files@.len() == 0 && t.symbol_data is None && t.issues@.len() == 0,
    {
        match parse_uri(url) {
            Some(u) => {
                if u.is_file_scheme() {
                    Some(CodeTree::new(u.path))
                } else {
                    None
                }
            },
            None => None,
        }
    }

    /// Whether this tree's root contains the identified file: a
    /// file-scheme identifier whose path starts with the root folder.
    pub fn contains_file(&self, uri: &Uri) -> (r: bool)
        ensures
            r == (uri@.scheme == "file"@ && is_char_prefix(self.root_folder@, uri@.path)),
    {
        if !uri.is_file_scheme() {
            return false;
        }
        str_starts_with(&uri.path, &self.root_folder)
    }

    /// The published diagnostics whose file is the identified one; none
    /// for a non-file identifier.
    pub fn get_issues_for_uri(&self, uri: &Uri) -> (r: Vec<Diagnostic>)
        ensures
            uri@.scheme != "file"@ ==> r@.len() == 0,
            uri@.scheme == "file"@ ==> views(r@) == spec_issues_for_path(self.issues@, uri@.path),
    {
        if !uri.is_file_scheme() {
            return Vec::new();
        }
        let mut out: Vec<Diagnostic> = Vec::new();
        let mut i: usize = 0;
        proof {
            assert(self.issues@.skip(0) =~= self.issues@);
            assert(views(out@) =~= Seq::<DiagnosticV>::empty());
            assert(Seq::<DiagnosticV>::empty() + spec_issues_for_path(self.issues@, uri@.path)
                =~= spec_issues_for_path(self.issues@, uri@.path));
        }
        while i < self.issues.len()
            invariant
                i <= self.issues@.len(),
                views(out@) + spec_issues_for_path(self.issues@.skip(i as int), uri@.path)
                    =~= spec_issues_for_path(self.issues@, uri@.path),
            decreases self.issues.len() - i,
        {
            let d = &self.issues[i];
            proof {
                assert(self.issues@.skip(i as int)[0] == self.issues@[i as int]);
                assert(self.issues@.skip(i as int).skip(1) =~= self.issues@.skip(i + 1));
            }
            if d.location.path == uri.path {
                let copied = d.duplicate();
                proof {
                    lemma_views_push(out@, copied);
                    assert((views(out@) + seq![self.issues@[i as int]@]) + spec_issues_for_path(
                        self.issues@.skip(i + 1),
                        uri@.path,
                    ) =~= views(out@) + (seq![self.issues@[i as int]@] + spec_issues_for_path(
                        self.issues@.skip(i + 1),
                        uri@.path,
                    )));
                }
                out.push(copied);
            } else {
                proof {
                    assert(Seq::<DiagnosticV>::empty() + spec_issues_for_path(
                        self.issues@.skip(i + 1),
                        uri@.path,
                    ) =~= spec_issues_for_path(self.issues@.skip(i + 1), uri@.path));
                }
            }
            i = i + 1;
        }
        proof {
            assert(self.issues@.skip(self.issues@.len() as int) =~= Seq::<Diagnostic>::empty());
            assert(views(out@) + Seq::<DiagnosticV>::empty() =~= views(out@));
        }
        out
    }

    /// One whole analysis run: validates the worker count, then runs
    /// pass 1 over every file, then pass 2 over every file against the
    /// completed table, and publishes the table and the diagnostics,
    /// replacing any earlier result. The published result is a function
    /// of the registry alone: any accepted worker count yields it.
    ///
    /// Yields the run's Report stream — one progress report per file
    /// and pass, de-duplicated by the reporter — for the caller to
    /// forward.
    pub fn run_analysis(&mut self, thread_count: usize, status: &mut CallbackProgress) -> (r:
        Result<Vec<ProgressEvent>, ConfigError>)
        requires
            old(self).wf(),
        ensures
            final(self).wf(),
            r == Err::<Vec<ProgressEvent>, ConfigError>(ConfigError::ZeroWorkers) <==> thread_count
                == 0,
            r == Err::<Vec<ProgressEvent>, ConfigError>(ConfigError::TooManyWorkers)
                <==> thread_count > MAX_WORKERS,
            r is Ok <==> 1 <= thread_count <= MAX_WORKERS,
            r is Err ==> *final(self) == *old(self) && *final(status) == *old(status),
            r is Ok ==> final(self).root_folder == old(self).root_folder && final(self).files
                == old(self).files,
            r is Ok ==> (final(self).symbol_data matches Some(t) && t@ == spec_run_pass1(
                Seq::empty(),
                old(self).files@,
            )),
            r is Ok ==> views(final(self).issues@) == spec_run_pass2(
                spec_run_pass1(Seq::empty(), old(self).files@),
                old(self).files@,
            ),
            r matches Ok(events) ==> (final(status)@, views(events@)) == spec_run_progress(
                old(status)@,
                old(self).files@.len() as nat,
            ),
    {
        if thread_count == 0 {
            return Err(ConfigError::ZeroWorkers);
        }
        if thread_count > MAX_WORKERS {
            return Err(ConfigError::TooManyWorkers);
        }
        let ghost n: nat = self.files@.len() as nat;
        let ghost l1: Seq<char> = "pass 1/2"@;
        let ghost l2: Seq<char> = "pass 2/2"@;
        status.set_max(self.files.len());
        let ghost p0: ProgressV = status@;
        proof {
            assert(p0 == (ProgressV {
                max: n as int,
                prev_ident: old(status)@.prev_ident,
                count: old(status)@.count,
                prev_output: old(status)@.prev_output,
            }));
        }
        let mut events: Vec<ProgressEvent> = Vec::new();
        let mut table = SymbolTable::new();
        let mut i: usize = 0;
        proof {
            assert(self.files@.skip(0) =~= self.files@);
            assert(views(events@) =~= Seq::<(int, Seq<char>)>::empty());
            assert(Seq::<(int, Seq<char>)>::empty() + spec_pass_reports(p0, l1, n).1
                =~= spec_pass_reports(p0, l1, n).1);
        }
        while i < self.files.len()
            invariant
                i <= self.files@.len(),
                n == self.files@.len(),
                l1 == "pass 1/2"@,
                self.files@ == old(self).files@,
                table_wf(table@),
                forall|k: int| 0 <= k < self.files@.len() ==> (#[trigger] self.files@[k]).wf(),
                spec_run_pass1(Seq::empty(), self.files@) == spec_run_pass1(
                    table@,
                    self.files@.skip(i as int),
                ),
                spec_pass_reports(p0, l1, n).0 == spec_pass_reports(
                    status@,
                    l1,
                    (n - i) as nat,
                ).0,
                spec_pass_reports(p0, l1, n).1 =~= views(events@) + spec_pass_reports(
                    status@,
                    l1,
                    (n - i) as nat,
                ).1,
            decreases self.files.len() - i,
        {
            proof {
                assert(self.files@.skip(i as int)[0] == self.files@[i as int]);
                assert(self.files@.skip(i as int).skip(1) =~= self.files@.skip(i + 1));
            }
            match &self.files[i].unit {
                Some(u) => {
                    u.run_declaration_pass(&mut table);
                },
                None => {},
            }
            let ghost pre_p: ProgressV = status@;
            let ghost pre_events = views(events@);
            let emit = status.report("pass 1/2");
            proof {
                assert(status@ == pre_p.spec_step(l1).0);
            }
            match emit {
                Some(pct) => {
                    let event = ProgressEvent { percent: pct, category: "pass 1/2".to_owned() };
                    proof {
                        crate::seq_views::lemma_views_push(events@, event);
                        assert(event@ == (pre_p.spec_step(l1).1->Some_0, l1));
                        assert((pre_events + seq![event@]) + spec_pass_reports(
                            status@,
                            l1,
                            (n - i - 1) as nat,
                        ).1 =~= pre_events + (seq![event@] + spec_pass_reports(
                            status@,
                            l1,
                            (n - i - 1) as nat,
                        ).1));
                    }
                    events.push(event);
                },
                None => {
                    proof {
                        assert(Seq::<(int, Seq<char>)>::empty() + spec_pass_reports(
                            status@,
                            l1,
                            (n - i - 1) as nat,
                        ).1 =~= spec_pass_reports(status@, l1, (n - i - 1) as nat).1);
                    }
                },
            }
            i = i + 1;
        }
        proof {
            assert(self.files@.skip(self.files@.len() as int) =~= Seq::<CachedSourceUnit>::empty());
            assert(spec_pass_reports(p0, l1, n).1 =~= views(events@) + Seq::<
                (int, Seq<char>),
            >::empty());
            assert(spec_pass_reports(p0, l1, n).1 =~= views(events@));
        }
        // barrier: the table is complete before any pass-2 work starts
        let ghost p1: ProgressV = status@;
        let ghost e1: Seq<(int, Seq<char>)> = views(events@);
        let mut issues: Vec<Diagnostic> = Vec::new();
        let mut j: usize = 0;
        proof {
            assert(self.files@.skip(0) =~= self.files@);
            assert(views(issues@) =~= Seq::<DiagnosticV>::empty());
            assert(Seq::<DiagnosticV>::empty() + spec_run_pass2(table@, self.files@)
                =~= spec_run_pass2(table@, self.files@));
            assert(e1 + spec_pass_reports(p1, l2, n).1 =~= views(events@) + spec_pass_reports(
                status@,
                l2,
                n,
            ).1);
        }
        while j < self.files.len()
            invariant
                j <= self.files@.len(),
                n == self.files@.len(),
                l2 == "pass 2/2"@,
                self.files@ == old(self).files@,
                table_wf(table@),
                table@ == spec_run_pass1(Seq::empty(), self.files@),
                views(issues@) + spec_run_pass2(table@, self.files@.skip(j as int))
                    =~= spec_run_pass2(table@, self.files@),
                spec_pass_reports(p1, l2, n).0 == spec_pass_reports(
                    status@,
                    l2,
                    (n - j) as nat,
                ).0,
                e1 + spec_pass_reports(p1, l2, n).1 =~= views(events@) + spec_pass_reports(
                    status@,
                    l2,
                    (n - j) as nat,
                ).1,
            decreases self.files.len() - j,
        {
            proof {
                assert(self.files@.skip(j as int)[0] == self.files@[j as int]);
                assert(self.files@.skip(j as int).skip(1) =~= self.files@.skip(j + 1));
            }
            let ghost pre = views(issues@);
            match &self.files[j].unit {
                Some(u) => {
                    let file_issues = u.run_resolution_pass(&table);
                    crate::diagnostics::append_diagnostics(&mut issues, &file_issues);
                },
                None => {},
            }
            proof {
                assert((pre + spec_unit_issues(table@, self.files@[j as int])) + spec_run_pass2(
                    table@,
                    self.files@.skip(j + 1),
                ) =~= pre + (spec_unit_issues(table@, self.files@[j as int]) + spec_run_pass2(
                    table@,
                    self.files@.skip(j + 1),
                )));
                if self.files@[j as int].unit is None {
                    assert(pre + Seq::<DiagnosticV>::empty() =~= pre);
                }
            }
            let ghost pre_p: ProgressV = status@;
            let ghost pre_events = views(events@);
            let emit = status.report("pass 2/2");
            proof {
                assert(status@ == pre_p.spec_step(l2).0);
            }
            match emit {
                Some(pct) => {
                    let event = ProgressEvent { percent: pct, category: "pass 2/2".to_owned() };
                    proof {
                        crate::seq_views::lemma_views_push(events@, event);
                        assert(event@ == (pre_p.spec_step(l2).1->Some_0, l2));
                        assert((pre_events + seq![event@]) + spec_pass_reports(
                            status@,
                            l2,
                            (n - j - 1) as nat,
                        ).1 =~= pre_events + (seq![event@] + spec_pass_reports(
                            status@,
                            l2,
                            (n - j - 1) as nat,
                        ).1));
                    }
                    events.push(event);
                },
                None => {
                    proof {
                        assert(Seq::<(int, Seq<char>)>::empty() + spec_pass_reports(
                            status@,
                            l2,
                            (n - j - 1) as nat,
                        ).1 =~= spec_pass_reports(status@, l2, (n - j - 1) as nat).1);
                    }
                },
            }
            j = j + 1;
        }
        proof {
            assert(self.files@.skip(self.files@.len() as int) =~= Seq::<CachedSourceUnit>::empty());
            assert(views(issues@) + Seq::<DiagnosticV>::empty() =~= views(issues@));
            assert(e1 + spec_pass_reports(p1, l2, n).1 =~= views(events@) + Seq::<
                (int, Seq<char>),
            >::empty());
            assert(views(events@) =~= spec_pass_reports(p0, l1, n).1 + spec_pass_reports(
                p1,
                l2,
                n,
            ).1);
        }
        self.symbol_data = Some(table);
        self.issues = issues;
        Ok(events)
    }
}

/// One worker's queue under static round-robin dispatch: the file
/// indices congruent to `w`, in increasing order.
fn build_queue(w: usize, worker_count: usize, n_files: usize) -> (q: Vec<usize>)
    requires
        w < worker_count,
        n_files + worker_count <= usize::MAX,
    ensures
        forall|t: int| 0 <= t < q@.len() ==> #[trigger] q@[t] == w + t * worker_count,
        forall|t: int| 0 <= t ==> (t < q@.len() <==> w + #[trigger] (t * worker_count) < n_files),
{
    let mut q: Vec<usize> = Vec::new();
    let mut idx: usize = w;
    proof {
        assert(q@.len() == 0);
    }
    while idx < n_files
        invariant
            w < worker_count,
            n_files + worker_count <= usize::MAX,
            idx == w + q@.len() * worker_count,
            idx <= n_files + worker_count,
            forall|t: int| 0 <= t < q@.len() ==> #[trigger] q@[t] == w + t * worker_count,
            forall|t: int| 0 <= t < q@.len() ==> w + #[trigger] (t * worker_count) < n_files,
        decreases n_files + worker_count - idx,
    {
        q.push(idx);
        idx = idx + worker_count;
        proof {
            assert((q@.len()) * worker_count == (q@.len() - 1) * worker_count + worker_count)
                by (nonlinear_arith);
        }
    }
    proof {
        assert forall|t: int| 0 <= t && w + #[trigger] (t * worker_count) < n_files implies t
            < q@.len() by {
            if t >= q@.len() {
                assert(t * worker_count >= q@.len() * worker_count) by (nonlinear_arith)
                    requires
                        t >= q@.len(),
                        worker_count >= 1,
                ;
            }
        }
    }
    q
}

/// The static round-robin plan: file `f` goes to worker `f mod
/// worker_count`, each queue in increasing file order. The pool is
/// rebuilt per pass, so closing every queue and waiting for the workers
/// is the pass barrier.
pub fn plan_worker_queues(n_files: usize, worker_count: usize) -> (r: Vec<Vec<usize>>)
    requires
        1 <= worker_count,
        n_files + worker_count <= usize::MAX,
    ensures
        r@.len() == worker_count,
        forall|w: int, t: int|
            0 <= w < worker_count && 0 <= t < r@[w]@.len() ==> (#[trigger] r@[w]@[t]) == w + t
                * worker_count,
        forall|w: int, t: int|
            0 <= w < worker_count && 0 <= t ==> (t < (#[trigger] r@[w]@).len() <==> w + #[trigger] (t
                * worker_count) < n_files),
{
    let mut r: Vec<Vec<usize>> = Vec::new();
    let mut w: usize = 0;
    while w < worker_count
        invariant
            w <= worker_count,
            1 <= worker_count,
            n_files + worker_count <= usize::MAX,
            r@.len() == w,
            forall|w2: int, t: int|
                0 <= w2 < w && 0 <= t < r@[w2]@.len() ==> (#[trigger] r@[w2]@[t]) == w2 + t
                    * worker_count,
            forall|w2: int, t: int|
                0 <= w2 < w && 0 <= t ==> (t < (#[trigger] r@[w2]@).len() <==> w2 + #[trigger] (t
                    * worker_count) < n_files),
        decreases worker_count - w,
    {
        let q = build_queue(w, worker_count, n_files);
        r.push(q);
        w = w + 1;
    }
    r
}

/// The plan is a partition: every file index stands in exactly one
/// queue, at exactly one slot — in queue `f mod worker_count` at slot
/// `f / worker_count`.
pub proof fn lemma_plan_partitions(r: Seq<Seq<int>>, n_files: int, worker_count: int, f: int)
    requires
        1 <= worker_count,
        0 <= f < n_files,
        r.len() == worker_count,
        forall|w: int, t: int|
            0 <= w < worker_count && 0 <= t < r[w].len() ==> (#[trigger] r[w][t]) == w + t
                * worker_count,
        forall|w: int, t: int|
            0 <= w < worker_count && 0 <= t ==> (t < (#[trigger] r[w]).len() <==> w + #[trigger] (t
                * worker_count) < n_files),
    ensures
        0 <= f % worker_count < worker_count,
        0 <= f / worker_count < r[f % worker_count].len(),
        r[f % worker_count][f / worker_count] == f,
        forall|w: int, t: int|
            0 <= w < worker_count && 0 <= t < r[w].len() && r[w][t] == f ==> w == f % worker_count
                && t == f / worker_count,
{
    vstd::arithmetic::div_mod::lemma_fundamental_div_mod(f, worker_count);
    vstd::arithmetic::div_mod::lemma_mod_bound(f, worker_count);
    vstd::arithmetic::div_mod::lemma_div_pos_is_pos(f, worker_count);
    let w0 = f % worker_count;
    let t0 = f / worker_count;
    assert(f == worker_count * t0 + w0);
    assert(w0 + t0 * worker_count == f) by (nonlinear_arith)
        requires
            f == worker_count * t0 + w0,
    ;
    assert(t0 < r[w0].len());
    assert forall|w: int, t: int|
        0 <= w < worker_count && 0 <= t < r[w].len() && r[w][t] == f implies w == w0 && t
        == t0 by {
        assert(w + t * worker_count == f);
        vstd::arithmetic::div_mod::lemma_fundamental_div_mod_converse(
            f,
            worker_count,
            t,
            w,
        );
    }
}

/// Two completed runs over the same registry publish the same symbol
/// table and the same diagnostics, whatever worker counts drove them:
/// what `run_analysis` publishes is a function of the registry alone.
pub proof fn lemma_published_result_of_registry_alone(a: CodeTree, b: CodeTree)
    requires
        a.files@ == b.files@,
        a.symbol_data matches Some(t) && t@ == spec_run_pass1(Seq::empty(), a.files@),
        b.symbol_data matches Some(t) && t@ == spec_run_pass1(Seq::empty(), b.files@),
        views(a.issues@) == spec_run_pass2(spec_run_pass1(Seq::empty(), a.files@), a.files@),
        views(b.issues@) == spec_run_pass2(spec_run_pass1(Seq::empty(), b.files@), b.files@),
    ensures
        a.symbol_data->0@ == b.symbol_data->0@,
        views(a.issues@) == views(b.issues@),
{
}

/// The set of names a declaration list declares.
pub open spec fn names_set(ds: Seq<crate::source_unit::SymbolOccurrence>) -> Set<Seq<char>> {
    Set::new(|n: Seq<char>| exists|i: int| 0 <= i < ds.len() && ds[i].name@ == n)
}

/// Declaring one symbol adds exactly its name to the declared set.
pub proof fn lemma_declare_names(
    t: Seq<(Seq<char>, Seq<FileLocationV>)>,
    name: Seq<char>,
    loc: FileLocationV,
)
    ensures
        spec_declared_names(crate::symbols::spec_declare(t, name, loc)) =~= spec_declared_names(
            t,
        ).insert(name),
{
    let t2 = crate::symbols::spec_declare(t, name, loc);
    assert forall|n: Seq<char>| spec_declared_names(t2).contains(n) implies spec_declared_names(
        t,
    ).insert(name).contains(n) by {
        let i = choose|i: int| 0 <= i < t2.len() && t2[i].0 == n;
        if spec_has_symbol(t, name) {
            let u = choose|u: int| 0 <= u < t.len() && t[u].0 == name;
            if i == u {
            } else {
                assert(t[i].0 == n);
            }
        } else {
            if i < t.len() {
                assert(t[i].0 == n);
            }
        }
    }
    assert forall|n: Seq<char>|
        spec_declared_names(t).insert(name).contains(n) implies spec_declared_names(t2).contains(
        n,
    ) by {
        if n == name {
            if spec_has_symbol(t, name) {
                let u = choose|u: int| 0 <= u < t.len() && t[u].0 == name;
                assert(t2[u].0 == name);
            } else {
                assert(t2[t.len() as int].0 == name);
            }
        } else {
            let i = choose|i: int| 0 <= i < t.len() && t[i].0 == n;
            if spec_has_symbol(t, name) {
                let u = choose|u: int| 0 <= u < t.len() && t[u].0 == name;
                if i == u {
                    assert(n == name);
                } else {
                    assert(t2[i].0 == n);
                }
            } else {
                assert(t2[i].0 == n);
            }
        }
    }
}

/// A declaration list adds exactly its name set, whatever its order.
pub proof fn lemma_declare_all_names(
    t: Seq<(Seq<char>, Seq<FileLocationV>)>,
    ds: Seq<crate::source_unit::SymbolOccurrence>,
)
    ensures
        spec_declared_names(spec_declare_all(t, ds)) =~= spec_declared_names(t).union(
            names_set(ds),
        ),
    decreases ds.len(),
{
    if ds.len() == 0 {
        assert forall|n: Seq<char>| !names_set(ds).contains(n) by {
        }
        assert(spec_declared_names(spec_declare_all(t, ds)) =~= spec_declared_names(t).union(
            names_set(ds),
        ));
    } else {
        let t1 = crate::symbols::spec_declare(t, ds[0].name@, ds[0].location@);
        lemma_declare_names(t, ds[0].name@, ds[0].location@);
        lemma_declare_all_names(t1, ds.skip(1));
        assert(names_set(ds) =~= names_set(ds.skip(1)).insert(ds[0].name@)) by {
            assert forall|n: Seq<char>| names_set(ds).contains(n) implies names_set(
                ds.skip(1),
            ).insert(ds[0].name@).contains(n) by {
                let i = choose|i: int| 0 <= i < ds.len() && ds[i].name@ == n;
                if i > 0 {
                    assert(ds.skip(1)[i - 1].name@ == n);
                }
            }
            assert forall|n: Seq<char>|
                names_set(ds.skip(1)).insert(ds[0].name@).contains(n) implies names_set(
                ds,
            ).contains(n) by {
                if n == ds[0].name@ {
                    assert(ds[0].name@ == n);
                } else {
                    let i = choose|i: int| 0 <= i < ds.skip(1).len() && ds.skip(1)[i].name@ == n;
                    assert(ds[i + 1].name@ == n);
                }
            }
        }
        assert(spec_declared_names(spec_declare_all(t, ds)) =~= spec_declared_names(t).union(
            names_set(ds),
        ));
    }
}

/// The published declared-symbol set does not depend on the order or
/// grouping in which the declarations were processed: two schedules of
/// the same declarations build tables declaring the same names.
pub proof fn lemma_declared_set_schedule_independent(
    ds1: Seq<crate::source_unit::SymbolOccurrence>,
    ds2: Seq<crate::source_unit::SymbolOccurrence>,
)
    requires
        names_set(ds1) == names_set(ds2),
    ensures
        spec_declared_names(spec_declare_all(Seq::empty(), ds1)) == spec_declared_names(
            spec_declare_all(Seq::empty(), ds2),
        ),
{
    lemma_declare_all_names(Seq::empty(), ds1);
    lemma_declare_all_names(Seq::empty(), ds2);
    assert(spec_declared_names(spec_declare_all(Seq::empty(), ds1)) =~= spec_declared_names(
        spec_declare_all(Seq::empty(), ds2),
    ));
}

/// The first registry slot holding the file with this path.
pub open spec fn spec_find_unit(files: Seq<CachedSourceUnit>, path: Seq<char>) -> Option<int>
    decreases files.len(),
{
    if files.len() == 0 {
        None
    } else if files[0].fq_file_name@ == path {
        Some(0)
    } else {
        match spec_find_unit(files.skip(1), path) {
            Some(i) => Some(i + 1),
            None => None,
        }
    }
}

/// Finds the registry slot of the file with this path.
pub fn find_unit_index(files: &Vec<CachedSourceUnit>, path: &String) -> (r: Option<usize>)
    ensures
        match r {
            Some(i) => spec_find_unit(files@, path@) == Some(i as int) && i < files@.len()
                && files@[i as int].fq_file_name@ == path@,
            None => spec_find_unit(files@, path@) is None,
        },
{
    let mut i: usize = 0;
    while i < files.len()
        invariant
            i <= files@.len(),
            forall|k: int| 0 <= k < i ==> (#[trigger] files@[k]).fq_file_name@ != path@,
        decreases files.len() - i,
    {
        if files[i].fq_file_name == *path {
            proof {
                lemma_find_unit_prefix(files@, path@, i as int);
            }
            return Some(i);
        }
        i = i + 1;
    }
    proof {
        lemma_find_unit_none(files@, path@);
    }
    None
}

proof fn lemma_find_unit_prefix(files: Seq<CachedSourceUnit>, path: Seq<char>, i: int)
    requires
        0 <= i < files.len(),
        files[i].fq_file_name@ == path,
        forall|k: int| 0 <= k < i ==> (#[trigger] files[k]).fq_file_name@ != path,
    ensures
        spec_find_unit(files, path) == Some(i),
    decreases files.len(),
{
    if i > 0 {
        assert(files.skip(1)[i - 1] == files[i]);
        assert forall|k: int| 0 <= k < i - 1 implies (#[trigger] files.skip(1)[k]).fq_file_name@
            != path by {
            assert(files.skip(1)[k] == files[k + 1]);
        }
        lemma_find_unit_prefix(files.skip(1), path, i - 1);
    }
}

proof fn lemma_find_unit_none(files: Seq<CachedSourceUnit>, path: Seq<char>)
    requires
        forall|k: int| 0 <= k < files.len() ==> (#[trigger] files[k]).fq_file_name@ != path,
    ensures
        spec_find_unit(files, path) is None,
    decreases files.len(),
{
    if files.len() > 0 {
        assert forall|k: int|
            0 <= k < files.skip(1).len() implies (#[trigger] files.skip(1)[k]).fq_file_name@
            != path by {
            assert(files.skip(1)[k] == files[k + 1]);
        }
        lemma_find_unit_none(files.skip(1), path);
    }
}

/// The diagnostics among `issues` whose file is `path`, in order.
pub open spec fn spec_issues_for_path(issues: Seq<Diagnostic>, path: Seq<char>) -> Seq<DiagnosticV>
    decreases issues.len(),
{
    if issues.len() == 0 {
        Seq::empty()
    } else {
        (if issues[0].location.path@ == path {
            seq![issues[0]@]
        } else {
            Seq::empty()
        }) + spec_issues_for_path(issues.skip(1), path)
    }
}

/// `p` is the first part of `s`.
pub open spec fn is_char_prefix(p: Seq<char>, s: Seq<char>) -> bool {
    p.len() <= s.len() && s.subrange(0, p.len() as int) == p
}

/// Whether `s` starts with `p`, character by character.
pub fn str_starts_with(s: &String, p: &String) -> (r: bool)
    ensures
        r == is_char_prefix(p@, s@),
{
    let pl = p.as_str().unicode_len();
    let sl = s.as_str().unicode_len();
    if pl > sl {
        proof {
            assert(!is_char_prefix(p@, s@));
        }
        return false;
    }
    let mut i: usize = 0;
    while i < pl
        invariant
            i <= pl,
            pl == p@.len(),
            sl == s@.len(),
            pl <= sl,
            forall|k: int| 0 <= k < i ==> s@[k] == p@[k],
        decreases pl - i,
    {
        if s.as_str().get_char(i) != p.as_str().get_char(i) {
            proof {
                assert(s@.subrange(0, p@.len() as int)[i as int] != p@[i as int]);
            }
            return false;
        }
        i = i + 1;
    }
    proof {
        assert(s@.subrange(0, p@.len() as int) =~= p@);
    }
    true
}

} // verus!
