//! The protocol server's analysis core: it owns the analysis roots and
//! the re-analysis coordinator, routes a position query to the owning
//! root's cached unit, and derives each interactive feature (hover,
//! go-to-definition, go-to-declaration, go-to-type-definition) from the
//! one probe mechanism.

use crate::codetree::find_unit_index;
use crate::codetree::spec_find_unit;
use crate::codetree::CodeTree;
use crate::coordinator::ReanalysisCoordinator;
use crate::coordinator::WhenAction;
use crate::diagnostics::Diagnostic;
use crate::progress::CallbackProgress;
use crate::progress::ProgressEvent;
use crate::progress::ProgressV;
use crate::seq_views::views;
use crate::source_unit::declaration_locations;
use crate::source_unit::idxs;
use crate::source_unit::locations_for_symbols;
use crate::source_unit::locations_for_type;
use crate::source_unit::probe_post;
use crate::source_unit::spec_decl_walk;
use crate::source_unit::spec_locs_for_members;
use crate::source_unit::spec_locs_for_symbols;
use crate::source_unit::spec_symbols_at;
use crate::source_unit::spec_type_walk;
use crate::source_unit::symbols_at;
use crate::source_unit::type_definition_at;
use crate::symbols::FileLocation;
use crate::symbols::Point;
use crate::uri::Uri;
use crate::uri::UriV;
use vstd::prelude::*;

verus! {

broadcast use {vstd::seq::group_seq_axioms, vstd::std_specs::vec::group_vec_axioms};

/// Why a position query carries no answer.
#[derive(Clone, Copy, Debug, PartialEq, Eq, Structural)]
pub enum QueryError {
    /// The identifier does not use the file scheme.
    InvalidScheme,
    /// No analysis root contains the identified file.
    NotFound,
    /// The coordinate does not fit the unit's coordinate type.
    OutOfRange,
}

/// The progress state and Report stream of one run over every root, in
/// root order.
pub open spec fn spec_trees_progress(p: ProgressV, trees: Seq<CodeTree>) -> (
    ProgressV,
    Seq<(int, Seq<char>)>,
)
    decreases trees.len(),
{
    if trees.len() == 0 {
        (p, Seq::empty())
    } else {
        let first = crate::codetree::spec_run_progress(p, trees[0].files@.len());
        let rest = spec_trees_progress(first.0, trees.skip(1));
        (rest.0, first.1 + rest.1)
    }
}

/// Whether this root claims the identified file.
pub open spec fn spec_tree_contains(t: CodeTree, u: UriV) -> bool {
    u.scheme == "file"@ && crate::codetree::is_char_prefix(t.root_folder@, u.path)
}

/// The first root claiming the identified file.
pub open spec fn spec_tree_for_uri(trees: Seq<CodeTree>, u: UriV) -> Option<int>
    decreases trees.len(),
{
    if trees.len() == 0 {
        None
    } else if spec_tree_contains(trees[0], u) {
        Some(0)
    } else {
        match spec_tree_for_uri(trees.skip(1), u) {
            Some(i) => Some(i + 1),
            None => None,
        }
    }
}

pub proof fn lemma_spec_tree_for_uri_bounds(trees: Seq<CodeTree>, u: UriV)
    ensures
        spec_tree_for_uri(trees, u) matches Some(i) ==> 0 <= i < trees.len() && spec_tree_contains(
            trees[i],
            u,
        ),
        spec_tree_for_uri(trees, u) is Some ==> u.scheme == "file"@,
    decreases trees.len(),
{
    if trees.len() > 0 && !spec_tree_contains(trees[0], u) {
        lemma_spec_tree_for_uri_bounds(trees.skip(1), u);
    }
}

/// Where a probe landed: the owning root, the owning unit, the hit node
/// and the ancestor chain from the root node down to (excluding) it.
pub struct PositionHit {
    pub tree_index: usize,
    pub file_index: usize,
    pub node: usize,
    pub path: Vec<usize>,
}

/// The server's analysis state.
pub struct PHPLanguageServerInstance {
    pub codetrees: Vec<CodeTree>,
    pub coordinator: ReanalysisCoordinator,
}

impl PHPLanguageServerInstance {
    pub open spec fn wf(&self) -> bool {
        forall|i: int| 0 <= i < self.codetrees@.len() ==> (#[trigger] self.codetrees@[i]).wf()
    }

    /// A probe hit names real slots of this server's state.
    pub open spec fn hit_wf(&self, h: PositionHit) -> bool {
        &&& h.tree_index < self.codetrees@.len()
        &&& h.file_index < self.codetrees@[h.tree_index as int].files@.len()
        &&& self.codetrees@[h.tree_index as int].files@[h.file_index as int].unit matches Some(u)
            && h.node < u.tree.nodes@.len() && (forall|k: int|
            0 <= k < h.path@.len() ==> (#[trigger] h.path@[k]) < u.tree.nodes@.len())
    }

    pub fn new() -> (r: PHPLanguageServerInstance)
        ensures
            r.codetrees@.len() == 0,
            r.coordinator.state@ is Idle,
            !r.coordinator.progress_registered,
            r.wf(),
    {
        PHPLanguageServerInstance {
            codetrees: Vec::new(),
            coordinator: ReanalysisCoordinator::new(),
        }
    }

    /// The first root claiming the identified file.
    pub fn get_codetree_for_uri(&self, uri: &Uri) -> (r: Option<usize>)
        ensures
            match r {
                Some(i) => spec_tree_for_uri(self.codetrees@, uri@) == Some(i as int) && i
                    < self.codetrees@.len(),
                None => spec_tree_for_uri(self.codetrees@, uri@) is None,
            },
    {
        let mut i: usize = 0;
        while i < self.codetrees.len()
            invariant
                i <= self.codetrees@.len(),
                forall|k: int| 0 <= k < i ==> !spec_tree_contains(#[trigger] self.codetrees@[k], uri@),
            decreases self.codetrees.len() - i,
        {
            if self.codetrees[i].contains_file(uri) {
                proof {
                    lemma_tree_for_uri_prefix(self.codetrees@, uri@, i as int);
                }
                return Some(i);
            }
            i = i + 1;
        }
        proof {
            lemma_tree_for_uri_none(self.codetrees@, uri@);
        }
        None
    }

    /// Translates a protocol position into a probe of the owning unit.
    /// The identifier must use the file scheme, some root must contain
    /// it, and the coordinate must fit the unit's coordinate type; a
    /// file the registry does not hold, a file without a parsed form,
    /// and a coordinate no node encloses all answer `Ok(None)`.
    pub fn at_position(&self, uri: &Uri, line: u64, character: u64) -> (r: Result<
        Option<PositionHit>,
        QueryError,
    >)
        requires
            self.wf(),
        ensures
            r == Err::<Option<PositionHit>, QueryError>(QueryError::InvalidScheme) <==> uri@.scheme
                != "file"@,
            uri@.scheme == "file"@ ==> (r == Err::<Option<PositionHit>, QueryError>(
                QueryError::NotFound,
            ) <==> spec_tree_for_uri(self.codetrees@, uri@) is None),
            (uri@.scheme == "file"@ && spec_tree_for_uri(self.codetrees@, uri@) is Some) ==> (r
                == Err::<Option<PositionHit>, QueryError>(QueryError::OutOfRange) <==> (line
                > u32::MAX || character > u32::MAX)),
            r matches Ok(rr) ==> ({
                let ti = spec_tree_for_uri(self.codetrees@, uri@)->Some_0;
                let tree = self.codetrees@[ti];
                match spec_find_unit(tree.files@, uri@.path) {
                    None => rr is None,
                    Some(fi) => match tree.files@[fi].unit {
                        None => rr is None,
                        Some(u) => match rr {
                            Some(h) => h.tree_index == ti && h.file_index == fi && probe_post(
                                u.tree.nodes@,
                                Point { line: line as u32, column: character as u32 },
                                Some((h.node, h.path)),
                            ) && self.hit_wf(h),
                            None => probe_post(
                                u.tree.nodes@,
                                Point { line: line as u32, column: character as u32 },
                                None,
                            ),
                        },
                    },
                }
            }),
    {
        if !uri.is_file_scheme() {
            return Err(QueryError::InvalidScheme);
        }
        let ti = match self.get_codetree_for_uri(uri) {
            Some(ti) => ti,
            None => {
                return Err(QueryError::NotFound);
            },
        };
        if line > u32::MAX as u64 || character > u32::MAX as u64 {
            return Err(QueryError::OutOfRange);
        }
        let tree = &self.codetrees[ti];
        let fi = match find_unit_index(&tree.files, &uri.path) {
            Some(fi) => fi,
            None => {
                return Ok(None);
            },
        };
        match &tree.files[fi].unit {
            None => Ok(None),
            Some(u) => {
                proof {
                    assert(self.codetrees@[ti as int].wf());
                    assert(self.codetrees@[ti as int].files@[fi as int].wf());
                }
                match u.tree.probe_at(line as u32, character as u32) {
                    Some((node, path)) => {
                        proof {
                            crate::source_unit::lemma_probe_bounds(
                                u.tree.nodes@,
                                Point { line: line as u32, column: character as u32 },
                                node as int,
                                idxs(path@),
                            );
                            assert(forall|k: int|
                                0 <= k < path@.len() ==> idxs(path@)[k] == #[trigger] path@[k]
                                    as int);
                        }
                        Ok(Some(PositionHit { tree_index: ti, file_index: fi, node, path }))
                    },
                    None => Ok(None),
                }
            },
        }
    }

    /// The hover text at a probe hit: the hit node's description.
    pub fn hover_for(&self, h: &PositionHit) -> (r: Option<String>)
        requires
            self.hit_wf(*h),
        ensures
            ({
                let u = self.codetrees@[h.tree_index as int].files@[h.file_index as int].unit->0;
                match r {
                    Some(s) => u.tree.nodes@[h.node as int].description matches Some(d) && s@
                        == d@,
                    None => u.tree.nodes@[h.node as int].description is None,
                }
            }),
    {
        match &self.codetrees[h.tree_index].files[h.file_index].unit {
            Some(u) => crate::source_unit::hover_text(&u.tree, h.node),
            None => None,
        }
    }

    /// Go-to-definition at a probe hit: the published declaration
    /// locations of the symbols the hit names; empty without a published
    /// table or a symbol-carrying node.
    pub fn definition_locations_for(&self, h: &PositionHit) -> (r: Vec<FileLocation>)
        requires
            self.wf(),
            self.hit_wf(*h),
        ensures
            ({
                let tree = self.codetrees@[h.tree_index as int];
                let u = tree.files@[h.file_index as int].unit->0;
                match tree.symbol_data {
                    None => r@.len() == 0,
                    Some(t) => match spec_symbols_at(u.tree.nodes@, h.node as int, idxs(h.path@)) {
                        Some(syms) => views(r@) == spec_locs_for_symbols(t@, syms),
                        None => r@.len() == 0,
                    },
                }
            }),
    {
        let tree = &self.codetrees[h.tree_index];
        let table = match &tree.symbol_data {
            Some(t) => t,
            None => {
                return Vec::new();
            },
        };
        match &tree.files[h.file_index].unit {
            Some(u) => {
                match symbols_at(&u.tree, h.node, &h.path) {
                    Some(syms) => locations_for_symbols(table, &syms),
                    None => Vec::new(),
                }
            },
            None => Vec::new(),
        }
    }

    /// Go-to-declaration at a probe hit: the ancestor-chain walk with
    /// its member-boundary abort, against the published table.
    pub fn declaration_locations_for(&self, h: &PositionHit) -> (r: Vec<FileLocation>)
        requires
            self.wf(),
            self.hit_wf(*h),
        ensures
            ({
                let tree = self.codetrees@[h.tree_index as int];
                let u = tree.files@[h.file_index as int].unit->0;
                match tree.symbol_data {
                    None => r@.len() == 0,
                    Some(t) => views(r@) == spec_decl_walk(
                        u.tree.nodes@,
                        t@,
                        idxs(h.path@),
                        idxs(h.path@).len() - 1,
                    ),
                }
            }),
    {
        let tree = &self.codetrees[h.tree_index];
        let table = match &tree.symbol_data {
            Some(t) => t,
            None => {
                return Vec::new();
            },
        };
        match &tree.files[h.file_index].unit {
            Some(u) => declaration_locations(&u.tree, &h.path, table),
            None => Vec::new(),
        }
    }

    /// Go-to-type-definition at a probe hit: the first known type on the
    /// outward walk, resolved to its class declarations against the
    /// published table.
    pub fn type_definition_locations_for(&self, h: &PositionHit) -> (r: Vec<FileLocation>)
        requires
            self.wf(),
            self.hit_wf(*h),
        ensures
            ({
                let tree = self.codetrees@[h.tree_index as int];
                let u = tree.files@[h.file_index as int].unit->0;
                match tree.symbol_data {
                    None => r@.len() == 0,
                    Some(t) => match spec_type_walk(
                        u.tree.nodes@,
                        h.node as int,
                        idxs(h.path@),
                        idxs(h.path@).len() - 1,
                    ) {
                        Some(td) => views(r@) == spec_locs_for_members(t@, td.types),
                        None => r@.len() == 0,
                    },
                }
            }),
    {
        let tree = &self.codetrees[h.tree_index];
        let table = match &tree.symbol_data {
            Some(t) => t,
            None => {
                return Vec::new();
            },
        };
        match &tree.files[h.file_index].unit {
            Some(u) => {
                match type_definition_at(&u.tree, h.node, &h.path) {
                    Some(td) => locations_for_type(table, &td),
                    None => Vec::new(),
                }
            },
            None => Vec::new(),
        }
    }

    /// The published diagnostics for the identified file; none when no
    /// root claims it.
    pub fn diagnostics_for_uri(&self, uri: &Uri) -> (r: Vec<Diagnostic>)
        ensures
            match spec_tree_for_uri(self.codetrees@, uri@) {
                Some(i) => views(r@) == crate::codetree::spec_issues_for_path(
                    self.codetrees@[i].issues@,
                    uri@.path,
                ),
                None => r@.len() == 0,
            },
    {
        match self.get_codetree_for_uri(uri) {
            Some(i) => {
                proof {
                    lemma_spec_tree_for_uri_bounds(self.codetrees@, uri@);
                }
                self.codetrees[i].get_issues_for_uri(uri)
            },
            None => Vec::new(),
        }
    }

    /// Routes a completion callback for the identified file: run now
    /// when its root has a published result, queued while a run is in
    /// flight, and otherwise a run is entered implicitly.
    pub fn when_completed_analysis(&mut self, uri: &Uri, callback: u64) -> (act: WhenAction)
        ensures
            final(self).codetrees == old(self).codetrees,
            ({
                let has_result = match spec_tree_for_uri(old(self).codetrees@, uri@) {
                    Some(i) => old(self).codetrees@[i].symbol_data is Some,
                    None => false,
                };
                match old(self).coordinator.state@ {
                    crate::coordinator::CoordV::Busy { request_reanalysis, pending } => act
                        == WhenAction::Deferred && final(self).coordinator.state@ == (
                    crate::coordinator::CoordV::Busy {
                        request_reanalysis,
                        pending: pending.push(callback),
                    }),
                    crate::coordinator::CoordV::Idle => if has_result {
                        act == WhenAction::RunNow && final(self).coordinator.state@
                            == old(self).coordinator.state@
                    } else {
                        act == WhenAction::StartAnalysis && (final(self).coordinator.state@, true)
                            == crate::coordinator::spec_trigger(
                            old(self).coordinator.state@,
                            Some(callback),
                        )
                    },
                }
            }),
    {
        let has_result = match self.get_codetree_for_uri(uri) {
            Some(i) => {
                proof {
                    lemma_spec_tree_for_uri_bounds(self.codetrees@, uri@);
                }
                self.codetrees[i].symbol_data.is_some()
            },
            None => false,
        };
        self.coordinator.when_completed_analysis(has_result, callback)
    }

    /// Asks for a re-analysis; `true` when the caller must run
    /// `reanalyze_run` and then `reanalyze_finish` now.
    pub fn reanalyze(&mut self, completion: Option<u64>) -> (start: bool)
        ensures
            final(self).codetrees == old(self).codetrees,
            (final(self).coordinator.state@, start) == crate::coordinator::spec_trigger(
                old(self).coordinator.state@,
                completion,
            ),
    {
        self.coordinator.begin_trigger(completion)
    }

    /// Runs the scheduler over every root, in order; the published
    /// result of each root depends on its registry alone, never on the
    /// worker count. Yields the concatenated Report streams of the
    /// runs, for the caller to forward between its Begin and End.
    pub fn reanalyze_run(&mut self, thread_count: usize, status: &mut CallbackProgress) -> (events:
        Vec<ProgressEvent>)
        requires
            old(self).wf(),
            1 <= thread_count <= crate::codetree::MAX_WORKERS,
        ensures
            final(self).wf(),
            final(self).coordinator == old(self).coordinator,
            final(self).codetrees@.len() == old(self).codetrees@.len(),
            forall|i: int|
                0 <= i < old(self).codetrees@.len() ==> ({
                    let tree0 = old(self).codetrees@[i];
                    let tree1 = #[trigger] final(self).codetrees@[i];
                    &&& tree1.root_folder == tree0.root_folder
                    &&& tree1.files == tree0.files
                    &&& tree1.symbol_data matches Some(t) && t@ == crate::codetree::spec_run_pass1(
                        Seq::empty(),
                        tree0.files@,
                    )
                    &&& views(tree1.issues@) == crate::codetree::spec_run_pass2(
                        crate::codetree::spec_run_pass1(Seq::empty(), tree0.files@),
                        tree0.files@,
                    )
                }),
            (final(status)@, views(events@)) == spec_trees_progress(
                old(status)@,
                old(self).codetrees@,
            ),
    {
        let mut done: Vec<CodeTree> = Vec::new();
        let mut events: Vec<ProgressEvent> = Vec::new();
        proof {
            assert(views(events@) =~= Seq::<(int, Seq<char>)>::empty());
            assert(Seq::<(int, Seq<char>)>::empty() + spec_trees_progress(
                status@,
                self.codetrees@,
            ).1 =~= spec_trees_progress(status@, self.codetrees@).1);
        }
        while self.codetrees.len() > 0
            invariant
                self.wf(),
                1 <= thread_count <= crate::codetree::MAX_WORKERS,
                done@.len() + self.codetrees@.len() == old(self).codetrees@.len(),
                self.coordinator == old(self).coordinator,
                forall|k: int|
                    0 <= k < self.codetrees@.len() ==> #[trigger] self.codetrees@[k]
                        == old(self).codetrees@[done@.len() + k],
                forall|i: int| 0 <= i < done@.len() ==> (#[trigger] done@[i]).wf(),
                forall|i: int|
                    0 <= i < done@.len() ==> ({
                        let tree0 = old(self).codetrees@[i];
                        let tree1 = #[trigger] done@[i];
                        &&& tree1.root_folder == tree0.root_folder
                        &&& tree1.files == tree0.files
                        &&& tree1.symbol_data matches Some(t) && t@
                            == crate::codetree::spec_run_pass1(Seq::empty(), tree0.files@)
                        &&& views(tree1.issues@) == crate::codetree::spec_run_pass2(
                            crate::codetree::spec_run_pass1(Seq::empty(), tree0.files@),
                            tree0.files@,
                        )
                    }),
                spec_trees_progress(old(status)@, old(self).codetrees@).0 == spec_trees_progress(
                    status@,
                    self.codetrees@,
                ).0,
                spec_trees_progress(old(status)@, old(self).codetrees@).1 =~= views(events@)
                    + spec_trees_progress(status@, self.codetrees@).1,
            decreases self.codetrees@.len(),
        {
            let ghost trees_pre = self.codetrees@;
            let ghost status_pre = status@;
            let ghost events_pre = views(events@);
            let mut tree = self.codetrees.remove(0);
            proof {
                assert(trees_pre.remove(0) =~= trees_pre.skip(1));
            }
            let tree_events = match tree.run_analysis(thread_count, status) {
                Ok(ev) => ev,
                Err(_) => {
                    proof {
                        assert(false);
                    }
                    Vec::new()
                },
            };
            proof {
                assert((status@, views(tree_events@)) == crate::codetree::spec_run_progress(
                    status_pre,
                    trees_pre[0].files@.len(),
                ));
                assert((events_pre + views(tree_events@)) + spec_trees_progress(
                    status@,
                    trees_pre.skip(1),
                ).1 =~= events_pre + (views(tree_events@) + spec_trees_progress(
                    status@,
                    trees_pre.skip(1),
                ).1));
            }
            crate::progress::append_events(&mut events, &tree_events);
            done.push(tree);
        }
        self.codetrees = done;
        proof {
            assert(views(events@) + Seq::<(int, Seq<char>)>::empty() =~= views(events@));
        }
        events
    }

    /// Ends the run in flight: back to idle, with the queued completion
    /// callbacks in order and the coalesced re-run wish.
    pub fn reanalyze_finish(&mut self) -> (r: (Vec<u64>, bool))
        requires
            old(self).coordinator.state@ is Busy,
        ensures
            final(self).codetrees == old(self).codetrees,
            final(self).coordinator.state@ is Idle,
            (final(self).coordinator.state@, r.0@, r.1) == crate::coordinator::spec_finish(
                old(self).coordinator.state@,
            ),
    {
        self.coordinator.finish()
    }
}

proof fn lemma_tree_for_uri_prefix(trees: Seq<CodeTree>, u: UriV, i: int)
    requires
        0 <= i < trees.len(),
        spec_tree_contains(trees[i], u),
        forall|k: int| 0 <= k < i ==> !spec_tree_contains(#[trigger] trees[k], u),
    ensures
        spec_tree_for_uri(trees, u) == Some(i),
    decreases trees.len(),
{
    if i > 0 {
        assert(trees.skip(1)[i - 1] == trees[i]);
        assert forall|k: int| 0 <= k < i - 1 implies !spec_tree_contains(
            #[trigger] trees.skip(1)[k],
            u,
        ) by {
            assert(trees.skip(1)[k] == trees[k + 1]);
        }
        lemma_tree_for_uri_prefix(trees.skip(1), u, i - 1);
    }
}

proof fn lemma_tree_for_uri_none(trees: Seq<CodeTree>, u: UriV)
    requires
        forall|k: int| 0 <= k < trees.len() ==> !spec_tree_contains(#[trigger] trees[k], u),
    ensures
        spec_tree_for_uri(trees, u) is None,
    decreases trees.len(),
{
    if trees.len() > 0 {
        assert forall|k: int| 0 <= k < trees.skip(1).len() implies !spec_tree_contains(
            #[trigger] trees.skip(1)[k],
            u,
        ) by {
            assert(trees.skip(1)[k] == trees[k + 1]);
        }
        lemma_tree_for_uri_none(trees.skip(1), u);
    }
}

} // verus!
