//! The re-analysis coordination state machine: it serializes analysis
//! runs triggered by editor events, coalesces requests that arrive while
//! a run is in flight, and hands back the deferred completions, in the
//! order they were queued, when the run finishes.
//!
//! The surrounding event loop performs the run itself: a `true` from
//! `begin_trigger` or a `StartAnalysis` from `when_completed_analysis`
//! asks it to run the scheduler and then call `finish`.

use vstd::prelude::*;

verus! {

broadcast use vstd::seq::group_seq_axioms;

/// Whether an analysis run is in flight, and what waits for it.
pub enum CoordinatorState {
    Idle,
    Busy { request_reanalysis: bool, pending: Vec<u64> },
}

/// Ghost counterpart of `CoordinatorState`.
pub enum CoordV {
    Idle,
    Busy { request_reanalysis: bool, pending: Seq<u64> },
}

impl View for CoordinatorState {
    type V = CoordV;

    open spec fn view(&self) -> CoordV {
        match self {
            CoordinatorState::Idle => CoordV::Idle,
            CoordinatorState::Busy { request_reanalysis, pending } => CoordV::Busy {
                request_reanalysis: *request_reanalysis,
                pending: pending@,
            },
        }
    }
}

/// What a trigger does to the state, and whether the caller must run
/// the scheduler now.
pub open spec fn spec_trigger(s: CoordV, completion: Option<u64>) -> (CoordV, bool) {
    let queued = match completion {
        Some(c) => seq![c],
        None => Seq::<u64>::empty(),
    };
    match s {
        CoordV::Idle => (CoordV::Busy { request_reanalysis: false, pending: queued }, true),
        CoordV::Busy { request_reanalysis, pending } => (
            CoordV::Busy { request_reanalysis: true, pending: pending + queued },
            false,
        ),
    }
}

/// What finishing the run in flight yields: the idle state, the queued
/// completions in order, and whether a re-run was asked for meanwhile.
pub open spec fn spec_finish(s: CoordV) -> (CoordV, Seq<u64>, bool)
    recommends
        s is Busy,
{
    match s {
        CoordV::Busy { request_reanalysis, pending } => (CoordV::Idle, pending, request_reanalysis),
        CoordV::Idle => (CoordV::Idle, Seq::empty(), false),
    }
}

/// What `when_completed_analysis` asks its caller to do with the
/// callback it was given.
#[derive(Clone, Copy, Debug, PartialEq, Eq, Structural)]
pub enum WhenAction {
    /// A result exists: run the callback now.
    RunNow,
    /// A run is in flight: the callback is queued and runs at `finish`.
    Deferred,
    /// No run and no result yet: a run was entered; run the scheduler
    /// and call `finish`, which hands the callback back.
    StartAnalysis,
}

/// One server's re-analysis coordinator.
pub struct ReanalysisCoordinator {
    pub state: CoordinatorState,
    pub progress_registered: bool,
}

impl ReanalysisCoordinator {
    pub fn new() -> (r: ReanalysisCoordinator)
        ensures
            r.state@ is Idle,
            !r.progress_registered,
    {
        ReanalysisCoordinator { state: CoordinatorState::Idle, progress_registered: false }
    }

    /// Asks for a run, with an optional completion callback. Yields
    /// `true` when the caller must run the scheduler now; while a run is
    /// in flight it only records the wish and queues the callback, and
    /// no second run starts.
    pub fn begin_trigger(&mut self, completion: Option<u64>) -> (start: bool)
        ensures
            (final(self).state@, start) == spec_trigger(old(self).state@, completion),
            final(self).progress_registered == old(self).progress_registered,
    {
        match &mut self.state {
            CoordinatorState::Idle => {
                let mut pending: Vec<u64> = Vec::new();
                match completion {
                    Some(c) => pending.push(c),
                    None => {},
                }
                proof {
                    assert(pending@ =~= spec_trigger(old(self).state@, completion).0->pending);
                }
                self.state = CoordinatorState::Busy { request_reanalysis: false, pending };
                true
            },
            CoordinatorState::Busy { request_reanalysis, pending } => {
                *request_reanalysis = true;
                match completion {
                    Some(c) => pending.push(c),
                    None => {},
                }
                proof {
                    assert(pending@ =~= spec_trigger(old(self).state@, completion).0->pending);
                }
                false
            },
        }
    }

    /// Ends the run in flight: returns to idle and hands back the queued
    /// completions, in queue order, and whether a re-run was asked for
    /// while the run was in flight. The wish is reported, not acted on:
    /// no new run starts here.
    pub fn finish(&mut self) -> (r: (Vec<u64>, bool))
        requires
            old(self).state@ is Busy,
        ensures
            final(self).state@ is Idle,
            final(self).progress_registered == old(self).progress_registered,
            (final(self).state@, r.0@, r.1) == spec_finish(old(self).state@),
    {
        let (done, rerun) = match &self.state {
            CoordinatorState::Busy { request_reanalysis, pending } => {
                let rerun = *request_reanalysis;
                let mut done: Vec<u64> = Vec::new();
                let mut i: usize = 0;
                while i < pending.len()
                    invariant
                        i <= pending@.len(),
                        done@ =~= pending@.take(i as int),
                    decreases pending.len() - i,
                {
                    done.push(pending[i]);
                    i = i + 1;
                }
                proof {
                    assert(pending@.take(pending@.len() as int) =~= pending@);
                }
                (done, rerun)
            },
            CoordinatorState::Idle => {
                proof {
                    assert(false);
                }
                (Vec::new(), false)
            },
        };
        self.state = CoordinatorState::Idle;
        (done, rerun)
    }

    /// Routes a callback that must run once analysis results exist:
    /// deferred while a run is in flight, run at once when a result is
    /// already published, and otherwise a run is entered implicitly and
    /// the callback queued on it.
    pub fn when_completed_analysis(&mut self, has_result: bool, callback: u64) -> (act: WhenAction)
        ensures
            final(self).progress_registered == old(self).progress_registered,
            match old(self).state@ {
                CoordV::Busy { request_reanalysis, pending } => act == WhenAction::Deferred
                    && final(self).state@ == (CoordV::Busy {
                    request_reanalysis,
                    pending: pending.push(callback),
                }),
                CoordV::Idle => if has_result {
                    act == WhenAction::RunNow && final(self).state@ == old(self).state@
                } else {
                    act == WhenAction::StartAnalysis && (final(self).state@, true) == spec_trigger(
                        old(self).state@,
                        Some(callback),
                    )
                },
            },
    {
        match &mut self.state {
            CoordinatorState::Busy { request_reanalysis: _, pending } => {
                pending.push(callback);
                WhenAction::Deferred
            },
            CoordinatorState::Idle => {
                if has_result {
                    WhenAction::RunNow
                } else {
                    let mut pending: Vec<u64> = Vec::new();
                    pending.push(callback);
                    proof {
                        assert(pending@ =~= seq![callback]);
                    }
                    self.state = CoordinatorState::Busy { request_reanalysis: false, pending };
                    WhenAction::StartAnalysis
                }
            },
        }
    }

    /// Whether the work-done progress channel still has to be negotiated
    /// with the client: yields `true` exactly once, on the first call.
    pub fn register_progress_once(&mut self) -> (first: bool)
        ensures
            first == !old(self).progress_registered,
            final(self).progress_registered,
            final(self).state == old(self).state,
    {
        let first = !self.progress_registered;
        self.progress_registered = true;
        first
    }
}

/// Coalescing: from idle, a trigger starts one run; a second trigger
/// before the run finishes starts none, and the one `finish` hands both
/// completions back, in the order they were queued.
pub proof fn lemma_trigger_coalesces(a: u64, b: u64)
    ensures
        ({
            let (s1, start1) = spec_trigger(CoordV::Idle, Some(a));
            let (s2, start2) = spec_trigger(s1, Some(b));
            let (s3, done, rerun) = spec_finish(s2);
            &&& start1 == true
            &&& start2 == false
            &&& done =~= seq![a, b]
            &&& rerun == true
            &&& s3 is Idle
        }),
{
    let (s1, start1) = spec_trigger(CoordV::Idle, Some(a));
    let (s2, start2) = spec_trigger(s1, Some(b));
    assert(s2->pending =~= seq![a, b]);
}

} // verus!
