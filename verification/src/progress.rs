//! The rate-limited progress reporter every worker of a run feeds.
//! Counting is scoped to a category label: a report under a new label
//! restarts the counter. The percentage is computed against the
//! configured bound, self-healing when the bound undercounts, and an
//! emission happens only when the percentage changes.

use crate::seq_views::views;
use vstd::arithmetic::div_mod::lemma_div_is_ordered;
use vstd::arithmetic::div_mod::lemma_div_multiples_vanish;
use vstd::prelude::*;

verus! {

/// A sink for progress reports.
pub trait GenericProgress {
    /// Sets the expected number of reports.
    fn set_max(&mut self, max: usize);

    /// Records one unit of work under a category label; yields the
    /// percentage to publish, when it changed.
    fn progress(&mut self, ident: &str) -> Option<usize>;
}

/// Progress state whose emissions are handed back to the caller.
pub struct CallbackProgress {
    pub max: usize,
    pub prev_ident: Option<String>,
    pub count: usize,
    pub prev_output: usize,
}

/// Ghost counterpart of `CallbackProgress`.
pub struct ProgressV {
    pub max: int,
    pub prev_ident: Option<Seq<char>>,
    pub count: int,
    pub prev_output: int,
}

impl View for CallbackProgress {
    type V = ProgressV;

    open spec fn view(&self) -> ProgressV {
        ProgressV {
            max: self.max as int,
            prev_ident: match self.prev_ident {
                Some(p) => Some(p@),
                None => None,
            },
            count: self.count as int,
            prev_output: self.prev_output as int,
        }
    }
}

impl ProgressV {
    /// What one `report` does: the state after it and the percentage it
    /// emits, if any. A counter at its ceiling reports nothing more.
    pub open spec fn spec_step(self, ident: Seq<char>) -> (ProgressV, Option<int>) {
        if self.count >= usize::MAX {
            (self, None)
        } else {
            let cnt = match self.prev_ident {
                Some(p) => if p != ident {
                    1int
                } else {
                    self.count + 1
                },
                None => self.count + 1,
            };
            let eff = if cnt > self.max {
                cnt
            } else {
                self.max
            };
            let pct = if eff > 0 {
                cnt * 100 / eff
            } else {
                0
            };
            let emit = if pct != self.prev_output {
                Some(pct)
            } else {
                None
            };
            (
                ProgressV { max: self.max, prev_ident: Some(ident), count: cnt, prev_output: pct },
                emit,
            )
        }
    }
}

/// One percentage emission, under its category label.
#[derive(Debug, PartialEq, Eq)]
pub struct ProgressEvent {
    pub percent: usize,
    pub category: String,
}

impl View for ProgressEvent {
    type V = (int, Seq<char>);

    open spec fn view(&self) -> (int, Seq<char>) {
        (self.percent as int, self.category@)
    }
}

impl ProgressEvent {
    /// A copy, equal to the original in view.
    pub fn duplicate(&self) -> (r: ProgressEvent)
        ensures
            r@ == self@,
    {
        ProgressEvent { percent: self.percent, category: self.category.clone() }
    }
}

/// Moves a copy of every event of `extra` to the end of `out`.
pub fn append_events(out: &mut Vec<ProgressEvent>, extra: &Vec<ProgressEvent>)
    ensures
        views(final(out)@) == views(old(out)@) + views(extra@),
{
    let mut i: usize = 0;
    proof {
        crate::seq_views::lemma_views_len(extra@);
        assert(views(extra@).take(0) =~= Seq::<(int, Seq<char>)>::empty());
        assert(views(old(out)@) + Seq::<(int, Seq<char>)>::empty() =~= views(old(out)@));
    }
    while i < extra.len()
        invariant
            i <= extra.len(),
            views(extra@).len() == extra@.len(),
            views(out@) =~= views(old(out)@) + views(extra@).take(i as int),
        decreases extra.len() - i,
    {
        let copied = extra[i].duplicate();
        proof {
            crate::seq_views::lemma_views_push(out@, copied);
            crate::seq_views::lemma_views_index(extra@, i as int);
            assert((views(old(out)@) + views(extra@).take(i as int)).push(
                views(extra@)[i as int],
            ) =~= views(old(out)@) + views(extra@).take(i + 1));
        }
        out.push(copied);
        i = i + 1;
    }
    proof {
        assert(views(extra@).take(extra@.len() as int) =~= views(extra@));
    }
}

impl CallbackProgress {
    /// The counter value after one more report under `ident`: restarted
    /// when the label changes, advanced otherwise.
    pub open spec fn spec_next_count(self, ident: Seq<char>) -> int {
        match self.prev_ident {
            Some(p) => if p@ != ident {
                1
            } else {
                self.count + 1
            },
            None => self.count + 1,
        }
    }

    /// The bound percentages are computed against: the configured bound,
    /// or the counter itself when the bound undercounts.
    pub open spec fn spec_effective_max(self, cnt: int) -> int {
        if cnt > self.max {
            cnt
        } else {
            self.max as int
        }
    }

    /// The percentage reported for a counter value.
    pub open spec fn spec_percent(self, cnt: int) -> int {
        let eff = self.spec_effective_max(cnt);
        if eff > 0 {
            cnt * 100 / eff
        } else {
            0
        }
    }

    pub fn new() -> (r: CallbackProgress)
        ensures
            r.max == 0,
            r.prev_ident is None,
            r.count == 0,
            r.prev_output == 0,
    {
        Self::new_with_max(0)
    }

    pub fn new_with_max(max: usize) -> (r: CallbackProgress)
        ensures
            r.max == max,
            r.prev_ident is None,
            r.count == 0,
            r.prev_output == 0,
    {
        CallbackProgress { max, prev_ident: None, count: 0, prev_output: 0 }
    }

    pub fn set_max(&mut self, max: usize)
        ensures
            final(self).max == max,
            final(self).prev_ident == old(self).prev_ident,
            final(self).count == old(self).count,
            final(self).prev_output == old(self).prev_output,
    {
        self.max = max;
    }

    /// Everything one report changes: the counter steps or restarts, the
    /// label is remembered, and the percentage is emitted exactly when it
    /// differs from the last emitted one.
    pub open spec fn step_post(
        pre: CallbackProgress,
        post: CallbackProgress,
        ident: Seq<char>,
        emit: Option<usize>,
    ) -> bool {
        let cnt = pre.spec_next_count(ident);
        let pct = pre.spec_percent(cnt);
        &&& post.max == pre.max
        &&& post.count == cnt
        &&& post.prev_ident matches Some(p) && p@ == ident
        &&& 0 <= pct <= 100
        &&& emit == (if pct != pre.prev_output {
            Some(pct as usize)
        } else {
            None::<usize>
        })
        &&& post.prev_output == pct
    }

    /// One report under `ident`. The returned percentage is `Some`
    /// exactly when it differs from the last emitted one: a burst of
    /// reports mapping to one percentage is published once.
    pub fn progress(&mut self, ident: &str) -> (emit: Option<usize>)
        requires
            old(self).count < usize::MAX,
        ensures
            Self::step_post(*old(self), *final(self), ident@, emit),
    {
        let reset = match &self.prev_ident {
            Some(p) => !(*p == ident.to_owned()),
            None => false,
        };
        if reset {
            self.count = 1;
        } else {
            self.count = self.count + 1;
        }
        self.prev_ident = Some(ident.to_owned());
        let eff = if self.count > self.max {
            self.count
        } else {
            self.max
        };
        let wide: u128 = (self.count as u128) * 100 / (eff as u128);
        proof {
            assert(eff > 0);
            assert(self.count * 100 <= eff * 100) by (nonlinear_arith)
                requires
                    0 < self.count <= eff,
            ;
            lemma_div_is_ordered(self.count * 100, eff * 100, eff as int);
            lemma_div_multiples_vanish(100, eff as int);
            assert(eff as int * 100 == 100 * eff as int);
            assert(self.count * 100 / (eff as int) <= 100);
        }
        let percent = wide as usize;
        // the emission only happens when the percentage moved
        if percent != self.prev_output {
            self.prev_output = percent;
            Some(percent)
        } else {
            None
        }
    }
}

impl CallbackProgress {
    /// One report, safe at any counter value: exactly the step of
    /// `ProgressV::spec_step`.
    pub fn report(&mut self, ident: &str) -> (emit: Option<usize>)
        ensures
            final(self).max == old(self).max,
            final(self)@ == old(self)@.spec_step(ident@).0,
            emit is Some <==> old(self)@.spec_step(ident@).1 is Some,
            emit matches Some(e) ==> old(self)@.spec_step(ident@).1 == Some(e as int),
            old(self).count < usize::MAX ==> Self::step_post(
                *old(self),
                *final(self),
                ident@,
                emit,
            ),
            old(self).count == usize::MAX ==> *final(self) == *old(self) && emit is None,
    {
        if self.count < usize::MAX {
            let emit = self.progress(ident);
            proof {
                assert(self@ == old(self)@.spec_step(ident@).0);
            }
            emit
        } else {
            None
        }
    }
}

impl GenericProgress for CallbackProgress {
    fn set_max(&mut self, max: usize) {
        CallbackProgress::set_max(self, max)
    }

    fn progress(&mut self, ident: &str) -> Option<usize> {
        if self.count < usize::MAX {
            CallbackProgress::progress(self, ident)
        } else {
            None
        }
    }
}

} // verus!
