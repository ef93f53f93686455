//! The progress reporter's sliding window: a bounded record of recent
//! `(timestamp, completed)` samples from which a smoothed throughput is
//! estimated.
//!
//! The reporter samples shared counters on a timer; this module owns the
//! window arithmetic, while the timer, the terminal rendering and the final
//! rate division stay in the unverified shell.

use std::collections::VecDeque;

use vstd::prelude::*;

verus! {

/// Most recent samples retained for the throughput estimate.
pub open spec fn window_capacity() -> int {
    6
}

/// A bounded sliding window of `(timestamp in nanoseconds, completed count)`
/// samples, oldest first.
pub struct ProgressWindow {
    pub samples: VecDeque<(u64, u64)>,
}

impl ProgressWindow {
    /// Samples are bounded in number and monotone: time and completed count
    /// never decrease from one sample to the next.
    pub open spec fn wf(self) -> bool {
        &&& self.samples@.len() <= window_capacity()
        &&& forall|i: int, j: int|
            0 <= i <= j < self.samples@.len() ==> #[trigger] self.samples@[i].0
                <= #[trigger] self.samples@[j].0 && self.samples@[i].1 <= self.samples@[j].1
    }

    /// An empty window: the first observation yields no estimate.
    pub fn new() -> (r: Self)
        ensures
            r.wf(),
            r.samples@.len() == 0,
    {
        ProgressWindow { samples: VecDeque::new() }
    }

    /// Record one sample and report the throughput base: the completed-count
    /// change and the elapsed nanoseconds since the oldest retained sample,
    /// or nothing on the very first observation. Once the window is full the
    /// oldest sample leaves, so the estimate smooths over a recent span
    /// rather than the whole run.
    pub fn observe(&mut self, now: u64, done: u64) -> (r: Option<(u64, u64)>)
        requires
            old(self).wf(),
            old(self).samples@.len() > 0 ==> {
                &&& now >= old(self).samples@.last().0
                &&& done >= old(self).samples@.last().1
            },
        ensures
            final(self).wf(),
            r matches Some(base) ==> {
                &&& old(self).samples@.len() > 0
                &&& base.0 == done - old(self).samples@[0].1
                &&& base.1 == now - old(self).samples@[0].0
            },
            r is None <==> old(self).samples@.len() == 0,
            final(self).samples@ == if old(self).samples@.len() > window_capacity() - 1 {
                old(self).samples@.drop_first().push((now, done))
            } else {
                old(self).samples@.push((now, done))
            },
    {
        let ghost prior = self.samples@;
        let r: Option<(u64, u64)>;
        if self.samples.len() > 5 {
            let oldest = self.samples.pop_front();
            match oldest {
                Some((pt, pd)) => {
                    r = Some((done - pd, now - pt));
                },
                None => {
                    // unreachable: the window held more than five samples
                    r = None;
                },
            }
        } else if self.samples.len() > 0 {
            let (pt, pd) = self.samples[0];
            r = Some((done - pd, now - pt));
        } else {
            r = None;
        }
        self.samples.push_back((now, done));
        proof {
            if prior.len() > window_capacity() - 1 {
                assert(self.samples@ =~= prior.drop_first().push((now, done)));
            } else {
                assert(self.samples@ =~= prior.push((now, done)));
            }
        }
        r
    }
}

} // verus!
