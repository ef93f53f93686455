//! The hammer engine's decisions: the shared request budget that workers race
//! to consume, the worker-loop step rules, and the effective worker count.
//!
//! The asynchronous shell owns the real atomics and the HTTP transport; every
//! decision it takes — whether to claim, whether to issue, how to classify a
//! response — is a function defined and verified here. The budget is also
//! carried as a value with one counter per worker, so that conservation (the
//! claims of all workers together account for the whole budget) is a proved
//! invariant rather than an assertion at the end of a run.

use vstd::prelude::*;

verus! {

/// Sum of a sequence of per-worker completion counts.
pub open spec fn total_done(s: Seq<int>) -> int
    decreases s.len(),
{
    if s.len() == 0 {
        0
    } else {
        total_done(s.drop_last()) + s.last()
    }
}

/// A sum of nonnegative counts is nonnegative.
pub proof fn lemma_total_done_nonneg(s: Seq<int>)
    requires
        forall|i: int| 0 <= i < s.len() ==> 0 <= s[i],
    ensures
        0 <= total_done(s),
    decreases s.len(),
{
    if s.len() > 0 {
        lemma_total_done_nonneg(s.drop_last());
    }
}

/// Each worker's count is bounded by the sum of all counts.
pub proof fn lemma_total_done_elem(s: Seq<int>, i: int)
    requires
        forall|j: int| 0 <= j < s.len() ==> 0 <= s[j],
        0 <= i < s.len(),
    ensures
        s[i] <= total_done(s),
    decreases s.len(),
{
    if i + 1 == s.len() {
        lemma_total_done_nonneg(s.drop_last());
    } else {
        lemma_total_done_elem(s.drop_last(), i);
    }
}

/// Incrementing one worker's count increments the sum.
pub proof fn lemma_total_done_update(s: Seq<int>, i: int)
    requires
        0 <= i < s.len(),
    ensures
        total_done(s.update(i, s[i] + 1)) == total_done(s) + 1,
    decreases s.len(),
{
    let t = s.update(i, s[i] + 1);
    if i + 1 == s.len() {
        assert(t.drop_last() =~= s.drop_last());
    } else {
        assert(t.drop_last() =~= s.drop_last().update(i, s[i] + 1));
        lemma_total_done_update(s.drop_last(), i);
    }
}

/// Per-worker counts as unbounded integers.
pub open spec fn done_counts(s: Seq<u64>) -> Seq<int> {
    s.map_values(|x: u64| x as int)
}

/// The request budget of one endpoint, together with how many units each
/// worker has claimed so far.
///
/// The shell mirrors `remaining` in a shared atomic counter; a successful
/// atomic test-and-decrement corresponds to one [`WorkBudget::try_claim`].
pub struct WorkBudget {
    /// The configured request count of the endpoint.
    pub total: u64,
    /// Units not yet claimed.
    pub remaining: u64,
    /// Units claimed, per worker.
    pub done: Vec<u64>,
}

impl WorkBudget {
    /// The budget accounts for every unit: what the workers have claimed plus
    /// what remains is exactly the configured count.
    pub open spec fn inv(self) -> bool {
        &&& self.remaining <= self.total
        &&& total_done(done_counts(self.done@)) + self.remaining == self.total
    }

    /// A fresh budget of `count` units, with `workers` idle workers.
    pub fn new(count: u64, workers: usize) -> (r: Self)
        ensures
            r.inv(),
            r.total == count,
            r.remaining == count,
            r.done@.len() == workers,
            forall|i: int| 0 <= i < workers ==> r.done@[i] == 0,
    {
        let mut done: Vec<u64> = Vec::new();
        let mut i: usize = 0;
        while i < workers
            invariant
                i <= workers,
                done@.len() == i,
                forall|j: int| 0 <= j < i ==> done@[j] == 0,
            decreases workers - i,
        {
            done.push(0);
            i = i + 1;
        }
        proof {
            lemma_all_zero_total(done_counts(done@));
        }
        WorkBudget { total: count, remaining: count, done }
    }

    /// Worker `w` tries to claim one unit: if any work remains the claim
    /// succeeds and is booked on `w`; once the budget is exhausted every
    /// claim fails and nothing changes.
    pub fn try_claim(&mut self, w: usize) -> (claimed: bool)
        requires
            old(self).inv(),
            w < old(self).done@.len(),
        ensures
            final(self).inv(),
            final(self).total == old(self).total,
            final(self).done@.len() == old(self).done@.len(),
            claimed == (old(self).remaining > 0),
            claimed ==> {
                &&& final(self).remaining == old(self).remaining - 1
                &&& final(self).done@ == old(self).done@.update(
                    w as int,
                    (old(self).done@[w as int] + 1) as u64,
                )
            },
            !claimed ==> *final(self) == *old(self),
    {
        if self.remaining > 0 {
            proof {
                let s = done_counts(self.done@);
                lemma_total_done_nonneg(s);
                lemma_total_done_elem(s, w as int);
                lemma_total_done_update(s, w as int);
            }
            self.remaining = self.remaining - 1;
            let old_count = self.done[w];
            self.done.set(w, old_count + 1);
            proof {
                assert(done_counts(self.done@) =~= done_counts(old(self).done@).update(
                    w as int,
                    done_counts(old(self).done@)[w as int] + 1,
                ));
            }
            true
        } else {
            false
        }
    }

    /// Units not yet claimed by any worker.
    pub fn remaining(&self) -> (r: u64)
        ensures
            r == self.remaining,
    {
        self.remaining
    }

    /// Units claimed so far, over all workers.
    pub fn claimed(&self) -> (r: u64)
        requires
            self.inv(),
        ensures
            r == self.total - self.remaining,
    {
        self.total - self.remaining
    }

    /// Budget conservation: once no work remains, the workers' completion
    /// counts sum to exactly the configured count.
    pub proof fn lemma_budget_conservation(self)
        requires
            self.inv(),
            self.remaining == 0,
        ensures
            total_done(done_counts(self.done@)) == self.total,
    {
    }
}

/// A sequence of zero counts sums to zero.
proof fn lemma_all_zero_total(s: Seq<int>)
    requires
        forall|i: int| 0 <= i < s.len() ==> s[i] == 0,
    ensures
        total_done(s) == 0,
    decreases s.len(),
{
    if s.len() > 0 {
        lemma_all_zero_total(s.drop_last());
    }
}

/// How many workers hammer one endpoint: the endpoint's own cap, if set,
/// bounded by the global task count; otherwise the global task count.
pub fn effective_tasks(tasks: u64, max_concurrency: Option<u64>) -> (r: u64)
    ensures
        match max_concurrency {
            Some(cap) => r == if cap < tasks {
                cap as int
            } else {
                tasks as int
            },
            None => r == tasks,
        },
{
    match max_concurrency {
        Some(cap) => if cap < tasks {
            cap
        } else {
            tasks
        },
        None => tasks,
    }
}

/// A response counts as a success exactly when its status code lies in the
/// 2xx class; anything else fails the endpoint.
pub fn status_is_success(status: u16) -> (r: bool)
    ensures
        r == (200 <= status < 300),
{
    200 <= status && status < 300
}

/// What a worker does next at a loop boundary.
#[derive(Debug, PartialEq, Eq, Structural)]
pub enum WorkerAction {
    /// Issue one clone of the endpoint's concrete request.
    Issue,
    /// Leave the loop; no work is claimed.
    Exit,
}

/// The worker-loop decision: a worker issues a request exactly when it won a
/// claim on the budget and no failure has been flagged. The abort flag is
/// consulted only at this boundary, never mid-flight.
pub fn worker_action(claimed: bool, aborted: bool) -> (r: WorkerAction)
    ensures
        r == WorkerAction::Issue <==> (claimed && !aborted),
{
    if claimed && !aborted {
        WorkerAction::Issue
    } else {
        WorkerAction::Exit
    }
}

/// What happens after a response arrives: a 2xx response is recorded and the
/// loop continues; anything else sets the shared abort flag and ends this
/// worker with an error. The flag is write-once: this function never asks to
/// clear it.
pub fn response_decision(status: u16) -> (abort: bool)
    ensures
        abort == !(200 <= status < 300),
{
    !status_is_success(status)
}

} // verus!
