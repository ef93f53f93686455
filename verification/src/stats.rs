//! Latency statistics: per-worker accumulation and the order-insensitive merge
//! used when worker results are combined.
//!
//! Durations are carried as whole nanoseconds. The empty statistic uses
//! `min = u64::MAX, max = 0, sum = 0, done = 0`, which is the identity element
//! of the merge.

use vstd::prelude::*;

verus! {

/// Mathematical content of a [`TimeStats`]: unbounded integers, so merges can
/// be reasoned about without overflow side conditions.
pub struct TimeStatsModel {
    pub min: int,
    pub max: int,
    pub sum: int,
    pub done: int,
}

/// The largest duration a `u64` nanosecond count can carry.
pub open spec fn max_duration() -> int {
    u64::MAX as int
}

/// Model of the statistic over no measurements at all.
pub open spec fn empty_stats() -> TimeStatsModel {
    TimeStatsModel { min: max_duration(), max: 0, sum: 0, done: 0 }
}

/// Folding one duration into a statistic.
pub open spec fn record_stats(s: TimeStatsModel, dur: int) -> TimeStatsModel {
    TimeStatsModel {
        min: if dur < s.min { dur } else { s.min },
        max: if dur > s.max { dur } else { s.max },
        sum: s.sum + dur,
        done: s.done + 1,
    }
}

/// Merging two statistics: min of mins, max of maxes, sum of sums, count of
/// counts.
pub open spec fn merge_stats(a: TimeStatsModel, b: TimeStatsModel) -> TimeStatsModel {
    TimeStatsModel {
        min: if a.min < b.min { a.min } else { b.min },
        max: if a.max > b.max { a.max } else { b.max },
        sum: a.sum + b.sum,
        done: a.done + b.done,
    }
}

/// The statistic a single worker would accumulate over a sequence of
/// measured durations.
pub open spec fn stats_of(durs: Seq<int>) -> TimeStatsModel
    decreases durs.len(),
{
    if durs.len() == 0 {
        empty_stats()
    } else {
        record_stats(stats_of(durs.drop_last()), durs.last())
    }
}

/// Bounds that every statistic built from `u64` durations satisfies.
pub open spec fn stats_wf(s: TimeStatsModel) -> bool {
    &&& 0 <= s.min <= max_duration()
    &&& 0 <= s.max <= max_duration()
    &&& 0 <= s.done
    &&& 0 <= s.sum <= s.done * max_duration()
}

/// Running `{min, max, sum, count}` over one timing dimension.
pub struct TimeStats {
    /// Largest duration seen, in nanoseconds; 0 when empty.
    pub max: u64,
    /// Smallest duration seen, in nanoseconds; `u64::MAX` when empty.
    pub min: u64,
    /// Sum of all durations, in nanoseconds.
    pub sum: u128,
    /// How many durations were folded in.
    pub done: u64,
}

impl View for TimeStats {
    type V = TimeStatsModel;

    open spec fn view(&self) -> TimeStatsModel {
        TimeStatsModel {
            min: self.min as int,
            max: self.max as int,
            sum: self.sum as int,
            done: self.done as int,
        }
    }
}

impl Default for TimeStats {
    /// The identity element of the merge.
    fn default() -> (r: Self)
        ensures
            r@ == empty_stats(),
            stats_wf(r@),
    {
        TimeStats { max: 0, min: u64::MAX, sum: 0, done: 0 }
    }
}

impl TimeStats {
    /// Fold one measured duration into this worker's statistic.
    pub fn add(&mut self, dur: u64)
        requires
            stats_wf(old(self)@),
            old(self).done < u64::MAX,
        ensures
            final(self)@ == record_stats(old(self)@, dur as int),
            stats_wf(final(self)@),
    {
        proof {
            lemma_record_wf(self@, dur as int);
        }
        if dur > self.max {
            self.max = dur;
        }
        if dur < self.min {
            self.min = dur;
        }
        self.sum = self.sum + dur as u128;
        self.done = self.done + 1;
    }

    /// Merge another worker's statistic into this one.
    pub fn append(&mut self, rhs: Self)
        requires
            stats_wf(old(self)@),
            stats_wf(rhs@),
            old(self).done + rhs.done <= u64::MAX,
        ensures
            final(self)@ == merge_stats(old(self)@, rhs@),
            stats_wf(final(self)@),
    {
        proof {
            lemma_merge_wf(self@, rhs@);
        }
        if rhs.max > self.max {
            self.max = rhs.max;
        }
        if rhs.min < self.min {
            self.min = rhs.min;
        }
        self.sum = self.sum + rhs.sum;
        self.done = self.done + rhs.done;
    }

    /// Average duration in nanoseconds. Only defined once at least one
    /// measurement was folded in; the caller guards the empty case.
    pub fn avg_nanos(&self) -> (r: u128)
        requires
            self.done > 0,
        ensures
            r == self@.sum / self@.done,
    {
        self.sum / self.done as u128
    }
}

/// Folding a duration into a well-formed bounded statistic stays within
/// bounds, and in particular its sum still fits alongside the new count.
pub proof fn lemma_record_wf(s: TimeStatsModel, dur: int)
    requires
        stats_wf(s),
        0 <= dur <= max_duration(),
        s.done < u64::MAX,
    ensures
        stats_wf(record_stats(s, dur)),
        record_stats(s, dur).sum <= u128::MAX,
{
    assert((s.done + 1) * max_duration() == s.done * max_duration() + max_duration())
        by (nonlinear_arith);
    assert(u64::MAX * max_duration() + max_duration() <= u128::MAX) by (nonlinear_arith);
    assert(s.done * max_duration() <= (u64::MAX - 1) * max_duration()) by (nonlinear_arith)
        requires
            0 <= s.done <= u64::MAX - 1,
    ;
}

/// Merging two well-formed bounded statistics stays within bounds as long as
/// the combined count fits a `u64`.
pub proof fn lemma_merge_wf(a: TimeStatsModel, b: TimeStatsModel)
    requires
        stats_wf(a),
        stats_wf(b),
        a.done + b.done <= u64::MAX,
    ensures
        stats_wf(merge_stats(a, b)),
        merge_stats(a, b).sum <= u128::MAX,
{
    assert((a.done + b.done) * max_duration() == a.done * max_duration() + b.done
        * max_duration()) by (nonlinear_arith);
    assert((a.done + b.done) * max_duration() <= u64::MAX * max_duration())
        by (nonlinear_arith)
        requires
            0 <= a.done + b.done <= u64::MAX,
    ;
    assert(u64::MAX * max_duration() <= u128::MAX) by (nonlinear_arith);
}

/// Merging is commutative: the order two workers' results arrive in does not
/// matter.
pub proof fn lemma_merge_commutative(a: TimeStatsModel, b: TimeStatsModel)
    ensures
        merge_stats(a, b) == merge_stats(b, a),
{
}

/// Merging is associative: grouping of partial merges does not matter.
pub proof fn lemma_merge_associative(a: TimeStatsModel, b: TimeStatsModel, c: TimeStatsModel)
    ensures
        merge_stats(merge_stats(a, b), c) == merge_stats(a, merge_stats(b, c)),
{
}

/// The empty statistic is the identity of the merge on well-formed
/// statistics.
pub proof fn lemma_merge_identity(a: TimeStatsModel)
    requires
        stats_wf(a),
    ensures
        merge_stats(empty_stats(), a) == a,
        merge_stats(a, empty_stats()) == a,
{
}

/// Whatever was measured, a fold starts from the identity, so its minimum
/// never rises above the identity's and its maximum never falls below zero.
pub proof fn lemma_stats_of_bounds(s: Seq<int>)
    ensures
        stats_of(s).min <= max_duration(),
        stats_of(s).max >= 0,
    decreases s.len(),
{
    if s.len() > 0 {
        lemma_stats_of_bounds(s.drop_last());
    }
}

/// Splitting a sequence of measured durations between two workers and merging
/// their statistics gives the same result as one worker measuring them all:
/// together with commutativity and associativity, any partition of the
/// measurements into groups and any merge order yield the same
/// `{min, max, sum, count}`.
pub proof fn lemma_stats_of_concat(s1: Seq<int>, s2: Seq<int>)
    ensures
        stats_of(s1 + s2) == merge_stats(stats_of(s1), stats_of(s2)),
    decreases s2.len(),
{
    if s2.len() == 0 {
        assert(s1 + s2 == s1);
        lemma_stats_of_bounds(s1);
        assert(merge_stats(stats_of(s1), empty_stats()) == stats_of(s1));
    } else {
        lemma_stats_of_concat(s1, s2.drop_last());
        assert((s1 + s2).drop_last() == s1 + s2.drop_last());
        assert((s1 + s2).last() == s2.last());
        assert(stats_of(s1 + s2) == record_stats(stats_of(s1 + s2.drop_last()), s2.last()));
    }
}

/// A pair of statistics: time to first byte ("response") and time to full
/// body ("total").
pub struct HammerStats {
    pub response: TimeStats,
    pub total: TimeStats,
}

impl Default for HammerStats {
    fn default() -> (r: Self)
        ensures
            r.response@ == empty_stats(),
            r.total@ == empty_stats(),
            stats_wf(r.response@),
            stats_wf(r.total@),
    {
        HammerStats { response: TimeStats::default(), total: TimeStats::default() }
    }
}

impl HammerStats {
    /// Merge another worker's pair of statistics into this one.
    pub fn append(&mut self, other: Self)
        requires
            stats_wf(old(self).response@),
            stats_wf(old(self).total@),
            stats_wf(other.response@),
            stats_wf(other.total@),
            old(self).response.done + other.response.done <= u64::MAX,
            old(self).total.done + other.total.done <= u64::MAX,
        ensures
            final(self).response@ == merge_stats(old(self).response@, other.response@),
            final(self).total@ == merge_stats(old(self).total@, other.total@),
            stats_wf(final(self).response@),
            stats_wf(final(self).total@),
    {
        self.response.append(other.response);
        self.total.append(other.total);
    }
}

} // verus!
