//! Statistics merging, the work budget, worker decisions, and the progress
//! window, on concrete values.

use http_hammer::engine::{
    effective_tasks, response_decision, status_is_success, worker_action, WorkBudget, WorkerAction,
};
use http_hammer::progress::ProgressWindow;
use http_hammer::stats::{HammerStats, TimeStats};

#[test]
fn stats_empty_identity() {
    let s = TimeStats::default();
    assert_eq!(s.min, u64::MAX);
    assert_eq!(s.max, 0);
    assert_eq!(s.sum, 0);
    assert_eq!(s.done, 0);
}

#[test]
fn stats_add_folds_min_max_sum_count() {
    let mut s = TimeStats::default();
    s.add(5);
    s.add(3);
    s.add(7);
    assert_eq!(s.min, 3);
    assert_eq!(s.max, 7);
    assert_eq!(s.sum, 15);
    assert_eq!(s.done, 3);
    assert_eq!(s.avg_nanos(), 5);
}

#[test]
fn stats_merge_is_commutative() {
    let mut a = TimeStats::default();
    a.add(10);
    a.add(20);
    let mut b = TimeStats::default();
    b.add(5);
    b.add(40);

    let mut ab = TimeStats::default();
    ab.append(a);
    let mut a2 = TimeStats::default();
    a2.add(10);
    a2.add(20);
    let mut b2 = TimeStats::default();
    b2.add(5);
    b2.add(40);
    ab.append(b2);

    let mut ba = TimeStats::default();
    ba.append(b);
    ba.append(a2);

    assert_eq!(ab.min, ba.min);
    assert_eq!(ab.max, ba.max);
    assert_eq!(ab.sum, ba.sum);
    assert_eq!(ab.done, ba.done);
    assert_eq!(ab.min, 5);
    assert_eq!(ab.max, 40);
    assert_eq!(ab.sum, 75);
    assert_eq!(ab.done, 4);
}

#[test]
fn stats_partition_invariance() {
    // all durations measured by one worker
    let durations = [8u64, 1, 9, 4, 4, 2];
    let mut whole = TimeStats::default();
    for d in durations {
        whole.add(d);
    }
    // the same durations split across three workers, merged in another order
    let mut w1 = TimeStats::default();
    w1.add(8);
    w1.add(1);
    let mut w2 = TimeStats::default();
    w2.add(9);
    let mut w3 = TimeStats::default();
    w3.add(4);
    w3.add(4);
    w3.add(2);
    let mut merged = TimeStats::default();
    merged.append(w3);
    merged.append(w1);
    merged.append(w2);
    assert_eq!(merged.min, whole.min);
    assert_eq!(merged.max, whole.max);
    assert_eq!(merged.sum, whole.sum);
    assert_eq!(merged.done, whole.done);
}

#[test]
fn stats_merge_identity_element() {
    let mut s = TimeStats::default();
    s.add(12);
    s.append(TimeStats::default());
    assert_eq!(s.min, 12);
    assert_eq!(s.max, 12);
    assert_eq!(s.sum, 12);
    assert_eq!(s.done, 1);
}

#[test]
fn hammer_stats_append_both_dimensions() {
    let mut a = HammerStats::default();
    a.response.add(2);
    a.total.add(10);
    let mut b = HammerStats::default();
    b.response.add(4);
    b.total.add(6);
    a.append(b);
    assert_eq!(a.response.min, 2);
    assert_eq!(a.response.max, 4);
    assert_eq!(a.total.min, 6);
    assert_eq!(a.total.max, 10);
    assert_eq!(a.total.done, 2);
}

#[test]
fn budget_conservation_exact_count() {
    // budget conservation: with count = 1000 and no failures, the workers'
    // claims sum to exactly 1000
    let count = 1000u64;
    let workers = 6usize;
    let mut budget = WorkBudget::new(count, workers);
    let mut w = 0usize;
    let mut spins = 0u64;
    while budget.try_claim(w) {
        w = (w + 7) % workers;  // an uneven rotation
        spins += 1;
    }
    assert_eq!(spins, count);
    assert_eq!(budget.remaining(), 0);
    assert_eq!(budget.claimed(), count);
    let total: u64 = budget.done.iter().sum();
    assert_eq!(total, count);
}

#[test]
fn budget_exhausted_claims_fail() {
    let mut budget = WorkBudget::new(2, 3);
    assert!(budget.try_claim(0));
    assert!(budget.try_claim(1));
    assert!(!budget.try_claim(2));
    assert!(!budget.try_claim(0));
    assert_eq!(budget.done, vec![1, 1, 0]);
}

#[test]
fn effective_tasks_is_capped_minimum() {
    assert_eq!(effective_tasks(6, None), 6);
    assert_eq!(effective_tasks(6, Some(10)), 6);
    assert_eq!(effective_tasks(6, Some(4)), 4);
    assert_eq!(effective_tasks(0, Some(4)), 0);
}

#[test]
fn status_classification_2xx_only() {
    assert!(status_is_success(200));
    assert!(status_is_success(204));
    assert!(status_is_success(299));
    assert!(!status_is_success(199));
    assert!(!status_is_success(300));
    assert!(!status_is_success(404));
    assert!(!status_is_success(500));
    assert!(!response_decision(200));
    assert!(response_decision(500));
}

#[test]
fn worker_issues_only_with_claim_and_no_abort() {
    assert_eq!(worker_action(true, false), WorkerAction::Issue);
    assert_eq!(worker_action(true, true), WorkerAction::Exit);
    assert_eq!(worker_action(false, false), WorkerAction::Exit);
    assert_eq!(worker_action(false, true), WorkerAction::Exit);
}

#[test]
fn progress_window_first_sample_gives_no_rate() {
    let mut w = ProgressWindow::new();
    assert_eq!(w.observe(1_000, 0), None);
    assert_eq!(w.observe(2_000, 10), Some((10, 1_000)));
}

#[test]
fn progress_window_smooths_over_recent_samples() {
    let mut w = ProgressWindow::new();
    // fill the window: each estimate is against the oldest retained sample
    assert_eq!(w.observe(0, 0), None);
    assert_eq!(w.observe(100, 1), Some((1, 100)));
    assert_eq!(w.observe(200, 4), Some((4, 200)));
    assert_eq!(w.observe(300, 9), Some((9, 300)));
    assert_eq!(w.observe(400, 16), Some((16, 400)));
    assert_eq!(w.observe(500, 25), Some((25, 500)));
    // the window holds six samples now; the oldest leaves
    assert_eq!(w.observe(600, 36), Some((36, 600)));
    // and from here the estimate spans the six retained samples only
    assert_eq!(w.observe(700, 49), Some((49 - 1, 700 - 100)));
    assert_eq!(w.samples.len(), 6);
}
