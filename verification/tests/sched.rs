use statusline::escape_json_string;
use statusline::sched::plan_wait;
use statusline::sched::pollable_indices;
use statusline::sched::ready_sources;

#[test]
fn handle_ready_wakes_before_deadline() {
    // Source A: deadline five seconds out, no handle.
    // Source B: a handle, no deadline.
    let deadlines = vec![Some(5000u64), None];
    let plan = plan_wait(0, &deadlines);
    // Nothing is due yet, so neither source is refreshed prematurely.
    assert!(plan.due.is_empty());
    // The wait is bounded by A's deadline...
    assert_eq!(plan.wait_ms, 5000);
    assert_eq!(plan.soonest, 0);
    // ...and B's handle is in the polled set.
    let fds = vec![None, Some(7)];
    let (poll_fds, indices) = pollable_indices(&fds);
    assert_eq!(poll_fds, vec![7]);
    assert_eq!(indices, vec![1]);
    // When that handle reports readiness, B alone is refreshed.
    let woken = ready_sources(&vec![true], &indices);
    assert_eq!(woken, vec![1]);
}

#[test]
fn elapsed_deadlines_are_due_in_order() {
    let deadlines = vec![Some(100u64), None, Some(50), Some(200)];
    let plan = plan_wait(100, &deadlines);
    assert_eq!(plan.due, vec![0, 2]);
    assert_eq!(plan.wait_ms, 100);
    assert_eq!(plan.soonest, 3);
}

#[test]
fn soonest_deadline_bounds_the_wait() {
    let deadlines = vec![Some(300u64), Some(200), Some(250)];
    let plan = plan_wait(100, &deadlines);
    assert!(plan.due.is_empty());
    assert_eq!(plan.wait_ms, 100);
    assert_eq!(plan.soonest, 1);
}

#[test]
fn deadline_ties_go_to_the_first_registered_source() {
    let deadlines = vec![Some(200u64), Some(200)];
    let plan = plan_wait(100, &deadlines);
    assert_eq!(plan.wait_ms, 100);
    assert_eq!(plan.soonest, 0);
}

#[test]
fn no_deadline_means_unbounded_wait() {
    let deadlines: Vec<Option<u64>> = vec![None, None];
    let plan = plan_wait(0, &deadlines);
    assert_eq!(plan.wait_ms, -1);
    let none: Vec<Option<u64>> = Vec::new();
    assert_eq!(plan_wait(0, &none).wait_ms, -1);
}

#[test]
fn distant_deadlines_clamp_to_the_poll_range() {
    let deadlines = vec![Some(u64::MAX)];
    let plan = plan_wait(0, &deadlines);
    assert_eq!(plan.wait_ms, i32::MAX);
    assert_eq!(plan.soonest, 0);
}

#[test]
fn only_exposed_handles_are_polled() {
    let fds = vec![Some(3), None, Some(5), None];
    let (poll_fds, indices) = pollable_indices(&fds);
    assert_eq!(poll_fds, vec![3, 5]);
    assert_eq!(indices, vec![0, 2]);
}

#[test]
fn no_readiness_refreshes_nobody() {
    let woken = ready_sources(&vec![false, false], &vec![0, 2]);
    assert!(woken.is_empty());
    let woken = ready_sources(&vec![false, true], &vec![0, 2]);
    assert_eq!(woken, vec![2]);
}

#[test]
fn json_escaping_keeps_block_text() {
    assert_eq!(escape_json_string("Battery: 50% (Full)"), "Battery: 50% (Full)");
    assert_eq!(escape_json_string("say \"hi\""), "say \"hi\"");
}
