use dispenser::wait::{pausable_step, wait_interruptible, wait_pausable, wait_step, WaitStep};

const NEVER: u64 = u64::MAX;

#[test]
fn step_times_out_past_the_deadline() {
    assert_eq!(wait_step(1001, 1000), WaitStep::TimedOut);
}

#[test]
fn step_sleeps_the_remaining_budget() {
    assert_eq!(wait_step(300, 1000), WaitStep::Sleep { remaining_ns: 700 });
    assert_eq!(wait_step(1000, 1000), WaitStep::Sleep { remaining_ns: 0 });
}

#[test]
fn pausable_step_blocks_while_paused() {
    assert_eq!(pausable_step(300, 1000, true), WaitStep::Block);
    // even past the deadline, a paused wait only blocks
    assert_eq!(pausable_step(5000, 1000, true), WaitStep::Block);
}

#[test]
fn pausable_step_matches_wait_step_when_unpaused() {
    assert_eq!(pausable_step(300, 1000, false), WaitStep::Sleep { remaining_ns: 700 });
    assert_eq!(pausable_step(1001, 1000, false), WaitStep::TimedOut);
}

#[test]
fn interrupted_wait_ends_at_the_predicate_instant() {
    // predicate becomes true at 300, well before the 1000 ns deadline; the
    // producer wakes the waiter then; a spurious wake at 100 changes nothing
    let wakes = vec![100, 300, 1100];
    assert_eq!(wait_interruptible(0, 1000, 300, &wakes), (true, 300));
}

#[test]
fn wait_without_interruption_runs_the_full_duration() {
    // the predicate never becomes true: the wait ends uninterrupted at the
    // first wake past the deadline
    let wakes = vec![400, 1001];
    assert_eq!(wait_interruptible(0, 1000, NEVER, &wakes), (false, 1001));
}

#[test]
fn spurious_wakes_do_not_stretch_the_wait() {
    let wakes = vec![1, 2, 3, 999, 1200];
    assert_eq!(wait_interruptible(0, 1000, NEVER, &wakes), (false, 1200));
}

#[test]
fn predicate_already_true_ends_at_the_first_wake() {
    let wakes = vec![5, 2000];
    assert_eq!(wait_interruptible(0, 1000, 0, &wakes), (true, 5));
}

#[test]
fn wait_starts_against_an_absolute_deadline() {
    // start 500, duration 1000: deadline 1500
    let wakes = vec![700, 1501];
    assert_eq!(wait_interruptible(500, 1000, NEVER, &wakes), (false, 1501));
}

#[test]
fn pausable_wait_without_pause_matches_interruptible() {
    let wakes = vec![100, 300, 1100];
    assert_eq!(
        wait_pausable(0, 1000, 300, 10, 10, &wakes),
        wait_interruptible(0, 1000, 300, &wakes)
    );
    let wakes2 = vec![400, 1001];
    assert_eq!(
        wait_pausable(0, 1000, NEVER, 10, 10, &wakes2),
        wait_interruptible(0, 1000, NEVER, &wakes2)
    );
}

#[test]
fn paused_wait_blocks_past_the_deadline() {
    // pause covers [50, 500): wakes at 200 and 400 fall past the 100 ns
    // deadline but inside the pause, so the wait keeps blocking and ends
    // only at the first unpaused wake
    let wakes = vec![60, 200, 400, 600];
    assert_eq!(wait_pausable(0, 100, NEVER, 50, 500, &wakes), (false, 600));
}

#[test]
fn pause_does_not_extend_the_budget() {
    // the deadline stays at 100: once the pause lifts, the wait ends at the
    // very next wake rather than getting its paused time back
    let wakes = vec![60, 200, 600];
    let (interrupted, end) = wait_pausable(0, 100, NEVER, 50, 500, &wakes);
    assert!(!interrupted);
    assert_eq!(end, 600);
}

#[test]
fn interruption_lands_during_a_pause() {
    // the predicate becomes true at 450 while paused; the wake at 600 sees it
    let wakes = vec![60, 200, 400, 600];
    assert_eq!(wait_pausable(0, 100, 450, 50, 500, &wakes), (true, 600));
}
