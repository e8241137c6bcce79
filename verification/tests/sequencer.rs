use dispenser::sequencer::{process_order, run_order, Channel, SeqAction, Sequencer, SETTLE_DELAY_MS, STEP_DELAY_MS};
use dispenser::Coordinator;

#[test]
fn delay_constants_match_the_design() {
    assert_eq!(STEP_DELAY_MS, 500);
    assert_eq!(SETTLE_DELAY_MS, 300);
}

#[test]
fn empty_order_has_no_wait_to_interrupt() {
    assert_eq!(run_order(0, 0, Some(0)), run_order(0, 0, None));
}

fn set(channel: Channel, active: bool) -> SeqAction {
    SeqAction::SetPosition { channel, active }
}

fn wait(pausable: bool) -> SeqAction {
    SeqAction::StepWait { pausable }
}

fn cycle(channel: Channel) -> Vec<SeqAction> {
    vec![set(channel, true), wait(false), set(channel, false), wait(true)]
}

fn reset() -> Vec<SeqAction> {
    vec![
        set(Channel::A, false),
        set(Channel::B, false),
        SeqAction::SettleWait,
        SeqAction::FinishOrder,
    ]
}

#[test]
fn order_two_three_runs_every_cycle_then_one_reset() {
    let trace = run_order(2, 3, None);
    let mut expected = Vec::new();
    expected.extend(cycle(Channel::A));
    expected.extend(cycle(Channel::A));
    expected.extend(cycle(Channel::B));
    expected.extend(cycle(Channel::B));
    expected.extend(cycle(Channel::B));
    expected.extend(reset());
    assert_eq!(trace, expected);
    // exactly one reset: FinishOrder appears once, at the very end
    let finishes = trace
        .iter()
        .filter(|a| matches!(a, SeqAction::FinishOrder))
        .count();
    assert_eq!(finishes, 1);
}

#[test]
fn empty_order_still_resets_once() {
    assert_eq!(run_order(0, 0, None), reset());
}

#[test]
fn order_without_channel_a() {
    let trace = run_order(0, 2, None);
    let mut expected = Vec::new();
    expected.extend(cycle(Channel::B));
    expected.extend(cycle(Channel::B));
    expected.extend(reset());
    assert_eq!(trace, expected);
}

#[test]
fn cancel_after_first_cycle_skips_the_rest_and_resets_once() {
    // the wait indices of an order are 0, 1 within the first cycle, 2, 3 in
    // the second, and so on; an interruption at wait 2 cuts the second
    // channel-A cycle right after its active wait
    let trace = run_order(2, 3, Some(2));
    let mut expected = Vec::new();
    expected.extend(cycle(Channel::A));
    expected.push(set(Channel::A, true));
    expected.push(wait(false));
    expected.extend(reset());
    assert_eq!(trace, expected);
    let finishes = trace
        .iter()
        .filter(|a| matches!(a, SeqAction::FinishOrder))
        .count();
    assert_eq!(finishes, 1);
}

#[test]
fn interruption_at_the_first_wait() {
    let trace = run_order(1, 0, Some(0));
    let mut expected = vec![set(Channel::A, true), wait(false)];
    expected.extend(reset());
    assert_eq!(trace, expected);
}

#[test]
fn interruption_at_an_inactive_wait_finishes_the_cycle() {
    let trace = run_order(2, 0, Some(1));
    let mut expected = Vec::new();
    expected.extend(cycle(Channel::A));
    expected.extend(reset());
    assert_eq!(trace, expected);
}

#[test]
fn interruption_cuts_into_channel_b() {
    let trace = run_order(1, 2, Some(4));
    let mut expected = Vec::new();
    expected.extend(cycle(Channel::A));
    expected.extend(cycle(Channel::B));
    expected.push(set(Channel::B, true));
    expected.push(wait(false));
    expected.extend(reset());
    assert_eq!(trace, expected);
}

#[test]
fn interruption_index_past_the_order_changes_nothing() {
    assert_eq!(run_order(1, 1, Some(4)), run_order(1, 1, None));
    assert_eq!(run_order(1, 1, Some(1_000_000)), run_order(1, 1, None));
}

#[test]
fn process_order_leaves_the_coordinator_clean() {
    let mut c = Coordinator::new();
    c.submit_order(2, 3);
    let trace = process_order(&mut c, None);
    assert_eq!(trace, run_order(2, 3, None));
    assert!(c.order.is_none());
    assert!(!c.processing);
    assert!(!c.cancel);
    assert!(!c.pause);
    assert!(!c.exit);
}

#[test]
fn process_order_after_a_cancel_still_clears_the_cancel() {
    let mut c = Coordinator::new();
    c.submit_order(2, 3);
    // a cancel raised after the first channel-A cycle interrupts wait 2
    let trace = process_order(&mut c, Some(2));
    assert_eq!(trace, run_order(2, 3, Some(2)));
    assert!(c.order.is_none());
    assert!(!c.processing);
    assert!(!c.cancel);
}

#[test]
fn stepper_walks_one_cycle() {
    let mut s = Sequencer::new(1, 0);
    assert!(!s.is_done());
    assert_eq!(s.next(false), set(Channel::A, true));
    assert_eq!(s.next(false), wait(false));
    assert_eq!(s.next(false), set(Channel::A, false));
    assert_eq!(s.next(false), wait(true));
    assert_eq!(s.next(false), set(Channel::A, false));
    assert_eq!(s.next(false), set(Channel::B, false));
    assert_eq!(s.next(false), SeqAction::SettleWait);
    assert_eq!(s.next(false), SeqAction::FinishOrder);
    assert!(s.is_done());
}

#[test]
fn stepper_aborts_to_reset_on_interruption() {
    let mut s = Sequencer::new(5, 5);
    assert_eq!(s.next(false), set(Channel::A, true));
    assert_eq!(s.next(false), wait(false));
    // the wait reports an interruption: straight to the reset
    assert_eq!(s.next(true), set(Channel::A, false));
    assert_eq!(s.next(false), set(Channel::B, false));
    assert_eq!(s.next(false), SeqAction::SettleWait);
    assert_eq!(s.next(false), SeqAction::FinishOrder);
    assert!(s.is_done());
}

#[test]
fn reset_ignores_interruption_reports() {
    let mut s = Sequencer::new(0, 0);
    assert_eq!(s.next(false), set(Channel::A, false));
    // the reset is uninterruptible: a report changes nothing
    assert_eq!(s.next(true), set(Channel::B, false));
    assert_eq!(s.next(true), SeqAction::SettleWait);
    assert_eq!(s.next(false), SeqAction::FinishOrder);
    assert!(s.is_done());
}
