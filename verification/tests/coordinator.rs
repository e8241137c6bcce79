use dispenser::coordinator::{Coordinator, NextWork, Order};

#[test]
fn next_work_parks_while_idle() {
    let mut c = Coordinator::new();
    assert_eq!(c.next_work(), NextWork::Park);
    assert!(!c.processing);
}

#[test]
fn next_work_takes_a_pending_order() {
    let mut c = Coordinator::new();
    c.submit_order(2, 3);
    assert_eq!(c.next_work(), NextWork::Begin(Order { count_a: 2, count_b: 3 }));
    assert!(c.processing);
}

#[test]
fn next_work_prefers_exit_over_an_order() {
    let mut c = Coordinator::new();
    c.submit_order(2, 3);
    c.request_exit();
    assert_eq!(c.next_work(), NextWork::Exit);
    assert!(!c.processing);
}

#[test]
fn starts_idle() {
    let c = Coordinator::new();
    assert!(!c.exit);
    assert!(!c.pause);
    assert!(!c.cancel);
    assert!(!c.processing);
    assert!(c.order.is_none());
    assert_eq!(c.status(), (false, false));
    assert!(!c.has_work());
}

#[test]
fn submit_order_fills_the_slot_and_wakes_work() {
    let mut c = Coordinator::new();
    c.submit_order(2, 3);
    assert_eq!(c.order, Some(Order { count_a: 2, count_b: 3 }));
    assert!(c.has_work());
    assert!(!c.processing);
}

#[test]
fn begin_processing_reads_the_order_and_keeps_the_slot() {
    let mut c = Coordinator::new();
    c.submit_order(2, 3);
    let ord = c.begin_processing();
    assert_eq!(ord, Order { count_a: 2, count_b: 3 });
    assert!(c.processing);
    assert_eq!(c.order, Some(ord));
    assert_eq!(c.status(), (true, false));
}

#[test]
fn toggle_pause_is_a_noop_while_idle() {
    let mut c = Coordinator::new();
    let before = c.clone();
    c.toggle_pause();
    assert_eq!(c, before);
}

#[test]
fn toggle_pause_flips_while_processing() {
    let mut c = Coordinator::new();
    c.submit_order(1, 1);
    c.begin_processing();
    c.toggle_pause();
    assert!(c.pause);
    assert_eq!(c.status(), (true, true));
    c.toggle_pause();
    assert!(!c.pause);
}

#[test]
fn request_cancel_is_a_noop_while_idle() {
    let mut c = Coordinator::new();
    let before = c.clone();
    c.request_cancel();
    assert_eq!(c, before);
}

#[test]
fn request_cancel_raises_the_interrupt_predicate() {
    let mut c = Coordinator::new();
    c.submit_order(1, 0);
    c.begin_processing();
    assert!(!c.interrupt_requested());
    c.request_cancel();
    assert!(c.cancel);
    assert!(c.interrupt_requested());
}

#[test]
fn request_exit_is_idempotent() {
    let mut once = Coordinator::new();
    once.submit_order(1, 0);
    once.request_exit();
    let mut twice = Coordinator::new();
    twice.submit_order(1, 0);
    twice.request_exit();
    twice.request_exit();
    assert_eq!(once, twice);
}

#[test]
fn request_exit_wakes_both_loops() {
    let mut c = Coordinator::new();
    c.request_exit();
    assert!(c.exit);
    assert!(c.has_work());
    assert!(c.interrupt_requested());
}

#[test]
fn finish_order_clears_everything_but_exit() {
    let mut c = Coordinator::new();
    c.submit_order(2, 3);
    c.begin_processing();
    c.toggle_pause();
    c.request_cancel();
    c.request_exit();
    c.finish_order();
    assert!(c.order.is_none());
    assert!(!c.processing);
    assert!(!c.cancel);
    assert!(!c.pause);
    assert!(c.exit);
}

#[test]
fn cancel_is_false_once_processing_returns_to_false() {
    let mut c = Coordinator::new();
    c.submit_order(2, 3);
    c.begin_processing();
    c.request_cancel();
    assert!(c.cancel);
    c.finish_order();
    assert!(!c.cancel);
    assert!(!c.processing);
    assert!(c.order.is_none());
}
