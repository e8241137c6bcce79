use dispenser::counter::{decimal_string, parse_u64, Counter, CounterState};

#[test]
fn fresh_counter_shows_zero() {
    let c = CounterState::default();
    assert_eq!(c.count(), 0);
    assert_eq!(c.text().as_str(), "0");
}

#[test]
fn set_count_rewrites_the_text() {
    let mut c = CounterState::default();
    c.set_count(123);
    assert_eq!(c.count(), 123);
    assert_eq!(c.text().as_str(), "123");
}

#[test]
fn increment_steps_and_saturates() {
    let mut c = CounterState::default();
    c.increment();
    assert_eq!(c.count(), 1);
    assert_eq!(c.text().as_str(), "1");
    c.set_count(u64::MAX);
    c.increment();
    assert_eq!(c.count(), u64::MAX);
    assert_eq!(c.text().as_str(), "18446744073709551615");
}

#[test]
fn decrement_steps_and_stops_at_zero() {
    let mut c = CounterState::default();
    c.set_count(5);
    c.decrement();
    assert_eq!(c.count(), 4);
    assert_eq!(c.text().as_str(), "4");
    c.set_count(0);
    c.decrement();
    assert_eq!(c.count(), 0);
    assert_eq!(c.text().as_str(), "0");
}

#[test]
fn committing_a_number_adopts_it() {
    let mut c = CounterState::default();
    c.set_text("42".to_string());
    c.commit_text();
    assert_eq!(c.count(), 42);
    assert_eq!(c.text().as_str(), "42");
}

#[test]
fn committing_garbage_keeps_the_count() {
    let mut c = CounterState::default();
    c.set_count(7);
    c.set_text("abc".to_string());
    c.commit_text();
    assert_eq!(c.count(), 7);
    assert_eq!(c.text().as_str(), "7");
}

#[test]
fn committing_an_overflowing_number_keeps_the_count() {
    let mut c = CounterState::default();
    c.set_count(7);
    c.set_text("99999999999999999999999".to_string());
    c.commit_text();
    assert_eq!(c.count(), 7);
    assert_eq!(c.text().as_str(), "7");
}

#[test]
fn committing_normalizes_leading_zeroes() {
    let mut c = CounterState::default();
    c.set_text("007".to_string());
    c.commit_text();
    assert_eq!(c.count(), 7);
    assert_eq!(c.text().as_str(), "7");
}

#[test]
fn parses_decimal_strings() {
    assert_eq!(parse_u64("0"), Some(0));
    assert_eq!(parse_u64("007"), Some(7));
    assert_eq!(parse_u64("18446744073709551615"), Some(u64::MAX));
    assert_eq!(parse_u64("18446744073709551616"), None);
    assert_eq!(parse_u64(""), None);
    assert_eq!(parse_u64("1a2"), None);
    assert_eq!(parse_u64("-1"), None);
}

#[test]
fn writes_decimal_strings() {
    assert_eq!(decimal_string(0).as_str(), "0");
    assert_eq!(decimal_string(10).as_str(), "10");
    assert_eq!(decimal_string(90210).as_str(), "90210");
    assert_eq!(decimal_string(u64::MAX).as_str(), "18446744073709551615");
}

#[test]
fn counter_builder_carries_the_header() {
    let mut state = CounterState::default();
    let widget = Counter::new(&mut state).with_header("RED");
    assert_eq!(widget.header, Some("RED"));
    widget.state.increment();
    assert_eq!(state.count(), 1);
}

#[test]
fn counter_builder_without_header() {
    let mut state = CounterState::default();
    let widget = Counter::new(&mut state);
    assert!(widget.header.is_none());
}
