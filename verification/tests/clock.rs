//! Timestamp sources.

use orderbook_rs::orderbook::clock::{Clock, MonotonicClock, StubClock};

#[test]
fn test_monotonic_clock_returns_nonzero_ms() {
    let mut clock = MonotonicClock;
    let ts = clock.now_millis();
    assert!(ts > 0, "wall-clock must be after the epoch");
}

#[test]
fn test_stub_clock_starts_at_zero_and_advances_by_one() {
    let mut clock = StubClock::new();
    assert_eq!(clock.now_millis(), 0);
    assert_eq!(clock.now_millis(), 1);
    assert_eq!(clock.now_millis(), 2);
}

#[test]
fn test_stub_clock_with_step() {
    let mut clock = StubClock::with_step(100, 5);
    assert_eq!(clock.now_millis(), 100);
    assert_eq!(clock.now_millis(), 105);
    assert_eq!(clock.now_millis(), 110);
}

#[test]
fn test_stub_clock_peek_does_not_advance() {
    let mut clock = StubClock::starting_at(42);
    assert_eq!(clock.peek(), 42);
    assert_eq!(clock.peek(), 42);
    let first = clock.now_millis();
    assert_eq!(first, 42);
    assert_eq!(clock.peek(), 43);
}

#[test]
fn stub_clock_wraps_at_the_top() {
    let mut clock = StubClock::with_step(u64::MAX, 2);
    assert_eq!(clock.tick(), u64::MAX);
    assert_eq!(clock.peek(), 1);
}

#[test]
fn stub_clock_default_matches_new() {
    let clock = StubClock::default();
    assert_eq!(clock.peek(), 0);
}
