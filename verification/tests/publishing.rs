//! Publishing decisions: subjects, constants, backoff and flush batches.

use orderbook_rs::orderbook::book_change_event::PriceLevelChangedEvent;
use orderbook_rs::orderbook::publishing::{
    all_trades_subject, ask_subject, backoff_after_failure, batch_is_full, bid_subject, changes_subject,
    max_publish_attempts, plan_book_change_flush, retry_delay_ms, throttle_wait_ms, trade_sequences, trade_subject,
    BatchStream, BookChangeEntry, BASE_RETRY_DELAY_MS, DEFAULT_BATCH_WINDOW_MS, DEFAULT_CHANNEL_CAPACITY,
    DEFAULT_MAX_BATCH_SIZE, DEFAULT_MAX_RETRIES, DEFAULT_MIN_PUBLISH_INTERVAL_MS,
};
use orderbook_rs::orderbook::types::Side;

#[test]
fn test_subject_formatting() {
    let prefix = "trades";
    let symbol = "BTC/USD";
    assert_eq!(trade_subject(prefix, symbol), "trades.BTC/USD");
    assert_eq!(all_trades_subject(prefix), "trades.all");
}

#[test]
fn nats_test_subject_formatting_with_custom_prefix() {
    let prefix = "orderbook.events.trades";
    let symbol = "ETH-PERP";
    assert_eq!(trade_subject(prefix, symbol), "orderbook.events.trades.ETH-PERP");
    assert_eq!(all_trades_subject(prefix), "orderbook.events.trades.all");
}

#[test]
fn test_precomputed_all_subject_matches_format() {
    let prefix = "trades";
    let precomputed = all_trades_subject(prefix);
    assert_eq!(precomputed, "trades.all");
}

#[test]
fn test_default_max_retries() {
    assert_eq!(DEFAULT_MAX_RETRIES, 3);
}

#[test]
fn test_base_retry_delay() {
    assert_eq!(BASE_RETRY_DELAY_MS, 10);
}

#[test]
fn test_default_batch_constants() {
    assert_eq!(DEFAULT_BATCH_WINDOW_MS, 1);
    assert_eq!(DEFAULT_MAX_BATCH_SIZE, 100);
    assert_eq!(DEFAULT_CHANNEL_CAPACITY, 10_000);
    assert_eq!(DEFAULT_MIN_PUBLISH_INTERVAL_MS, 0);
}

#[test]
fn nats_test_exponential_backoff_calculation() {
    for attempt in 0u32..4 {
        let delay = retry_delay_ms(attempt);
        let expected = BASE_RETRY_DELAY_MS * 2u64.pow(attempt);
        assert_eq!(delay, expected);
    }
}

#[test]
fn nats_test_exponential_backoff_high_retry_count_does_not_panic() {
    for attempt in [63u32, 64, 100, u32::MAX] {
        let delay = retry_delay_ms(attempt);
        assert!(delay >= BASE_RETRY_DELAY_MS);
    }
}

#[test]
fn test_subject_formatting_changes() {
    let prefix = "book";
    let symbol = "BTC/USD";
    assert_eq!(changes_subject(prefix, symbol), "book.BTC/USD.changes");
    assert_eq!(bid_subject(prefix, symbol), "book.BTC/USD.bid");
    assert_eq!(ask_subject(prefix, symbol), "book.BTC/USD.ask");
}

#[test]
fn nats_book_change_test_subject_formatting_with_custom_prefix() {
    let prefix = "orderbook.events";
    let symbol = "ETH-PERP";
    assert_eq!(changes_subject(prefix, symbol), "orderbook.events.ETH-PERP.changes");
    assert_eq!(bid_subject(prefix, symbol), "orderbook.events.ETH-PERP.bid");
    assert_eq!(ask_subject(prefix, symbol), "orderbook.events.ETH-PERP.ask");
}

#[test]
fn test_default_constants() {
    assert_eq!(DEFAULT_BATCH_WINDOW_MS, 1);
    assert_eq!(DEFAULT_MAX_BATCH_SIZE, 100);
    assert_eq!(DEFAULT_CHANNEL_CAPACITY, 10_000);
    assert_eq!(DEFAULT_MAX_RETRIES, 3);
    assert_eq!(BASE_RETRY_DELAY_MS, 10);
    assert_eq!(DEFAULT_MIN_PUBLISH_INTERVAL_MS, 0);
}

#[test]
fn nats_book_change_test_exponential_backoff_calculation() {
    for attempt in 0u32..4 {
        let delay = retry_delay_ms(attempt);
        let expected = BASE_RETRY_DELAY_MS * 2u64.pow(attempt);
        assert_eq!(delay, expected);
    }
}

#[test]
fn nats_book_change_test_exponential_backoff_high_retry_count_does_not_panic() {
    for attempt in [63u32, 64, 100, u32::MAX] {
        let delay = retry_delay_ms(attempt);
        assert!(delay >= BASE_RETRY_DELAY_MS);
    }
}

#[test]
fn backoff_saturates_and_stops_after_the_last_attempt() {
    // 10 * 2^63 does not fit in u64.
    assert_eq!(retry_delay_ms(63), u64::MAX);
    assert_eq!(retry_delay_ms(10), 10_240);
    assert_eq!(max_publish_attempts(3), 4);
    assert_eq!(max_publish_attempts(u32::MAX), u32::MAX);
    assert_eq!(backoff_after_failure(0, 4), Some(10));
    assert_eq!(backoff_after_failure(2, 4), Some(40));
    assert_eq!(backoff_after_failure(3, 4), None);
}

#[test]
fn throttle_and_batch_full() {
    assert_eq!(throttle_wait_ms(3, 10), 7);
    assert_eq!(throttle_wait_ms(12, 10), 0);
    assert_eq!(throttle_wait_ms(0, 0), 0);
    assert!(batch_is_full(100, 100));
    assert!(!batch_is_full(99, 100));
}

#[test]
fn each_trade_publish_gets_its_own_sequence() {
    assert_eq!(trade_sequences(7), (7, 8, 9));
    assert_eq!(trade_sequences(u64::MAX), (u64::MAX, 0, 1));
}

#[test]
fn test_engine_seq_default_zero_via_struct_literal() {
    let event = PriceLevelChangedEvent { side: Side::Sell, price: 1, quantity: 1, engine_seq: 0 };
    assert_eq!(event.engine_seq, 0);
}

#[test]
fn test_book_change_entry_from_event() {
    let event = PriceLevelChangedEvent { side: Side::Buy, price: 50_000, quantity: 100, engine_seq: 0 };
    let entry = BookChangeEntry::from_event(event);
    assert_eq!(entry.side, Side::Buy);
    assert_eq!(entry.price, 50_000);
    assert_eq!(entry.quantity, 100);
}

fn entry(side: Side, price: u128, quantity: u64) -> BookChangeEntry {
    BookChangeEntry { side, price, quantity }
}

#[test]
fn flush_plan_splits_by_side_with_consecutive_sequences() {
    let changes = vec![entry(Side::Buy, 100, 5), entry(Side::Sell, 110, 7), entry(Side::Buy, 99, 1)];
    let plan = plan_book_change_flush("BTC/USD", 42, 1_700_000_000_000, changes);
    assert_eq!(plan.batches.len(), 3);
    assert_eq!(plan.next_sequence, 45);
    let (s0, b0) = &plan.batches[0];
    assert_eq!(*s0, BatchStream::Changes);
    assert_eq!(b0.sequence, 42);
    assert_eq!(b0.event_count, 3);
    assert_eq!(b0.symbol, "BTC/USD");
    assert_eq!(b0.timestamp_ms, 1_700_000_000_000);
    let (s1, b1) = &plan.batches[1];
    assert_eq!(*s1, BatchStream::Bid);
    assert_eq!(b1.sequence, 43);
    assert_eq!(b1.changes, vec![entry(Side::Buy, 100, 5), entry(Side::Buy, 99, 1)]);
    let (s2, b2) = &plan.batches[2];
    assert_eq!(*s2, BatchStream::Ask);
    assert_eq!(b2.sequence, 44);
    assert_eq!(b2.event_count, 1);
}

#[test]
fn flush_plan_of_one_side_and_of_nothing() {
    let plan = plan_book_change_flush("X", 0, 5, vec![entry(Side::Sell, 1, 1)]);
    assert_eq!(plan.batches.len(), 2);
    assert_eq!(plan.batches[1].0, BatchStream::Ask);
    assert_eq!(plan.batches[1].1.sequence, 1);
    assert_eq!(plan.next_sequence, 2);
    let empty = plan_book_change_flush("X", 9, 5, Vec::new());
    assert!(empty.batches.is_empty());
    assert_eq!(empty.next_sequence, 9);
}
