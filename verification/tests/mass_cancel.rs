//! Mass cancellation and expiry eviction.

use orderbook_rs::orderbook::book::OrderBook;
use orderbook_rs::orderbook::clock::StubClock;
use orderbook_rs::orderbook::mass_cancel::MassCancelResult;
use orderbook_rs::orderbook::types::{Side, TimeInForce};

fn expiring_book() -> OrderBook<StubClock> {
    OrderBook::with_clock("TEST", StubClock::starting_at(0))
}

#[test]
fn test_mass_cancel_result_default() {
    let result = MassCancelResult::default();
    assert_eq!(result.cancelled_count(), 0);
    assert!(result.cancelled_order_ids().is_empty());
    assert!(result.is_empty());
}

#[test]
fn test_mass_cancel_result_display() {
    let result = MassCancelResult::new(vec![1, 2, 3, 4, 5]);
    assert_eq!(result.to_text(), "MassCancelResult { cancelled: 5 }");
}

#[test]
fn test_cancel_all_empty_book() {
    let mut book = OrderBook::new("TEST");
    let result = book.cancel_all_orders();
    assert!(result.is_empty());
    assert_eq!(result.cancelled_count(), 0);
}

#[test]
fn test_cancel_all_with_orders() {
    let mut book = OrderBook::new("TEST");

    let id1 = 1u128;
    let id2 = 2u128;
    let id3 = 3u128;

    book.add_limit_order(id1, 100, 10, Side::Buy, TimeInForce::Gtc)
        .expect("add bid");
    book.add_limit_order(id2, 200, 5, Side::Sell, TimeInForce::Gtc)
        .expect("add ask");
    book.add_limit_order(id3, 95, 20, Side::Buy, TimeInForce::Gtc)
        .expect("add bid 2");

    let result = book.cancel_all_orders();
    assert_eq!(result.cancelled_count(), 3);
    assert_eq!(result.cancelled_order_ids().len(), 3);
    assert_eq!(book.best_bid(), None);
    assert_eq!(book.best_ask(), None);
}

#[test]
fn test_cancel_by_side_buy() {
    let mut book = OrderBook::new("TEST");

    book.add_limit_order(4u128, 100, 10, Side::Buy, TimeInForce::Gtc)
        .expect("add bid");
    book.add_limit_order(5u128, 95, 5, Side::Buy, TimeInForce::Gtc)
        .expect("add bid 2");
    book.add_limit_order(6u128, 200, 8, Side::Sell, TimeInForce::Gtc)
        .expect("add ask");

    let result = book.cancel_orders_by_side(Side::Buy);
    assert_eq!(result.cancelled_count(), 2);
    assert_eq!(book.best_bid(), None);
    assert_eq!(book.best_ask(), Some(200));
}

#[test]
fn test_cancel_by_side_sell() {
    let mut book = OrderBook::new("TEST");

    book.add_limit_order(7u128, 100, 10, Side::Buy, TimeInForce::Gtc)
        .expect("add bid");
    book.add_limit_order(8u128, 200, 8, Side::Sell, TimeInForce::Gtc)
        .expect("add ask");
    book.add_limit_order(9u128, 210, 3, Side::Sell, TimeInForce::Gtc)
        .expect("add ask 2");

    let result = book.cancel_orders_by_side(Side::Sell);
    assert_eq!(result.cancelled_count(), 2);
    assert_eq!(book.best_bid(), Some(100));
    assert_eq!(book.best_ask(), None);
}

#[test]
fn test_cancel_by_side_empty() {
    let mut book = OrderBook::new("TEST");

    book.add_limit_order(10u128, 100, 10, Side::Buy, TimeInForce::Gtc)
        .expect("add bid");

    let result = book.cancel_orders_by_side(Side::Sell);
    assert!(result.is_empty());
    assert_eq!(book.best_bid(), Some(100));
}

#[test]
fn test_cancel_by_user() {
    let mut book = OrderBook::new("TEST");

    let user_a = 1u128;
    let user_b = 2u128;

    let id_a1 = 11u128;
    let id_a2 = 12u128;
    let id_b1 = 13u128;

    book.add_limit_order_with_user(id_a1, 100, 10, Side::Buy, TimeInForce::Gtc, user_a)
        .expect("add a1");
    book.add_limit_order_with_user(id_a2, 200, 5, Side::Sell, TimeInForce::Gtc, user_a)
        .expect("add a2");
    book.add_limit_order_with_user(id_b1, 95, 20, Side::Buy, TimeInForce::Gtc, user_b)
        .expect("add b1");

    let result = book.cancel_orders_by_user(user_a);
    assert_eq!(result.cancelled_count(), 2);
    assert!(result.cancelled_order_ids().contains(&id_a1));
    assert!(result.cancelled_order_ids().contains(&id_a2));

    // user_b's order remains
    assert_eq!(book.best_bid(), Some(95));
    assert_eq!(book.best_ask(), None);
    assert_eq!(book.get_all_orders().len(), 1);
}

#[test]
fn test_cancel_by_user_no_match() {
    let mut book = OrderBook::new("TEST");

    let user_a = 1u128;
    let user_b = 2u128;

    book.add_limit_order_with_user(
        14u128,
        100,
        10,
        Side::Buy,
        TimeInForce::Gtc,
        user_a,
    )
    .expect("add a1");

    let result = book.cancel_orders_by_user(user_b);
    assert!(result.is_empty());
    assert_eq!(book.get_all_orders().len(), 1);
}

#[test]
fn test_cancel_by_price_range() {
    let mut book = OrderBook::new("TEST");

    let id1 = 15u128;
    let id2 = 16u128;
    let id3 = 17u128;

    book.add_limit_order(id1, 100, 10, Side::Buy, TimeInForce::Gtc)
        .expect("add 100");
    book.add_limit_order(id2, 200, 10, Side::Buy, TimeInForce::Gtc)
        .expect("add 200");
    book.add_limit_order(id3, 300, 10, Side::Buy, TimeInForce::Gtc)
        .expect("add 300");

    let result = book.cancel_orders_by_price_range(Side::Buy, 100, 200);
    assert_eq!(result.cancelled_count(), 2);
    assert!(result.cancelled_order_ids().contains(&id1));
    assert!(result.cancelled_order_ids().contains(&id2));
    assert_eq!(book.best_bid(), Some(300));
}

#[test]
fn test_cancel_by_price_range_inverted() {
    let mut book = OrderBook::new("TEST");

    book.add_limit_order(18u128, 100, 10, Side::Buy, TimeInForce::Gtc)
        .expect("add");

    // min > max → no cancellation
    let result = book.cancel_orders_by_price_range(Side::Buy, 200, 100);
    assert!(result.is_empty());
    assert_eq!(book.get_all_orders().len(), 1);
}

#[test]
fn test_cancel_by_price_range_no_match() {
    let mut book = OrderBook::new("TEST");

    book.add_limit_order(19u128, 100, 10, Side::Buy, TimeInForce::Gtc)
        .expect("add");

    let result = book.cancel_orders_by_price_range(Side::Buy, 200, 300);
    assert!(result.is_empty());
    assert_eq!(book.get_all_orders().len(), 1);
}

#[test]
fn test_cancel_by_price_range_exact_boundaries() {
    let mut book = OrderBook::new("TEST");

    let id1 = 20u128;
    let id2 = 21u128;

    book.add_limit_order(id1, 100, 10, Side::Sell, TimeInForce::Gtc)
        .expect("add 100");
    book.add_limit_order(id2, 200, 10, Side::Sell, TimeInForce::Gtc)
        .expect("add 200");

    // Exact single price
    let result = book.cancel_orders_by_price_range(Side::Sell, 100, 100);
    assert_eq!(result.cancelled_count(), 1);
    assert!(result.cancelled_order_ids().contains(&id1));
    assert_eq!(book.best_ask(), Some(200));
}

#[test]
fn test_cancel_all_with_iceberg_orders() {
    let mut book = OrderBook::new("TEST");

    let id1 = 22u128;
    let id2 = 23u128;

    book.add_iceberg_order(id1, 100, 5, 15, Side::Buy, TimeInForce::Gtc)
        .expect("add iceberg");
    book.add_limit_order(id2, 200, 10, Side::Sell, TimeInForce::Gtc)
        .expect("add limit");

    let result = book.cancel_all_orders();
    assert_eq!(result.cancelled_count(), 2);
    assert!(book.get_all_orders().is_empty());
}

#[test]
fn test_cancel_all_with_post_only_orders() {
    let mut book = OrderBook::new("TEST");

    let id1 = 24u128;
    let id2 = 25u128;

    book.add_post_only_order(id1, 100, 10, Side::Buy, TimeInForce::Gtc)
        .expect("add post-only");
    book.add_limit_order(id2, 200, 10, Side::Sell, TimeInForce::Gtc)
        .expect("add limit");

    let result = book.cancel_all_orders();
    assert_eq!(result.cancelled_count(), 2);
    assert!(book.get_all_orders().is_empty());
}

#[test]
fn test_cancel_by_user_multiple_levels() {
    let mut book = OrderBook::new("TEST");

    let user = 1u128;
    let other = 2u128;

    // User has orders at multiple price levels on both sides
    book.add_limit_order_with_user(
        26u128,
        100,
        10,
        Side::Buy,
        TimeInForce::Gtc,
        user,
    )
    .expect("add buy 100");
    book.add_limit_order_with_user(
        27u128,
        95,
        5,
        Side::Buy,
        TimeInForce::Gtc,
        user,
    )
    .expect("add buy 95");
    book.add_limit_order_with_user(
        28u128,
        200,
        8,
        Side::Sell,
        TimeInForce::Gtc,
        user,
    )
    .expect("add sell 200");
    book.add_limit_order_with_user(
        29u128,
        90,
        20,
        Side::Buy,
        TimeInForce::Gtc,
        other,
    )
    .expect("add other buy");

    let result = book.cancel_orders_by_user(user);
    assert_eq!(result.cancelled_count(), 3);
    // Only other user's order remains
    assert_eq!(book.get_all_orders().len(), 1);
    assert_eq!(book.best_bid(), Some(90));
    assert_eq!(book.best_ask(), None);
}

#[test]
fn test_cancel_by_price_range_multiple_orders_same_level() {
    let mut book = OrderBook::new("TEST");

    let id1 = 30u128;
    let id2 = 31u128;
    let id3 = 32u128;

    // Two orders at same price level
    book.add_limit_order(id1, 100, 10, Side::Buy, TimeInForce::Gtc)
        .expect("add 1");
    book.add_limit_order(id2, 100, 20, Side::Buy, TimeInForce::Gtc)
        .expect("add 2");
    book.add_limit_order(id3, 200, 5, Side::Buy, TimeInForce::Gtc)
        .expect("add 3");

    let result = book.cancel_orders_by_price_range(Side::Buy, 100, 100);
    assert_eq!(result.cancelled_count(), 2);
    assert_eq!(book.best_bid(), Some(200));
    assert!(book.get_orders_at_price(100, Side::Buy).is_empty());
}

#[test]
fn test_order_locations_cleaned_after_mass_cancel() {
    let mut book = OrderBook::new("TEST");

    let id1 = 33u128;
    let id2 = 34u128;

    book.add_limit_order(id1, 100, 10, Side::Buy, TimeInForce::Gtc)
        .expect("add 1");
    book.add_limit_order(id2, 200, 5, Side::Sell, TimeInForce::Gtc)
        .expect("add 2");

    assert!(book.get_order(id1).is_some());
    assert!(book.get_order(id2).is_some());

    let _ = book.cancel_all_orders();

    assert!(!book.get_order(id1).is_some());
    assert!(!book.get_order(id2).is_some());
    assert!(book.get_all_orders().is_empty());
}

#[test]
fn test_mass_cancel_result_is_must_use() {
    // This test ensures the struct compiles with #[must_use].
    // The compiler would warn if the result were ignored in real code.
    let mut book = OrderBook::new("TEST");
    let result = book.cancel_all_orders();
    assert!(result.is_empty());
}

#[test]
fn test_evict_expired_empty_book_returns_empty() {
    let mut book = expiring_book();
    assert!(
        book.evict_expired_orders(10_000)
            .is_empty()
    );
}

#[test]
fn test_evict_expired_gtd_removed_and_unmatchable() {
    let mut book = expiring_book();
    let gtd = 35u128;
    book.add_limit_order(gtd, 100, 10, Side::Buy, TimeInForce::Gtd(1_000))
        .expect("add gtd");

    // Before the deadline: untouched.
    assert!(book.evict_expired_orders(999).is_empty());
    assert_eq!(book.best_bid(), Some(100));

    // At the deadline (>=): evicted.
    let evicted = book.evict_expired_orders(1_000);
    assert_eq!(evicted.len(), 1);
    assert_eq!(evicted[0].id, gtd);
    assert_eq!(book.best_bid(), None);
    assert!(!book.get_order(gtd).is_some());

    // No longer matchable: a crossing sell finds no liquidity.
    let taker = 36u128;
    assert!(book.match_market_order(taker, 10, Side::Sell).is_err());
}

#[test]
fn test_evict_expired_leaves_gtc_and_unexpired_gtd_untouched() {
    let mut book = expiring_book();
    let gtc = 37u128;
    let gtd_future = 38u128;
    let gtd_past = 39u128;
    book.add_limit_order(gtc, 100, 10, Side::Buy, TimeInForce::Gtc)
        .expect("gtc");
    book.add_limit_order(gtd_future, 99, 5, Side::Buy, TimeInForce::Gtd(5_000))
        .expect("gtd future");
    book.add_limit_order(gtd_past, 98, 5, Side::Buy, TimeInForce::Gtd(1_000))
        .expect("gtd past");

    let evicted = book.evict_expired_orders(2_000);
    assert_eq!(evicted.len(), 1);
    assert_eq!(evicted[0].id, gtd_past);

    assert!(book.get_order(gtc).is_some());
    assert!(book.get_order(gtd_future).is_some());
    assert!(!book.get_order(gtd_past).is_some());
}

#[test]
fn test_evict_expired_boundary_matches_has_expired_semantics() {
    // is_expired is `now >= deadline`; has_expired delegates to the same
    // definition the sweep uses, so `deadline - 1` is not expired and
    // `deadline` is. The sweep must honour that exact boundary.
    let mut book = expiring_book();
    let id = 40u128;
    book.add_limit_order(id, 100, 10, Side::Sell, TimeInForce::Gtd(1_000))
        .expect("add");

    // 999 -> not expired.
    assert!(book.evict_expired_orders(999).is_empty());
    // Exactly at the deadline -> evicted.
    let evicted = book.evict_expired_orders(1_000);
    assert_eq!(evicted.len(), 1);
    assert_eq!(evicted[0].id, id);
}

#[test]
fn test_evict_expired_day_uses_market_close() {
    let mut book = expiring_book();
    book.set_market_close_timestamp(2_000);
    let day = 41u128;
    book.add_limit_order(day, 100, 10, Side::Buy, TimeInForce::Day)
        .expect("day");

    // Before close: untouched.
    assert!(
        book.evict_expired_orders(1_999)
            .is_empty()
    );
    // At/after close: evicted.
    let evicted = book.evict_expired_orders(2_000);
    assert_eq!(evicted.len(), 1);
    assert_eq!(evicted[0].id, day);
}

#[test]
fn test_evict_expired_deterministic_order_multiple_levels_sides() {
    let mut book = expiring_book();

    // Bids at two levels (ascending: 90 then 95), FIFO within each level.
    let b95a = 42u128;
    let b95b = 43u128;
    let b90 = 44u128;
    book.add_limit_order(b95a, 95, 1, Side::Buy, TimeInForce::Gtd(1_000))
        .expect("b95a");
    book.add_limit_order(b95b, 95, 1, Side::Buy, TimeInForce::Gtd(1_000))
        .expect("b95b");
    book.add_limit_order(b90, 90, 1, Side::Buy, TimeInForce::Gtd(1_000))
        .expect("b90");

    // Asks at two levels (ascending: 100 then 110).
    let a100 = 45u128;
    let a110 = 46u128;
    book.add_limit_order(a100, 100, 1, Side::Sell, TimeInForce::Gtd(1_000))
        .expect("a100");
    book.add_limit_order(a110, 110, 1, Side::Sell, TimeInForce::Gtd(1_000))
        .expect("a110");

    let evicted = book.evict_expired_orders(2_000);
    let ids: Vec<u128> = evicted.iter().map(|o| o.id).collect();

    // Contract: bids ascending (90, then 95 FIFO), then asks ascending.
    assert_eq!(ids, vec![b90, b95a, b95b, a100, a110]);
}

#[test]
fn test_evict_expired_second_sweep_is_idempotent() {
    let mut book = expiring_book();
    let id = 47u128;
    book.add_limit_order(id, 100, 10, Side::Buy, TimeInForce::Gtd(1_000))
        .expect("add");

    let first = book.evict_expired_orders(1_000);
    assert_eq!(first.len(), 1);
    let second = book.evict_expired_orders(1_000);
    assert!(second.is_empty());
}

