//! Level scans bounded by price.

use orderbook_rs::orderbook::book::OrderBook;
use orderbook_rs::orderbook::clock::StubClock;
use orderbook_rs::orderbook::types::{Side, TimeInForce};

fn book_of(side: Side, prices: std::ops::RangeInclusive<u128>) -> OrderBook<StubClock> {
    let mut b = OrderBook::with_clock("TEST", StubClock::starting_at(1));
    for p in prices {
        b.add_limit_order(p, p, 1, side, TimeInForce::Gtc).unwrap();
    }
    b
}

#[test]
fn test_levels_in_range_terminates_at_far_edge_sell() {
    let b = book_of(Side::Sell, 1..=1000);
    let prices: Vec<u128> = b.levels_in_range(10, 12, Side::Sell).iter().map(|l| l.price).collect();
    assert_eq!(prices, vec![10, 11, 12], "only in-band levels are yielded");
}

#[test]
fn test_levels_in_range_terminates_at_far_edge_buy() {
    let b = book_of(Side::Buy, 1..=1000);
    let prices: Vec<u128> = b.levels_in_range(988, 990, Side::Buy).iter().map(|l| l.price).collect();
    assert_eq!(prices, vec![990, 989, 988], "descending in-band yield");
}

#[test]
fn test_levels_in_range_empty_when_band_outside_book() {
    let b = book_of(Side::Sell, 1..=10);
    let got: Vec<u128> = b.levels_in_range(100, 200, Side::Sell).iter().map(|l| l.price).collect();
    assert!(got.is_empty());
}
