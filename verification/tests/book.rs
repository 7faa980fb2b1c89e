//! Order book scenarios: admission, matching, modification, self-trade
//! prevention, analytics and statistics on concrete books.

use orderbook_rs::orderbook::book::{OrderBook, OrderUpdate};
use orderbook_rs::orderbook::clock::StubClock;
use orderbook_rs::orderbook::error::OrderBookError;
use orderbook_rs::orderbook::types::{Order, OrderKind, STPMode, Side, TimeInForce};
use orderbook_rs::orderbook::order_state::{CancelReason, OrderStateTracker, OrderStatus};
use orderbook_rs::orderbook::reject_reason::RejectReason;

fn book() -> OrderBook<StubClock> {
    OrderBook::with_clock("TEST", StubClock::starting_at(1))
}

fn limit(id: u128, price: u128, quantity: u64, side: Side) -> Order {
    Order { id, price, side, user_id: 0, timestamp: 0, time_in_force: TimeInForce::Gtc, kind: OrderKind::Standard { quantity } }
}

#[test]
fn resting_orders_set_best_prices_and_spread() {
    let mut b = book();
    b.add_limit_order(1, 100, 10, Side::Buy, TimeInForce::Gtc).unwrap();
    b.add_limit_order(2, 98, 10, Side::Buy, TimeInForce::Gtc).unwrap();
    b.add_limit_order(3, 105, 10, Side::Sell, TimeInForce::Gtc).unwrap();
    assert_eq!(b.best_bid(), Some(100));
    assert_eq!(b.best_ask(), Some(105));
    assert_eq!(b.spread(), Some(5));
    assert_eq!(b.last_trade_price(), None);
}

#[test]
fn market_order_sweeps_in_price_then_time_priority() {
    let mut b = book();
    b.add_limit_order(1, 101, 5, Side::Sell, TimeInForce::Gtc).unwrap();
    b.add_limit_order(2, 100, 5, Side::Sell, TimeInForce::Gtc).unwrap();
    b.add_limit_order(3, 100, 5, Side::Sell, TimeInForce::Gtc).unwrap();
    let m = b.match_market_order(9, 12, Side::Buy).unwrap();
    let got: Vec<(u128, u128, u64)> = m.trades.iter().map(|t| (t.maker_order_id, t.price, t.quantity)).collect();
    assert_eq!(got, vec![(2, 100, 5), (3, 100, 5), (1, 101, 2)]);
    assert_eq!(m.remaining_quantity, 0);
    assert_eq!(m.filled_order_ids, vec![2, 3]);
    assert_eq!(b.best_ask(), Some(101));
    assert_eq!(b.last_trade_price(), Some(101));
    // Quantity is conserved: fills plus remainder equal the request.
    let filled: u64 = m.trades.iter().map(|t| t.quantity).sum();
    assert_eq!(filled + m.remaining_quantity, 12);
}

#[test]
fn market_order_on_empty_book_is_insufficient_liquidity() {
    let mut b = book();
    assert_eq!(
        b.match_market_order(1, 10, Side::Buy),
        Err(OrderBookError::InsufficientLiquidity { side: Side::Buy, requested: 10, available: 0 })
    );
}

#[test]
fn limit_match_stops_at_the_limit() {
    let mut b = book();
    b.add_limit_order(1, 100, 5, Side::Sell, TimeInForce::Gtc).unwrap();
    b.add_limit_order(2, 102, 5, Side::Sell, TimeInForce::Gtc).unwrap();
    let m = b.match_limit_order(9, 10, Side::Buy, 101).unwrap();
    assert_eq!(m.remaining_quantity, 5);
    assert!(m.trades.iter().all(|t| t.price <= 101));
    assert_eq!(b.best_ask(), Some(102));
}

#[test]
fn crossing_limit_order_trades_then_rests_its_remainder() {
    let mut b = book();
    b.add_limit_order(1, 100, 4, Side::Sell, TimeInForce::Gtc).unwrap();
    let (rest, mr) = b.add_limit_order_with_result(2, 101, 10, Side::Buy, TimeInForce::Gtc).unwrap();
    let mr = mr.expect("a match");
    assert_eq!(mr.trades.len(), 1);
    assert_eq!(mr.remaining_quantity, 6);
    assert_eq!(rest.kind, OrderKind::Standard { quantity: 6 });
    assert_eq!(b.best_bid(), Some(101));
    assert_eq!(b.best_ask(), None);
}

#[test]
fn immediate_orders_never_rest() {
    let mut b = book();
    b.add_limit_order(1, 100, 4, Side::Sell, TimeInForce::Gtc).unwrap();
    let ioc = b.add_limit_order(2, 100, 10, Side::Buy, TimeInForce::Ioc);
    assert!(matches!(ioc, Err(OrderBookError::InsufficientLiquidity { .. })));
    assert_eq!(b.best_bid(), None);
    // Fill-or-kill that cannot be filled is refused and changes nothing.
    b.add_limit_order(3, 100, 4, Side::Sell, TimeInForce::Gtc).unwrap();
    assert!(b.add_limit_order(4, 100, 10, Side::Buy, TimeInForce::Fok).is_err());
    assert_eq!(b.best_ask(), Some(100));
    // One that can be filled fills completely.
    let (_, mr) = b.add_limit_order_with_result(5, 100, 4, Side::Buy, TimeInForce::Fok).unwrap();
    assert_eq!(mr.unwrap().remaining_quantity, 0);
    assert_eq!(b.best_bid(), None);
    assert_eq!(b.best_ask(), None);
}

#[test]
fn post_only_never_trades() {
    let mut b = book();
    b.add_limit_order(1, 100, 4, Side::Sell, TimeInForce::Gtc).unwrap();
    assert!(matches!(
        b.add_post_only_order(2, 100, 1, Side::Buy, TimeInForce::Gtc),
        Err(OrderBookError::PriceCrossing { .. })
    ));
    b.add_post_only_order(3, 99, 1, Side::Buy, TimeInForce::Gtc).unwrap();
    assert_eq!(b.best_bid(), Some(99));
    assert_eq!(b.best_ask(), Some(100));
}

#[test]
fn duplicate_ids_are_refused() {
    let mut b = book();
    b.add_limit_order(1, 100, 4, Side::Buy, TimeInForce::Gtc).unwrap();
    assert_eq!(
        b.add_limit_order(1, 90, 4, Side::Buy, TimeInForce::Gtc),
        Err(OrderBookError::DuplicateOrderId { order_id: 1 })
    );
}

#[test]
fn tick_lot_and_size_rules() {
    let mut b = book();
    b.set_tick_size(5);
    b.set_lot_size(10);
    b.set_min_order_size(10);
    b.set_max_order_size(100);
    assert_eq!(
        b.add_limit_order(1, 101, 10, Side::Buy, TimeInForce::Gtc),
        Err(OrderBookError::InvalidTickSize { price: 101, tick_size: 5 })
    );
    assert_eq!(
        b.add_limit_order(2, 100, 15, Side::Buy, TimeInForce::Gtc),
        Err(OrderBookError::InvalidLotSize { quantity: 15, lot_size: 10 })
    );
    assert!(matches!(
        b.add_limit_order(3, 100, 110, Side::Buy, TimeInForce::Gtc),
        Err(OrderBookError::OrderSizeOutOfRange { .. })
    ));
    assert!(b.add_limit_order(4, 100, 20, Side::Buy, TimeInForce::Gtc).is_ok());
}

#[test]
fn cancel_removes_only_its_order_and_twice_is_harmless() {
    let mut b = book();
    b.add_limit_order(1, 100, 4, Side::Buy, TimeInForce::Gtc).unwrap();
    b.add_limit_order(2, 100, 4, Side::Buy, TimeInForce::Gtc).unwrap();
    let gone = b.cancel_order(1).unwrap();
    assert_eq!(gone.map(|o| o.id), Some(1));
    assert!(b.get_order(1).is_none());
    assert!(b.get_order(2).is_some());
    assert_eq!(b.cancel_order(1).unwrap(), None);
    assert!(b.get_order(2).is_some());
}

#[test]
fn updates_resize_move_and_cancel() {
    let mut b = book();
    b.add_limit_order(1, 100, 10, Side::Buy, TimeInForce::Gtc).unwrap();
    let r = b.update_order(OrderUpdate::UpdateQuantity { order_id: 1, new_quantity: 3 }).unwrap();
    assert_eq!(r.map(|o| o.kind), Some(OrderKind::Standard { quantity: 3 }));
    b.update_order(OrderUpdate::UpdatePrice { order_id: 1, new_price: 97 }).unwrap();
    assert_eq!(b.best_bid(), Some(97));
    b.update_order(OrderUpdate::Cancel { order_id: 1 }).unwrap();
    assert_eq!(b.best_bid(), None);
    assert_eq!(b.update_order(OrderUpdate::UpdatePrice { order_id: 1, new_price: 90 }).unwrap(), None);
}

#[test]
fn self_trade_prevention_cancels_the_taker() {
    let mut b = book();
    b.set_stp_mode(STPMode::CancelTaker);
    b.add_limit_order_with_user(1, 100, 5, Side::Sell, TimeInForce::Gtc, 7).unwrap();
    assert!(matches!(
        b.add_limit_order_with_user(2, 100, 5, Side::Buy, TimeInForce::Gtc, 7),
        Err(OrderBookError::SelfTradePrevented { .. })
    ));
    assert_eq!(b.best_ask(), Some(100));
    assert!(matches!(
        b.add_limit_order(3, 100, 5, Side::Buy, TimeInForce::Gtc),
        Err(OrderBookError::MissingUserId { order_id: 3 })
    ));
}

#[test]
fn self_trade_prevention_cancels_the_maker() {
    let mut b = book();
    b.set_stp_mode(STPMode::CancelMaker);
    b.add_limit_order_with_user(1, 100, 5, Side::Sell, TimeInForce::Gtc, 7).unwrap();
    b.add_limit_order_with_user(2, 100, 5, Side::Sell, TimeInForce::Gtc, 8).unwrap();
    let m = b.match_market_order_with_user(9, 5, Side::Buy, 7).unwrap();
    assert_eq!(m.trades.len(), 1);
    assert_eq!(m.trades[0].maker_order_id, 2);
    assert!(b.get_order(1).is_none());
}

#[test]
fn iceberg_shows_its_visible_tranche() {
    let mut b = book();
    b.add_iceberg_order(1, 100, 5, 15, Side::Sell, TimeInForce::Gtc).unwrap();
    let levels = b.levels_with_cumulative_depth(Side::Sell);
    assert_eq!(levels.len(), 1);
    assert_eq!(levels[0].quantity, 20);
    let m = b.match_market_order(9, 7, Side::Buy).unwrap();
    assert_eq!(m.remaining_quantity, 0);
}

#[test]
fn add_order_accepts_a_built_order() {
    let mut b = book();
    let o = limit(42, 100, 3, Side::Buy);
    let rested = b.add_order(o).unwrap();
    assert_eq!(rested.id, 42);
    assert_eq!(b.get_all_orders().len(), 1);
}

#[test]
fn notional_market_order_spends_at_most_the_amount() {
    let mut b = book();
    b.add_limit_order(1, 10, 5, Side::Sell, TimeInForce::Gtc).unwrap();
    b.add_limit_order(2, 20, 5, Side::Sell, TimeInForce::Gtc).unwrap();
    let m = b.submit_market_order_by_amount(9, 95, Side::Buy).unwrap();
    let spent: u128 = m.trades.iter().map(|t| t.price * t.quantity as u128).sum();
    assert!(spent <= 95);
    assert_eq!(spent, 90);
}

#[test]
fn batch_matches_run_in_turn() {
    let mut b = book();
    b.add_limit_order(1, 100, 5, Side::Sell, TimeInForce::Gtc).unwrap();
    let rs = b.match_orders_batch(&vec![(8, Side::Buy, 3, None), (9, Side::Buy, 3, None), (10, Side::Buy, 3, None)]);
    assert_eq!(rs.len(), 3);
    assert_eq!(rs[0].as_ref().unwrap().remaining_quantity, 0);
    assert_eq!(rs[1].as_ref().unwrap().remaining_quantity, 1);
    assert!(rs[2].is_err());
}

#[test]
fn depth_analytics() {
    let mut b = book();
    b.add_limit_order(1, 100, 10, Side::Buy, TimeInForce::Gtc).unwrap();
    b.add_limit_order(2, 99, 20, Side::Buy, TimeInForce::Gtc).unwrap();
    b.add_limit_order(3, 98, 30, Side::Buy, TimeInForce::Gtc).unwrap();
    assert_eq!(b.total_depth_at_levels(2, Side::Buy), 30);
    assert_eq!(b.price_at_depth(25, Side::Buy), Some(99));
    assert_eq!(b.cumulative_depth_to_target(25, Side::Buy), Some((99, 30)));
    assert_eq!(b.liquidity_in_range(98, 99, Side::Buy), 50);
    assert_eq!(b.peek_match(Side::Sell, 35, None), 35);
    assert_eq!(b.peek_match(Side::Sell, 35, Some(100)), 10);
    let until = b.levels_until_depth(25, Side::Buy);
    assert_eq!(until.len(), 2);
    assert_eq!(until[1].cumulative_depth, 30);
    let band = b.levels_in_range(98, 99, Side::Buy);
    assert_eq!(band.iter().map(|l| l.price).collect::<Vec<_>>(), vec![99, 98]);
}

#[test]
fn depth_distribution_bins_levels_by_price() {
    let mut b = book();
    b.add_limit_order(1, 100, 10, Side::Sell, TimeInForce::Gtc).unwrap();
    b.add_limit_order(2, 104, 20, Side::Sell, TimeInForce::Gtc).unwrap();
    b.add_limit_order(3, 110, 30, Side::Sell, TimeInForce::Gtc).unwrap();
    let bins = b.depth_distribution(Side::Sell, 2);
    assert_eq!(bins.len(), 2);
    assert_eq!((bins[0].min_price, bins[0].max_price, bins[0].volume, bins[0].level_count), (100, 105, 30, 2));
    assert_eq!((bins[1].min_price, bins[1].max_price, bins[1].volume, bins[1].level_count), (105, 111, 30, 1));
    assert!(b.depth_distribution(Side::Sell, 0).is_empty());
    assert!(b.depth_distribution(Side::Buy, 3).is_empty());
}

#[test]
fn depth_totals_and_vwap() {
    let mut b = book();
    b.add_limit_order(1, 100, 10, Side::Sell, TimeInForce::Gtc).unwrap();
    b.add_limit_order(2, 110, 30, Side::Sell, TimeInForce::Gtc).unwrap();
    let t = b.depth_totals(Side::Sell, 0);
    assert_eq!(t.total_volume, 40);
    assert_eq!(t.levels_count, 2);
    assert_eq!(t.weighted_price_sum, 100 * 10 + 110 * 30);
    assert_eq!((t.min_level_size, t.max_level_size), (10, 30));
    assert_eq!(t.level_sizes, vec![10, 30]);
    let one = b.depth_totals(Side::Sell, 1);
    assert_eq!(one.levels_count, 1);
    assert_eq!(b.depth_totals(Side::Buy, 0).total_volume, 0);
    assert_eq!(b.vwap_totals(20, Side::Buy), Some((100 * 10 + 110 * 10, 20)));
    assert_eq!(b.vwap_totals(50, Side::Buy), None);
    assert_eq!(b.vwap_totals(0, Side::Buy), None);
    assert_eq!(b.best_level_depth(Side::Sell), Some((100, 10)));
    let (bids, asks) = b.get_volume_by_price();
    assert!(bids.is_empty());
    assert_eq!(asks, vec![(100, 10), (110, 30)]);
}

#[test]
fn level_copies_in_book_and_price_order() {
    let mut b = book();
    b.add_limit_order(1, 100, 10, Side::Buy, TimeInForce::Gtc).unwrap();
    b.add_limit_order(2, 90, 10, Side::Buy, TimeInForce::Gtc).unwrap();
    let best_first: Vec<u128> = b.get_bids().iter().map(|l| l.price).collect();
    let ascending: Vec<u128> = b.get_bt_bids().iter().map(|l| l.price).collect();
    assert_eq!(best_first, vec![100, 90]);
    assert_eq!(ascending, vec![90, 100]);
    assert!(b.get_asks().is_empty());
    assert!(b.get_bt_asks().is_empty());
}

#[test]
fn market_impact_and_simulation() {
    let mut b = book();
    b.add_limit_order(1, 100, 10, Side::Sell, TimeInForce::Gtc).unwrap();
    b.add_limit_order(2, 105, 10, Side::Sell, TimeInForce::Gtc).unwrap();
    let sim = b.simulate_market_order(15, Side::Buy);
    assert_eq!(sim.total_filled, 15);
    assert_eq!(sim.remaining_quantity, 0);
    assert_eq!(sim.total_cost, 100 * 10 + 105 * 5);
    assert_eq!(sim.fills, vec![(100, 10), (105, 5)]);
    let impact = b.market_impact(15, Side::Buy);
    assert_eq!(impact.worst_price, 105);
    assert_eq!(impact.levels_consumed, 2);
}

#[test]
fn queue_positions() {
    let mut b = book();
    b.add_limit_order(1, 100, 10, Side::Buy, TimeInForce::Gtc).unwrap();
    b.add_limit_order(2, 100, 10, Side::Buy, TimeInForce::Gtc).unwrap();
    b.add_limit_order(3, 99, 10, Side::Buy, TimeInForce::Gtc).unwrap();
    assert_eq!(b.queue_ahead_at_price(100, Side::Buy), 2);
    assert_eq!(b.price_for_queue_position(2, Side::Buy), Some(99));
    assert_eq!(b.get_orders_at_price(100, Side::Buy).len(), 2);
    assert_eq!(b.buy_sell_pressure(), (30, 0));
    assert!(b.is_thin_book(100, 5));
}

#[test]
fn constructors_with_tick_lot_and_stp() {
    let mut t = OrderBook::with_tick_size("BTC/USD", 100);
    assert_eq!(t.tick_size(), Some(100));
    assert!(t.add_limit_order(1, 200, 1, Side::Buy, TimeInForce::Gtc).is_ok());
    assert_eq!(
        t.add_limit_order(2, 150, 1, Side::Buy, TimeInForce::Gtc),
        Err(OrderBookError::InvalidTickSize { price: 150, tick_size: 100 })
    );
    let mut l = OrderBook::with_lot_size("BTC/USD", 10);
    assert_eq!(l.lot_size(), Some(10));
    assert_eq!(
        l.add_limit_order(1, 100, 15, Side::Buy, TimeInForce::Gtc),
        Err(OrderBookError::InvalidLotSize { quantity: 15, lot_size: 10 })
    );
    let s = OrderBook::with_stp_mode("BTC/USD", STPMode::CancelTaker);
    assert_eq!(s.stp_mode(), STPMode::CancelTaker);
    assert_eq!(s.tick_size(), None);
}

#[test]
fn spread_absolute_matches_spread() {
    let mut b = book();
    assert_eq!(b.spread_absolute(), None);
    b.add_limit_order(1, 100, 10, Side::Buy, TimeInForce::Gtc).unwrap();
    b.add_limit_order(2, 105, 10, Side::Sell, TimeInForce::Gtc).unwrap();
    assert_eq!(b.spread_absolute(), Some(5));
}

#[test]
fn find_level_returns_first_match_in_price_priority() {
    let mut b = book();
    b.add_limit_order(1, 100, 5, Side::Buy, TimeInForce::Gtc).unwrap();
    b.add_limit_order(2, 99, 20, Side::Buy, TimeInForce::Gtc).unwrap();
    b.add_limit_order(3, 98, 30, Side::Buy, TimeInForce::Gtc).unwrap();
    let big = b.find_level(Side::Buy, |info| info.quantity > 10).unwrap();
    assert_eq!((big.price, big.quantity, big.cumulative_depth), (99, 20, 25));
    let deep = b.find_level(Side::Buy, |info| info.cumulative_depth > 30).unwrap();
    assert_eq!(deep.price, 98);
    assert_eq!(b.find_level(Side::Buy, |info| info.quantity > 100), None);
    assert_eq!(b.find_level(Side::Sell, |_| true), None);
}

#[test]
fn trailing_stops_trigger_on_the_right_side_of_the_stop() {
    let b = book();
    let mut stop = limit(1, 95, 10, Side::Sell);
    stop.kind = OrderKind::TrailingStop { quantity: 10, trail_amount: 5, last_reference_price: 100 };
    assert!(b.should_trigger_trailing_stop(&stop, 95));
    assert!(b.should_trigger_trailing_stop(&stop, 90));
    assert!(!b.should_trigger_trailing_stop(&stop, 96));
    stop.side = Side::Buy;
    assert!(b.should_trigger_trailing_stop(&stop, 95));
    assert!(!b.should_trigger_trailing_stop(&stop, 94));
    // A plain limit order is never a trailing stop.
    assert!(!b.should_trigger_trailing_stop(&limit(2, 95, 10, Side::Sell), 1));
}

#[test]
fn cancel_right_after_add_gives_back_the_book() {
    let mut b = book();
    b.add_limit_order(1, 100, 5, Side::Buy, TimeInForce::Gtc).unwrap();
    b.add_limit_order(2, 99, 7, Side::Buy, TimeInForce::Gtc).unwrap();
    b.add_limit_order(3, 105, 4, Side::Sell, TimeInForce::Gtc).unwrap();
    let bids = b.levels_with_cumulative_depth(Side::Buy);
    let asks = b.levels_with_cumulative_depth(Side::Sell);
    // Joins an existing level, then leaves it.
    b.add_post_only_order(10, 100, 3, Side::Buy, TimeInForce::Gtc).unwrap();
    assert_ne!(b.levels_with_cumulative_depth(Side::Buy), bids);
    b.cancel_order(10).unwrap();
    assert_eq!(b.levels_with_cumulative_depth(Side::Buy), bids);
    // Opens a new level, then leaves it.
    b.add_limit_order(11, 101, 3, Side::Buy, TimeInForce::Gtc).unwrap();
    b.cancel_order(11).unwrap();
    assert_eq!(b.levels_with_cumulative_depth(Side::Buy), bids);
    assert_eq!(b.levels_with_cumulative_depth(Side::Sell), asks);
}

#[test]
fn depth_distribution_puts_each_level_in_the_bin_holding_its_price() {
    let mut b = book();
    b.add_limit_order(1, 100, 10, Side::Buy, TimeInForce::Gtc).unwrap();
    b.add_limit_order(2, 101, 10, Side::Buy, TimeInForce::Gtc).unwrap();
    let d = b.depth_distribution(Side::Buy, 5);
    assert_eq!(d.len(), 5);
    assert_eq!((d[0].min_price, d[0].max_price, d[0].volume, d[0].level_count), (100, 101, 10, 1));
    assert_eq!((d[1].min_price, d[1].max_price, d[1].volume, d[1].level_count), (101, 102, 10, 1));
    assert_eq!(d.iter().map(|x| x.volume).sum::<u64>(), 20);
    assert_eq!(d[4].volume, 0);
}

#[test]
fn kill_switch_halts_new_flow_but_not_cancels() {
    let mut b = book();
    b.add_limit_order(1, 100, 10, Side::Buy, TimeInForce::Gtc).unwrap();
    b.add_limit_order(2, 101, 10, Side::Buy, TimeInForce::Gtc).unwrap();
    b.add_limit_order(3, 105, 10, Side::Sell, TimeInForce::Gtc).unwrap();
    assert!(!b.is_kill_switch_engaged());
    b.engage_kill_switch();
    assert!(b.is_kill_switch_engaged());
    assert_eq!(b.add_limit_order(4, 99, 1, Side::Buy, TimeInForce::Gtc), Err(OrderBookError::KillSwitchActive));
    assert_eq!(
        b.update_order(OrderUpdate::UpdatePrice { order_id: 1, new_price: 98 }),
        Err(OrderBookError::KillSwitchActive)
    );
    assert_eq!(
        b.update_order(OrderUpdate::UpdateQuantity { order_id: 1, new_quantity: 0 }),
        Err(OrderBookError::KillSwitchActive)
    );
    assert_eq!(b.submit_market_order(5, 1, Side::Buy), Err(OrderBookError::KillSwitchActive));
    assert_eq!(b.best_ask(), Some(105));
    assert!(b.update_order(OrderUpdate::Cancel { order_id: 1 }).unwrap().is_some());
    assert!(b.cancel_order(2).unwrap().is_some());
    assert_eq!(b.best_bid(), None);
    b.release_kill_switch();
    assert!(b.add_limit_order(4, 99, 1, Side::Buy, TimeInForce::Gtc).is_ok());
}

#[test]
fn tracker_records_lifecycle_of_book_orders() {
    let mut b = book();
    b.set_order_state_tracker(OrderStateTracker::new());
    b.add_limit_order(1, 100, 10, Side::Buy, TimeInForce::Gtc).unwrap();
    assert_eq!(b.order_status(1), Some(OrderStatus::Open));
    // Resize to zero cancels on request.
    let gone = b.update_order(OrderUpdate::UpdateQuantity { order_id: 1, new_quantity: 0 }).unwrap().unwrap();
    assert_eq!(gone.kind, OrderKind::Standard { quantity: 10 });
    assert_eq!(b.get_order(1), None);
    assert_eq!(b.best_bid(), None);
    assert_eq!(
        b.order_status(1),
        Some(OrderStatus::Cancelled { filled_quantity: 0, reason: CancelReason::UserRequested })
    );
    // A taker that trades part and rests the rest.
    b.add_limit_order(2, 100, 4, Side::Sell, TimeInForce::Gtc).unwrap();
    b.add_limit_order(3, 100, 10, Side::Buy, TimeInForce::Gtc).unwrap();
    assert_eq!(b.order_status(3), Some(OrderStatus::PartiallyFilled { original_quantity: 10, filled_quantity: 4 }));
    // A taker that fills completely.
    b.add_limit_order(4, 100, 6, Side::Sell, TimeInForce::Gtc).unwrap();
    assert_eq!(b.order_status(4), Some(OrderStatus::Filled { filled_quantity: 6 }));
    // The resting order it consumed is recorded as filled by this match.
    assert_eq!(b.order_status(3), Some(OrderStatus::Filled { filled_quantity: 6 }));
    assert_eq!(b.order_status(2), Some(OrderStatus::Filled { filled_quantity: 4 }));
    // A refused order.
    b.set_tick_size(5);
    assert!(b.add_limit_order(5, 101, 1, Side::Buy, TimeInForce::Gtc).is_err());
    assert_eq!(b.order_status(5), Some(OrderStatus::Rejected { reason: RejectReason::InvalidPrice }));
    // A mass cancel records its reason.
    b.add_limit_order(6, 95, 1, Side::Buy, TimeInForce::Gtc).unwrap();
    b.cancel_all_orders();
    assert_eq!(
        b.order_status(6),
        Some(OrderStatus::Cancelled { filled_quantity: 0, reason: CancelReason::MassCancelAll })
    );
    // A kill-switch refusal of a new order is recorded; of a modify it is not.
    b.add_limit_order(7, 90, 1, Side::Buy, TimeInForce::Gtc).unwrap();
    b.engage_kill_switch();
    assert_eq!(b.add_limit_order(8, 90, 1, Side::Buy, TimeInForce::Gtc), Err(OrderBookError::KillSwitchActive));
    assert_eq!(b.order_status(8), Some(OrderStatus::Rejected { reason: RejectReason::KillSwitchActive }));
    assert!(b.update_order(OrderUpdate::UpdatePrice { order_id: 7, new_price: 85 }).is_err());
    assert_eq!(b.order_status(7), Some(OrderStatus::Open));
}

#[test]
fn notional_match_never_spends_more_than_the_amount() {
    let mut b = book();
    b.add_limit_order(1, 100, 5, Side::Sell, TimeInForce::Gtc).unwrap();
    b.add_limit_order(2, 110, 5, Side::Sell, TimeInForce::Gtc).unwrap();
    let m = b.submit_market_order_by_amount(9, 1_000, Side::Buy).unwrap();
    let spent: u128 = m.trades.iter().map(|t| t.price * t.quantity as u128).sum();
    assert_eq!(m.remaining_quantity, 0);
    assert!(spent <= 1_000);
    assert_eq!(spent, 5 * 100 + 4 * 110);
}

#[test]
fn cancel_with_reason_records_that_reason_and_a_second_cancel_finds_nothing() {
    let mut b = book();
    b.set_order_state_tracker(OrderStateTracker::new());
    b.add_limit_order(1, 100, 10, Side::Buy, TimeInForce::Gtc).unwrap();
    let gone = b.cancel_order_with_reason(1, CancelReason::MassCancelByUser).unwrap();
    assert_eq!(gone.map(|o| o.id), Some(1));
    assert_eq!(
        b.order_status(1),
        Some(OrderStatus::Cancelled { filled_quantity: 0, reason: CancelReason::MassCancelByUser })
    );
    assert_eq!(b.cancel_order_with_reason(1, CancelReason::UserRequested), Ok(None));
    assert_eq!(
        b.order_status(1),
        Some(OrderStatus::Cancelled { filled_quantity: 0, reason: CancelReason::MassCancelByUser })
    );
}

#[test]
fn depth_distribution_is_empty_when_every_level_sits_at_the_top_price() {
    let mut b = book();
    b.add_limit_order(1, u128::MAX, 10, Side::Sell, TimeInForce::Gtc).unwrap();
    assert!(b.depth_distribution(Side::Sell, 3).is_empty());
}
