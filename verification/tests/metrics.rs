//! The metric helpers and their names.

use orderbook_rs::orderbook::metrics::{
    record_depth, record_reject, record_trades, DEPTH_LEVELS_ASK, DEPTH_LEVELS_BID, REJECTS_TOTAL, TRADES_TOTAL,
};
use orderbook_rs::orderbook::reject_reason::RejectReason;

#[test]
fn helpers_are_callable_unconditionally() {
    record_reject(RejectReason::KillSwitchActive);
    record_reject(RejectReason::Other(7777));
    record_depth(0, 0);
    record_depth(3, 5);
    record_trades(0);
    record_trades(4);
}

#[test]
fn metric_names_are_stable() {
    assert_eq!(REJECTS_TOTAL, "orderbook_rejects_total");
    assert_eq!(DEPTH_LEVELS_BID, "orderbook_depth_levels_bid");
    assert_eq!(DEPTH_LEVELS_ASK, "orderbook_depth_levels_ask");
    assert_eq!(TRADES_TOTAL, "orderbook_trades_total");
}
