//! Operational metric hooks. The book is built without a metrics backend,
//! so recording is a no-op that callers may invoke unconditionally.

use crate::orderbook::reject_reason::RejectReason;
use vstd::prelude::*;

verus! {

/// Counter name for rejected orders, labelled by reason.
pub const REJECTS_TOTAL: &'static str = "orderbook_rejects_total";

/// Gauge name for the number of bid levels.
pub const DEPTH_LEVELS_BID: &'static str = "orderbook_depth_levels_bid";

/// Gauge name for the number of ask levels.
pub const DEPTH_LEVELS_ASK: &'static str = "orderbook_depth_levels_ask";

/// Counter name for executed trades.
pub const TRADES_TOTAL: &'static str = "orderbook_trades_total";

/// Record a rejection (no backend: nothing is recorded).
pub fn record_reject(_reason: RejectReason) {
}

/// Record the level counts of both sides (no backend: nothing is recorded).
pub fn record_depth(_bid_levels: u64, _ask_levels: u64) {
}

/// Record `n` executed trades (no backend: nothing is recorded).
pub fn record_trades(_n: u64) {
}

} // verus!
