//! A verified limit order book: price-time priority matching, fee schedules,
//! order lifecycle tracking and a FIX bridge.

pub mod fix;
pub mod orderbook;

pub use orderbook::fees::{FeeOverflow, FeeSchedule};
