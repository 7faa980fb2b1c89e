//! FIX protocol bridge: conversions from FIX fields into book values, and
//! the execution of NewOrderSingle, OrderCancelRequest and
//! OrderCancelReplaceRequest messages against an order book.
//!
//! A message reaches the bridge as a [`FixMessage`]: its fields in wire
//! order, each value held as text when it is valid UTF-8. `ClOrdID` maps to
//! an order id through FNV-1a, so the same client id always names the same
//! order and cancels and replaces can find it.

pub mod convert;
pub mod engine;
pub mod tags;

pub use convert::{fix_side, fix_time_in_force, price_to_ticks, FixConversionError, FixMsgType};

pub use engine::{apply_fix_message, FixBridgeError, FixField, FixMessage, FixOutcome};
