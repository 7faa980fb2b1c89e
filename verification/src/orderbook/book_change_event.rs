//! Price-level change events emitted by the order book.

use crate::orderbook::types::Side;
use vstd::prelude::*;

verus! {

/// A price level whose visible quantity changed: emitted when an add,
/// cancel, update or match touches the level.
///
/// `engine_seq` orders the event among all events of one book; decoders of
/// older payloads that lack it use `0`.
#[derive(Debug, Clone, Copy, PartialEq, Eq)]
pub struct PriceLevelChangedEvent {
    /// The side of the level.
    pub side: Side,
    /// The level's price.
    pub price: u128,
    /// The level's visible quantity after the change.
    pub quantity: u64,
    /// The event's engine sequence number.
    pub engine_seq: u64,
}

} // verus!
