//! Order book error types and their human-readable text.

use crate::orderbook::text::{decimal_chars, push_decimal, push_str};
use crate::orderbook::types::{side_text, stp_text, STPMode, Side};
use vstd::prelude::*;

verus! {

/// Errors the order book reports.
#[derive(Debug, Clone, PartialEq, Eq)]
pub enum OrderBookError {
    /// The order was not found.
    OrderNotFound(String),
    /// The price level is invalid.
    InvalidPriceLevel(u128),
    /// A post-only order would cross the opposite side.
    PriceCrossing { price: u128, side: Side, opposite_price: u128 },
    /// Not enough crossable quantity.
    InsufficientLiquidity { side: Side, requested: u64, available: u64 },
    /// A quote-notional market order found nothing to spend on.
    InsufficientLiquidityNotional { side: Side, requested: u128, spent: u128 },
    /// The operation is not allowed.
    InvalidOperation { message: String },
    /// New order entry is halted.
    KillSwitchActive,
    /// Serialisation failed.
    SerializationError { message: String },
    /// Deserialisation failed.
    DeserializationError { message: String },
    /// Publishing an event to NATS failed.
    NatsPublishError { message: String },
    /// Serialising an event for NATS failed.
    NatsSerializationError { message: String },
    /// A checksum did not match.
    ChecksumMismatch { expected: String, actual: String },
    /// The price is not a multiple of the tick size.
    InvalidTickSize { price: u128, tick_size: u128 },
    /// A quantity is not a multiple of the lot size.
    InvalidLotSize { quantity: u64, lot_size: u64 },
    /// The total quantity is outside the configured range.
    OrderSizeOutOfRange { quantity: u64, min: Option<u64>, max: Option<u64> },
    /// Self-trade prevention is on and the order carries no user id.
    MissingUserId { order_id: u128 },
    /// Self-trade prevention cancelled the incoming order.
    SelfTradePrevented { mode: STPMode, taker_order_id: u128, user_id: u128 },
    /// `visible + hidden` of a two-tranche order overflows `u64`.
    QuantityOverflow { visible: u64, hidden: u64 },
    /// A non-replenishing reserve that displays nothing.
    ZeroVisibleTranche { order_id: u128, hidden_quantity: u64 },
    /// An order with this id already rests on the book.
    DuplicateOrderId { order_id: u128 },
    /// A modify would discard a non-replenishing reserve's hidden remainder.
    ReserveResidualWouldBeDiscarded {
        order_id: u128,
        visible_quantity: u64,
        crossable_quantity: u64,
        hidden_quantity: u64,
        discarded_quantity: u64,
    },
}

/// Debug text of an optional bound: `Some(n)` or `None`.
pub open spec fn option_text(v: Option<u64>) -> Seq<char> {
    match v {
        Some(n) => "Some("@ + decimal_chars(n as nat) + ")"@,
        None => "None"@,
    }
}

/// Decimal text of an integer.
pub open spec fn dec(x: int) -> Seq<char> {
    decimal_chars(x as nat)
}

/// The human-readable text of an error.
pub open spec fn error_text(e: OrderBookError) -> Seq<char> {
    match e {
        OrderBookError::OrderNotFound(id) => "Order not found: "@ + id@,
        OrderBookError::InvalidPriceLevel(price) => "Invalid price level: "@ + dec(price as int),
        OrderBookError::PriceCrossing { price, side, opposite_price } => "Price crossing: "@
            + side_text(side) + " "@ + dec(price as int) + " would cross opposite at "@ + dec(
            opposite_price as int,
        ),
        OrderBookError::InsufficientLiquidity { side, requested, available } =>
            "Insufficient liquidity for "@ + side_text(side) + " order: requested "@ + dec(
            requested as int,
        ) + ", available "@ + dec(available as int),
        OrderBookError::InsufficientLiquidityNotional { side, requested, spent } =>
            "Insufficient liquidity for "@ + side_text(side) + " notional order: requested "@
            + dec(requested as int) + ", spent "@ + dec(spent as int),
        OrderBookError::InvalidOperation { message } => "Invalid operation: "@ + message@,
        OrderBookError::KillSwitchActive => "kill switch active: new order entry is halted"@,
        OrderBookError::SerializationError { message } => "Serialization error: "@ + message@,
        OrderBookError::DeserializationError { message } => "Deserialization error: "@ + message@,
        OrderBookError::NatsPublishError { message } => "nats publish error: "@ + message@,
        OrderBookError::NatsSerializationError { message } => "nats serialization error: "@ + message@,
        OrderBookError::ChecksumMismatch { expected, actual } => "Checksum mismatch: expected "@
            + expected@ + ", but computed "@ + actual@,
        OrderBookError::InvalidTickSize { price, tick_size } => "invalid tick size: price "@ + dec(
            price as int,
        ) + " is not a multiple of tick size "@ + dec(tick_size as int),
        OrderBookError::InvalidLotSize { quantity, lot_size } => "invalid lot size: quantity "@
            + dec(quantity as int) + " is not a multiple of lot size "@ + dec(lot_size as int),
        OrderBookError::OrderSizeOutOfRange { quantity, min, max } =>
            "order size out of range: quantity "@ + dec(quantity as int) + ", min "@ + option_text(
            min,
        ) + ", max "@ + option_text(max),
        OrderBookError::MissingUserId { order_id } => "missing user_id: order "@ + dec(
            order_id as int,
        ) + " rejected because STP is enabled and user_id is zero"@,
        OrderBookError::SelfTradePrevented { mode, taker_order_id, user_id } =>
            "self-trade prevented ("@ + stp_text(mode) + "): taker "@ + dec(taker_order_id as int)
            + ", user "@ + dec(user_id as int),
        OrderBookError::QuantityOverflow { visible, hidden } => "quantity overflow: visible "@
            + dec(visible as int) + " + hidden "@ + dec(hidden as int) + " exceeds u64"@,
        OrderBookError::ZeroVisibleTranche { order_id, hidden_quantity } =>
            "zero visible tranche: order "@ + dec(order_id as int) + " displays nothing with "@
            + dec(hidden_quantity as int) + " hidden and no auto-replenishment"@,
        OrderBookError::DuplicateOrderId { order_id } => "duplicate order id: "@ + dec(
            order_id as int,
        ),
        OrderBookError::ReserveResidualWouldBeDiscarded {
            order_id,
            visible_quantity,
            crossable_quantity,
            hidden_quantity,
            discarded_quantity,
        } => "reserve residual would be discarded: order "@ + dec(order_id as int)
            + ", visible "@ + dec(visible_quantity as int) + ", crossable "@ + dec(
            crossable_quantity as int,
        ) + ", hidden "@ + dec(hidden_quantity as int) + ", discarded "@ + dec(
            discarded_quantity as int,
        ),
    }
}

fn push_option(out: &mut String, v: Option<u64>)
    ensures
        final(out)@ == old(out)@ + option_text(v),
{
    match v {
        Some(n) => {
            push_str(out, "Some(");
            push_decimal(out, n as u128);
            push_str(out, ")");
        },
        None => push_str(out, "None"),
    }
}

impl OrderBookError {
    /// Append the human-readable text of this error to `out`.
    #[verifier::rlimit(40)]
    pub fn write_text(&self, out: &mut String)
        ensures
            final(out)@ =~= old(out)@ + error_text(*self),
    {
        match self {
            OrderBookError::OrderNotFound(id) => {
                push_str(out, "Order not found: ");
                push_str(out, id.as_str());
            },
            OrderBookError::InvalidPriceLevel(price) => {
                push_str(out, "Invalid price level: ");
                push_decimal(out, *price);
            },
            OrderBookError::PriceCrossing { price, side, opposite_price } => {
                push_str(out, "Price crossing: ");
                side.write_text(out);
                push_str(out, " ");
                push_decimal(out, *price);
                push_str(out, " would cross opposite at ");
                push_decimal(out, *opposite_price);
            },
            OrderBookError::InsufficientLiquidity { side, requested, available } => {
                push_str(out, "Insufficient liquidity for ");
                side.write_text(out);
                push_str(out, " order: requested ");
                push_decimal(out, *requested as u128);
                push_str(out, ", available ");
                push_decimal(out, *available as u128);
            },
            OrderBookError::InsufficientLiquidityNotional { side, requested, spent } => {
                push_str(out, "Insufficient liquidity for ");
                side.write_text(out);
                push_str(out, " notional order: requested ");
                push_decimal(out, *requested);
                push_str(out, ", spent ");
                push_decimal(out, *spent);
            },
            OrderBookError::InvalidOperation { message } => {
                push_str(out, "Invalid operation: ");
                push_str(out, message.as_str());
            },
            OrderBookError::KillSwitchActive => {
                push_str(out, "kill switch active: new order entry is halted");
            },
            OrderBookError::SerializationError { message } => {
                push_str(out, "Serialization error: ");
                push_str(out, message.as_str());
            },
            OrderBookError::DeserializationError { message } => {
                push_str(out, "Deserialization error: ");
                push_str(out, message.as_str());
            },
            OrderBookError::NatsPublishError { message } => {
                push_str(out, "nats publish error: ");
                push_str(out, message.as_str());
            },
            OrderBookError::NatsSerializationError { message } => {
                push_str(out, "nats serialization error: ");
                push_str(out, message.as_str());
            },
            OrderBookError::ChecksumMismatch { expected, actual } => {
                push_str(out, "Checksum mismatch: expected ");
                push_str(out, expected.as_str());
                push_str(out, ", but computed ");
                push_str(out, actual.as_str());
            },
            OrderBookError::InvalidTickSize { price, tick_size } => {
                push_str(out, "invalid tick size: price ");
                push_decimal(out, *price);
                push_str(out, " is not a multiple of tick size ");
                push_decimal(out, *tick_size);
            },
            OrderBookError::InvalidLotSize { quantity, lot_size } => {
                push_str(out, "invalid lot size: quantity ");
                push_decimal(out, *quantity as u128);
                push_str(out, " is not a multiple of lot size ");
                push_decimal(out, *lot_size as u128);
            },
            OrderBookError::OrderSizeOutOfRange { quantity, min, max } => {
                push_str(out, "order size out of range: quantity ");
                push_decimal(out, *quantity as u128);
                push_str(out, ", min ");
                push_option(out, *min);
                push_str(out, ", max ");
                push_option(out, *max);
            },
            OrderBookError::MissingUserId { order_id } => {
                push_str(out, "missing user_id: order ");
                push_decimal(out, *order_id);
                push_str(out, " rejected because STP is enabled and user_id is zero");
            },
            OrderBookError::SelfTradePrevented { mode, taker_order_id, user_id } => {
                push_str(out, "self-trade prevented (");
                mode.write_text(out);
                push_str(out, "): taker ");
                push_decimal(out, *taker_order_id);
                push_str(out, ", user ");
                push_decimal(out, *user_id);
            },
            OrderBookError::QuantityOverflow { visible, hidden } => {
                push_str(out, "quantity overflow: visible ");
                push_decimal(out, *visible as u128);
                push_str(out, " + hidden ");
                push_decimal(out, *hidden as u128);
                push_str(out, " exceeds u64");
            },
            OrderBookError::ZeroVisibleTranche { order_id, hidden_quantity } => {
                push_str(out, "zero visible tranche: order ");
                push_decimal(out, *order_id);
                push_str(out, " displays nothing with ");
                push_decimal(out, *hidden_quantity as u128);
                push_str(out, " hidden and no auto-replenishment");
            },
            OrderBookError::DuplicateOrderId { order_id } => {
                push_str(out, "duplicate order id: ");
                push_decimal(out, *order_id);
            },
            OrderBookError::ReserveResidualWouldBeDiscarded {
                order_id,
                visible_quantity,
                crossable_quantity,
                hidden_quantity,
                discarded_quantity,
            } => {
                push_str(out, "reserve residual would be discarded: order ");
                push_decimal(out, *order_id);
                push_str(out, ", visible ");
                push_decimal(out, *visible_quantity as u128);
                push_str(out, ", crossable ");
                push_decimal(out, *crossable_quantity as u128);
                push_str(out, ", hidden ");
                push_decimal(out, *hidden_quantity as u128);
                push_str(out, ", discarded ");
                push_decimal(out, *discarded_quantity as u128);
            },
        }
    }

    /// The human-readable text of this error.
    pub fn to_text(&self) -> (s: String)
        ensures
            s@ == error_text(*self),
    {
        let mut s = String::new();
        self.write_text(&mut s);
        assert(s@ =~= error_text(*self));
        s
    }
}

/// Errors of the book manager.
#[derive(Debug, Clone, Copy, PartialEq, Eq)]
pub enum ManagerError {
    /// The trade processor was already started.
    ProcessorAlreadyStarted,
}

impl ManagerError {
    /// The human-readable text of this error.
    pub fn to_text(&self) -> (s: String)
        ensures
            s@ == "trade processor already started"@,
    {
        let mut s = String::new();
        push_str(&mut s, "trade processor already started");
        assert(s@ =~= "trade processor already started"@);
        s
    }
}

} // verus!
