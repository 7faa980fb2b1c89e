//! Closed taxonomy of order-rejection reasons exposed on the wire.
//!
//! Each named variant carries a stable numeric code; `Other(code)` carries a
//! caller-supplied code verbatim. Values `>= 1000` are reserved for callers.

use crate::orderbook::error::OrderBookError;
use crate::orderbook::text::push_str;
use vstd::prelude::*;

verus! {

/// Reasons an order may be rejected at admission.
#[derive(Debug, Clone, Copy, PartialEq, Eq, Hash)]
pub enum RejectReason {
    /// New flow rejected because the operational kill switch is engaged.
    KillSwitchActive,
    /// Per-account open-order limit would be breached.
    RiskMaxOpenOrders,
    /// Per-account notional limit would be breached.
    RiskMaxNotional,
    /// Submitted price exceeds the configured price band.
    RiskPriceBand,
    /// Post-only order would cross the resting opposite side.
    PostOnlyWouldCross,
    /// Self-trade prevention rejected the incoming order.
    SelfTradePrevention,
    /// Submitted price violates the tick-size validation.
    InvalidPrice,
    /// Submitted quantity violates the lot-size validation.
    InvalidQuantity,
    /// The targeted price level is invalid for the operation.
    InvalidPriceLevel,
    /// Submitted quantity is outside the configured min/max range.
    OrderSizeOutOfRange,
    /// `user_id` is missing or zero while STP is enabled.
    MissingUserId,
    /// An order with the same id is already present in the book.
    DuplicateOrderId,
    /// The order could not be filled with the available resting depth.
    InsufficientLiquidity,
    /// Caller-supplied code; the library never emits this variant itself.
    Other(u16),
}

/// The stable wire code of each reason.
pub open spec fn reject_code(r: RejectReason) -> u16 {
    match r {
        RejectReason::KillSwitchActive => 1,
        RejectReason::RiskMaxOpenOrders => 2,
        RejectReason::RiskMaxNotional => 3,
        RejectReason::RiskPriceBand => 4,
        RejectReason::PostOnlyWouldCross => 5,
        RejectReason::SelfTradePrevention => 6,
        RejectReason::InvalidPrice => 7,
        RejectReason::InvalidQuantity => 8,
        RejectReason::InvalidPriceLevel => 9,
        RejectReason::OrderSizeOutOfRange => 10,
        RejectReason::MissingUserId => 11,
        RejectReason::DuplicateOrderId => 12,
        RejectReason::InsufficientLiquidity => 13,
        RejectReason::Other(code) => code,
    }
}

/// The human-readable label of each named reason (`Other` excluded).
pub open spec fn reject_label(r: RejectReason) -> Seq<char> {
    match r {
        RejectReason::KillSwitchActive => "kill switch active"@,
        RejectReason::RiskMaxOpenOrders => "risk: max open orders"@,
        RejectReason::RiskMaxNotional => "risk: max notional"@,
        RejectReason::RiskPriceBand => "risk: price band"@,
        RejectReason::PostOnlyWouldCross => "post-only would cross"@,
        RejectReason::SelfTradePrevention => "self-trade prevention"@,
        RejectReason::InvalidPrice => "invalid price"@,
        RejectReason::InvalidQuantity => "invalid quantity"@,
        RejectReason::InvalidPriceLevel => "invalid price level"@,
        RejectReason::OrderSizeOutOfRange => "order size out of range"@,
        RejectReason::MissingUserId => "missing user id"@,
        RejectReason::DuplicateOrderId => "duplicate order id"@,
        RejectReason::InsufficientLiquidity => "insufficient liquidity"@,
        RejectReason::Other(_) => "other("@,
    }
}

/// The full text of a reason: its label, or `other(<code>)`.
pub open spec fn reject_text(r: RejectReason) -> Seq<char> {
    match r {
        RejectReason::Other(code) => "other("@ + crate::orderbook::text::decimal_chars(code as nat)
            + ")"@,
        _ => reject_label(r),
    }
}

/// The reason a book error is reported under: the named reason of a
/// rejection the taxonomy names, `Other(0)` for internal errors.
pub open spec fn reason_of_error(e: OrderBookError) -> RejectReason {
    match e {
        OrderBookError::KillSwitchActive => RejectReason::KillSwitchActive,
        OrderBookError::SelfTradePrevented { .. } => RejectReason::SelfTradePrevention,
        OrderBookError::InvalidPriceLevel(_) => RejectReason::InvalidPriceLevel,
        OrderBookError::PriceCrossing { .. } => RejectReason::PostOnlyWouldCross,
        OrderBookError::InsufficientLiquidity { .. } => RejectReason::InsufficientLiquidity,
        OrderBookError::InsufficientLiquidityNotional { .. } => RejectReason::InsufficientLiquidity,
        OrderBookError::InvalidTickSize { .. } => RejectReason::InvalidPrice,
        OrderBookError::InvalidLotSize { .. } => RejectReason::InvalidQuantity,
        OrderBookError::QuantityOverflow { .. } => RejectReason::InvalidQuantity,
        OrderBookError::ZeroVisibleTranche { .. } => RejectReason::InvalidQuantity,
        OrderBookError::OrderSizeOutOfRange { .. } => RejectReason::OrderSizeOutOfRange,
        OrderBookError::MissingUserId { .. } => RejectReason::MissingUserId,
        OrderBookError::DuplicateOrderId { .. } => RejectReason::DuplicateOrderId,
        _ => RejectReason::Other(0),
    }
}

impl<'a> From<&'a OrderBookError> for RejectReason {
    fn from(e: &'a OrderBookError) -> (r: RejectReason) {
        match e {
            OrderBookError::KillSwitchActive => RejectReason::KillSwitchActive,
            OrderBookError::SelfTradePrevented { .. } => RejectReason::SelfTradePrevention,
            OrderBookError::InvalidPriceLevel(_) => RejectReason::InvalidPriceLevel,
            OrderBookError::PriceCrossing { .. } => RejectReason::PostOnlyWouldCross,
            OrderBookError::InsufficientLiquidity { .. } => RejectReason::InsufficientLiquidity,
            OrderBookError::InsufficientLiquidityNotional { .. } => RejectReason::InsufficientLiquidity,
            OrderBookError::InvalidTickSize { .. } => RejectReason::InvalidPrice,
            OrderBookError::InvalidLotSize { .. } => RejectReason::InvalidQuantity,
            OrderBookError::QuantityOverflow { .. } => RejectReason::InvalidQuantity,
            OrderBookError::ZeroVisibleTranche { .. } => RejectReason::InvalidQuantity,
            OrderBookError::OrderSizeOutOfRange { .. } => RejectReason::OrderSizeOutOfRange,
            OrderBookError::MissingUserId { .. } => RejectReason::MissingUserId,
            OrderBookError::DuplicateOrderId { .. } => RejectReason::DuplicateOrderId,
            _ => RejectReason::Other(0),
        }
    }
}

impl<'a> vstd::std_specs::convert::FromSpecImpl<&'a OrderBookError> for RejectReason {
    open spec fn obeys_from_spec() -> bool {
        true
    }

    open spec fn from_spec(e: &'a OrderBookError) -> RejectReason {
        reason_of_error(*e)
    }
}

impl RejectReason {
    /// The reason a book error is reported under.
    pub fn from_error(e: &OrderBookError) -> (r: RejectReason)
        ensures
            r == reason_of_error(*e),
    {
        RejectReason::from(e)
    }
}

impl RejectReason {
    /// Numeric wire code: the fixed code of a named variant, or the wrapped
    /// caller code of `Other`.
    pub fn as_u16(self) -> (r: u16)
        ensures
            r == reject_code(self),
    {
        match self {
            RejectReason::KillSwitchActive => 1,
            RejectReason::RiskMaxOpenOrders => 2,
            RejectReason::RiskMaxNotional => 3,
            RejectReason::RiskPriceBand => 4,
            RejectReason::PostOnlyWouldCross => 5,
            RejectReason::SelfTradePrevention => 6,
            RejectReason::InvalidPrice => 7,
            RejectReason::InvalidQuantity => 8,
            RejectReason::InvalidPriceLevel => 9,
            RejectReason::OrderSizeOutOfRange => 10,
            RejectReason::MissingUserId => 11,
            RejectReason::DuplicateOrderId => 12,
            RejectReason::InsufficientLiquidity => 13,
            RejectReason::Other(code) => code,
        }
    }

    /// Append the human-readable text of this reason to `out`.
    pub fn write_text(self, out: &mut String)
        ensures
            final(out)@ == old(out)@ + reject_text(self),
    {
        match self {
            RejectReason::KillSwitchActive => push_str(out, "kill switch active"),
            RejectReason::RiskMaxOpenOrders => push_str(out, "risk: max open orders"),
            RejectReason::RiskMaxNotional => push_str(out, "risk: max notional"),
            RejectReason::RiskPriceBand => push_str(out, "risk: price band"),
            RejectReason::PostOnlyWouldCross => push_str(out, "post-only would cross"),
            RejectReason::SelfTradePrevention => push_str(out, "self-trade prevention"),
            RejectReason::InvalidPrice => push_str(out, "invalid price"),
            RejectReason::InvalidQuantity => push_str(out, "invalid quantity"),
            RejectReason::InvalidPriceLevel => push_str(out, "invalid price level"),
            RejectReason::OrderSizeOutOfRange => push_str(out, "order size out of range"),
            RejectReason::MissingUserId => push_str(out, "missing user id"),
            RejectReason::DuplicateOrderId => push_str(out, "duplicate order id"),
            RejectReason::InsufficientLiquidity => push_str(out, "insufficient liquidity"),
            RejectReason::Other(code) => {
                push_str(out, "other(");
                crate::orderbook::text::push_decimal(out, code as u128);
                push_str(out, ")");
                assert(final(out)@ =~= old(out)@ + reject_text(self));
            },
        }
    }

    /// The human-readable text of this reason (`kill switch active`, …,
    /// `other(42)`).
    pub fn to_text(self) -> (s: String)
        ensures
            s@ == reject_text(self),
    {
        let mut s = String::new();
        self.write_text(&mut s);
        assert(s@ =~= reject_text(self));
        s
    }
}

/// Law: named reasons carry the fixed codes 1 through 13, all distinct, so a
/// named code can never collide with another named reason.
pub proof fn law_named_codes_are_distinct(a: RejectReason, b: RejectReason)
    requires
        !(a is Other),
        !(b is Other),
        reject_code(a) == reject_code(b),
    ensures
        a == b,
        1 <= reject_code(a) <= 13,
{
}

} // verus!
