//! The value types every part of the book shares: sides, time-in-force
//! policies, self-trade-prevention modes and the order kinds.
//!
//! Identifiers are plain integers: an order id is a `u128` (a UUID, ULID or
//! sequence number all fit) and a user id is a `u128` where `0` means an
//! anonymous order that bypasses self-trade prevention.

use crate::orderbook::text::push_str;
use vstd::prelude::*;

verus! {

/// The side of an order.
#[derive(Debug, Clone, Copy, PartialEq, Eq, Hash)]
pub enum Side {
    /// Buy side (bids).
    Buy,
    /// Sell side (asks).
    Sell,
}

/// The side opposite to `s`.
pub open spec fn spec_opposite(s: Side) -> Side {
    match s {
        Side::Buy => Side::Sell,
        Side::Sell => Side::Buy,
    }
}

/// The wire text of a side.
pub open spec fn side_text(s: Side) -> Seq<char> {
    match s {
        Side::Buy => "BUY"@,
        Side::Sell => "SELL"@,
    }
}

impl Side {
    /// The opposite side.
    pub fn opposite(self) -> (r: Side)
        ensures
            r == spec_opposite(self),
    {
        match self {
            Side::Buy => Side::Sell,
            Side::Sell => Side::Buy,
        }
    }

    /// Append `BUY` or `SELL` to `out`.
    pub fn write_text(self, out: &mut String)
        ensures
            final(out)@ == old(out)@ + side_text(self),
    {
        match self {
            Side::Buy => push_str(out, "BUY"),
            Side::Sell => push_str(out, "SELL"),
        }
    }
}

/// How long an order stays live.
#[derive(Debug, Clone, Copy, PartialEq, Eq, Hash)]
pub enum TimeInForce {
    /// Good till cancelled.
    Gtc,
    /// Immediate or cancel: fill what crosses, drop the rest.
    Ioc,
    /// Fill or kill: fill completely or not at all.
    Fok,
    /// Good till the given Unix-millisecond deadline.
    Gtd(u64),
    /// Good for the trading day (until the market close, when one is set).
    Day,
}

/// Whether a policy never rests (IOC or FOK).
pub open spec fn spec_is_immediate(t: TimeInForce) -> bool {
    t is Ioc || t is Fok
}

/// Whether a policy has expired at `now`, given the market close if any.
pub open spec fn spec_is_expired(t: TimeInForce, now: u64, market_close: Option<u64>) -> bool {
    match t {
        TimeInForce::Gtd(expiry) => now >= expiry,
        TimeInForce::Day => match market_close {
            Some(close) => now >= close,
            None => false,
        },
        _ => false,
    }
}

impl TimeInForce {
    /// IOC and FOK orders never rest on the book.
    pub fn is_immediate(self) -> (r: bool)
        ensures
            r == spec_is_immediate(self),
    {
        match self {
            TimeInForce::Ioc | TimeInForce::Fok => true,
            _ => false,
        }
    }

    /// Whether this is fill-or-kill.
    pub fn is_fill_or_kill(self) -> (r: bool)
        ensures
            r == (self is Fok),
    {
        match self {
            TimeInForce::Fok => true,
            _ => false,
        }
    }

    /// A GTD order expires at its deadline, a DAY order at the market close
    /// when one is set; the other policies never expire.
    pub fn is_expired(self, now: u64, market_close: Option<u64>) -> (r: bool)
        ensures
            r == spec_is_expired(self, now, market_close),
    {
        match self {
            TimeInForce::Gtd(expiry) => now >= expiry,
            TimeInForce::Day => match market_close {
                Some(close) => now >= close,
                None => false,
            },
            _ => false,
        }
    }
}

/// The reference a pegged order follows.
#[derive(Debug, Clone, Copy, PartialEq, Eq, Hash)]
pub enum PegReferenceType {
    /// Pegged to the best bid.
    BestBid,
    /// Pegged to the best ask.
    BestAsk,
    /// Pegged to the mid price.
    MidPrice,
    /// Pegged to the last trade price.
    LastTrade,
}

/// Self-trade-prevention policy of a book.
#[derive(Debug, Clone, Copy, PartialEq, Eq, Hash)]
pub enum STPMode {
    /// No self-trade prevention (shown as `None`).
    Disabled,
    /// Cancel the incoming order when it would trade with its own user.
    CancelTaker,
    /// Cancel the resting orders of the same user and keep matching.
    CancelMaker,
    /// Cancel both the incoming order and the conflicting resting order.
    CancelBoth,
}

/// The wire text of a self-trade-prevention mode.
pub open spec fn stp_text(m: STPMode) -> Seq<char> {
    match m {
        STPMode::Disabled => "None"@,
        STPMode::CancelTaker => "CancelTaker"@,
        STPMode::CancelMaker => "CancelMaker"@,
        STPMode::CancelBoth => "CancelBoth"@,
    }
}

impl STPMode {
    /// Whether prevention is engaged.
    pub fn is_enabled(self) -> (r: bool)
        ensures
            r == !(self is Disabled),
    {
        match self {
            STPMode::Disabled => false,
            _ => true,
        }
    }

    /// Append the mode's name to `out`.
    pub fn write_text(self, out: &mut String)
        ensures
            final(out)@ == old(out)@ + stp_text(self),
    {
        match self {
            STPMode::Disabled => push_str(out, "None"),
            STPMode::CancelTaker => push_str(out, "CancelTaker"),
            STPMode::CancelMaker => push_str(out, "CancelMaker"),
            STPMode::CancelBoth => push_str(out, "CancelBoth"),
        }
    }
}

/// The quantity-bearing shape of an order.
#[derive(Debug, Clone, Copy, PartialEq, Eq, Hash)]
pub enum OrderKind {
    /// Plain limit order.
    Standard { quantity: u64 },
    /// Iceberg: a visible tranche refreshed from a hidden reserve.
    Iceberg { visible: u64, hidden: u64 },
    /// Post-only: never takes liquidity.
    PostOnly { quantity: u64 },
    /// Trailing stop.
    TrailingStop { quantity: u64, trail_amount: u64, last_reference_price: u128 },
    /// Pegged to a reference price.
    Pegged { quantity: u64, reference_price_offset: i64, reference_price_type: PegReferenceType },
    /// Market-to-limit.
    MarketToLimit { quantity: u64 },
    /// Reserve: an iceberg with an explicit replenishment policy. A
    /// `replenish_amount` is never `Some(0)` (the amount is non-zero).
    Reserve {
        visible: u64,
        hidden: u64,
        replenish_threshold: u64,
        replenish_amount: Option<u64>,
        auto_replenish: bool,
    },
}

/// An order as the book holds it.
#[derive(Debug, Clone, Copy, PartialEq, Eq, Hash)]
pub struct Order {
    /// Order id.
    pub id: u128,
    /// Limit price.
    pub price: u128,
    /// Side.
    pub side: Side,
    /// Owner id; `0` is anonymous.
    pub user_id: u128,
    /// Creation time in Unix milliseconds.
    pub timestamp: u64,
    /// Time-in-force policy.
    pub time_in_force: TimeInForce,
    /// Quantity-bearing shape.
    pub kind: OrderKind,
}

/// The visible (displayed) quantity of an order.
pub open spec fn visible_of(o: Order) -> u64 {
    match o.kind {
        OrderKind::Standard { quantity } => quantity,
        OrderKind::Iceberg { visible, .. } => visible,
        OrderKind::PostOnly { quantity } => quantity,
        OrderKind::TrailingStop { quantity, .. } => quantity,
        OrderKind::Pegged { quantity, .. } => quantity,
        OrderKind::MarketToLimit { quantity } => quantity,
        OrderKind::Reserve { visible, .. } => visible,
    }
}

/// The hidden quantity of an order (zero for single-tranche kinds).
pub open spec fn hidden_of(o: Order) -> u64 {
    match o.kind {
        OrderKind::Iceberg { hidden, .. } => hidden,
        OrderKind::Reserve { hidden, .. } => hidden,
        _ => 0,
    }
}

/// The exact total quantity of an order, visible plus hidden.
pub open spec fn total_of(o: Order) -> int {
    visible_of(o) + hidden_of(o)
}

/// Representation constraint of an order: a reserve's replenish amount, when
/// given, is non-zero.
pub open spec fn order_wf(o: Order) -> bool {
    match o.kind {
        OrderKind::Reserve { replenish_amount, .. } => replenish_amount != Some(0u64),
        _ => true,
    }
}

/// Whether the total of an order fits in a `u64`.
pub open spec fn total_fits(o: Order) -> bool {
    total_of(o) <= u64::MAX
}

impl Order {
    /// The visible quantity.
    pub fn visible_quantity(&self) -> (r: u64)
        ensures
            r == visible_of(*self),
    {
        match self.kind {
            OrderKind::Standard { quantity } => quantity,
            OrderKind::Iceberg { visible, .. } => visible,
            OrderKind::PostOnly { quantity } => quantity,
            OrderKind::TrailingStop { quantity, .. } => quantity,
            OrderKind::Pegged { quantity, .. } => quantity,
            OrderKind::MarketToLimit { quantity } => quantity,
            OrderKind::Reserve { visible, .. } => visible,
        }
    }

    /// The hidden quantity (zero for single-tranche kinds).
    pub fn hidden_quantity(&self) -> (r: u64)
        ensures
            r == hidden_of(*self),
    {
        match self.kind {
            OrderKind::Iceberg { hidden, .. } => hidden,
            OrderKind::Reserve { hidden, .. } => hidden,
            _ => 0,
        }
    }

    /// Whether this is a post-only order.
    pub fn is_post_only(&self) -> (r: bool)
        ensures
            r == (self.kind is PostOnly),
    {
        match self.kind {
            OrderKind::PostOnly { .. } => true,
            _ => false,
        }
    }
}

/// The replenishment amount a reserve falls back to when none is given.
pub open spec fn default_replenish() -> u64 {
    80
}

/// `pricelevel::DEFAULT_RESERVE_REPLENISH_AMOUNT`, the amount a reserve
/// order without an explicit replenish amount draws from its hidden tranche.
/// The crate defines it as the non-zero constant 80; the contract states that.
#[verifier::external_body]
pub(crate) fn default_reserve_replenish_amount() -> (r: u64)
    ensures
        r == default_replenish(),
{
    pricelevel::DEFAULT_RESERVE_REPLENISH_AMOUNT.get()
}

} // verus!
