//! Quantity access and rewriting for every order kind: the user-facing
//! quantity update, the residual distribution of an aggressive taker, the
//! reserve replenishment rule and the per-maker fill step.

use crate::orderbook::error::OrderBookError;
use crate::orderbook::types::{
    default_replenish, default_reserve_replenish_amount, hidden_of, order_wf, total_fits, total_of,
    visible_of, Order, OrderKind,
};
use vstd::prelude::*;

verus! {

/// `a + b` clamped to `u64::MAX`.
pub open spec fn sat_add(a: u64, b: u64) -> u64 {
    if a + b > u64::MAX { u64::MAX } else { (a + b) as u64 }
}

/// `a - b` clamped to `0`.
pub open spec fn sat_sub(a: u64, b: u64) -> u64 {
    if a >= b { (a - b) as u64 } else { 0 }
}

/// The smaller of two quantities.
pub open spec fn min_u64(a: u64, b: u64) -> u64 {
    if a <= b { a } else { b }
}

/// The order with its visible tranche (or single quantity) set to `q`; the
/// hidden tranche and every other field are kept.
pub open spec fn with_visible(o: Order, q: u64) -> Order {
    Order {
        kind: match o.kind {
            OrderKind::Standard { .. } => OrderKind::Standard { quantity: q },
            OrderKind::Iceberg { hidden, .. } => OrderKind::Iceberg { visible: q, hidden },
            OrderKind::PostOnly { .. } => OrderKind::PostOnly { quantity: q },
            OrderKind::TrailingStop { trail_amount, last_reference_price, .. } =>
                OrderKind::TrailingStop { quantity: q, trail_amount, last_reference_price },
            OrderKind::Pegged { reference_price_offset, reference_price_type, .. } =>
                OrderKind::Pegged { quantity: q, reference_price_offset, reference_price_type },
            OrderKind::MarketToLimit { .. } => OrderKind::MarketToLimit { quantity: q },
            OrderKind::Reserve {
                hidden,
                replenish_threshold,
                replenish_amount,
                auto_replenish,
                ..
            } => OrderKind::Reserve {
                visible: q,
                hidden,
                replenish_threshold,
                replenish_amount,
                auto_replenish,
            },
        },
        ..o
    }
}

/// The order with both tranches replaced (two-tranche kinds only).
pub open spec fn with_tranches(o: Order, v: u64, h: u64) -> Order {
    Order {
        kind: match o.kind {
            OrderKind::Iceberg { .. } => OrderKind::Iceberg { visible: v, hidden: h },
            OrderKind::Reserve { replenish_threshold, replenish_amount, auto_replenish, .. } =>
                OrderKind::Reserve {
                visible: v,
                hidden: h,
                replenish_threshold,
                replenish_amount,
                auto_replenish,
            },
            _ => o.kind,
        },
        ..o
    }
}

/// The amount a reserve moves from hidden into visible when it refreshes,
/// before the cap by the hidden tranche.
pub open spec fn replenish_amount_of(amount: Option<u64>) -> u64 {
    match amount {
        Some(a) => a,
        None => default_replenish(),
    }
}

/// A reserve reduced to the total `target`: the reduction comes out of the
/// visible tranche first, then hidden; with automatic replenishment and hidden
/// left, a visible tranche below `max(threshold, 1)` is then refreshed by
/// `min(amount or default, hidden)` drawn out of hidden.
pub open spec fn spec_reduce_reserve(o: Order, target: u64) -> Order {
    match o.kind {
        OrderKind::Reserve {
            visible,
            hidden,
            replenish_threshold,
            replenish_amount,
            auto_replenish,
        } => {
            let reduce = sat_sub(sat_add(visible, hidden), target);
            let from_visible = min_u64(reduce, visible);
            let v1 = (visible - from_visible) as u64;
            let h1 = sat_sub(hidden, (reduce - from_visible) as u64);
            let safe = if replenish_threshold == 0 { 1 } else { replenish_threshold };
            if auto_replenish && h1 > 0 && v1 < safe {
                let refresh = min_u64(replenish_amount_of(replenish_amount), h1);
                with_tranches(o, sat_add(v1, refresh), (h1 - refresh) as u64)
            } else {
                with_tranches(o, v1, h1)
            }
        },
        _ => o,
    }
}

/// The residual of an aggressive taker distributed over its tranches for a
/// total of `r`: single-tranche kinds carry `r`; an iceberg keeps its visible
/// tranche as the display size (`min(display, r)` visible, the rest hidden);
/// a reserve follows [`spec_reduce_reserve`].
pub open spec fn spec_set_total_remaining(o: Order, r: u64) -> Order {
    match o.kind {
        OrderKind::Iceberg { visible, .. } => {
            let v = min_u64(visible, r);
            with_tranches(o, v, (r - v) as u64)
        },
        OrderKind::Reserve { .. } => spec_reduce_reserve(o, r),
        _ => with_visible(o, r),
    }
}

/// Quantity access and modification across order kinds.
pub trait OrderQuantity {
    /// The primary quantity: the visible tranche of a two-tranche order.
    fn quantity(&self) -> u64;

    /// Visible plus hidden, saturating at `u64::MAX`.
    fn total_quantity(&self) -> u64;

    /// Visible plus hidden, or `None` when the sum overflows `u64`.
    fn checked_total_quantity(&self) -> Option<u64>;

    /// The user-facing quantity update: sets the single quantity, or the
    /// visible tranche of a two-tranche order (hidden untouched).
    fn set_quantity(&mut self, new_quantity: u64);

    /// Distributes a total remaining quantity across the tranches before an
    /// aggressive taker's residual rests.
    fn set_total_remaining(&mut self, remaining_total: u64);
}

impl OrderQuantity for Order {
    fn quantity(&self) -> (r: u64)
        ensures
            r == visible_of(*self),
    {
        self.visible_quantity()
    }

    fn total_quantity(&self) -> (r: u64)
        ensures
            r == sat_add(visible_of(*self), hidden_of(*self)),
    {
        self.visible_quantity().saturating_add(self.hidden_quantity())
    }

    fn checked_total_quantity(&self) -> (r: Option<u64>)
        ensures
            r == (if total_of(*self) <= u64::MAX {
                Some(total_of(*self) as u64)
            } else {
                None::<u64>
            }),
    {
        self.visible_quantity().checked_add(self.hidden_quantity())
    }

    fn set_quantity(&mut self, new_quantity: u64)
        ensures
            *final(self) == with_visible(*old(self), new_quantity),
    {
        let k = match self.kind {
            OrderKind::Standard { .. } => OrderKind::Standard { quantity: new_quantity },
            OrderKind::Iceberg { hidden, .. } => OrderKind::Iceberg { visible: new_quantity, hidden },
            OrderKind::PostOnly { .. } => OrderKind::PostOnly { quantity: new_quantity },
            OrderKind::TrailingStop { trail_amount, last_reference_price, .. } =>
                OrderKind::TrailingStop { quantity: new_quantity, trail_amount, last_reference_price },
            OrderKind::Pegged { reference_price_offset, reference_price_type, .. } =>
                OrderKind::Pegged {
                quantity: new_quantity,
                reference_price_offset,
                reference_price_type,
            },
            OrderKind::MarketToLimit { .. } => OrderKind::MarketToLimit { quantity: new_quantity },
            OrderKind::Reserve {
                hidden,
                replenish_threshold,
                replenish_amount,
                auto_replenish,
                ..
            } => OrderKind::Reserve {
                visible: new_quantity,
                hidden,
                replenish_threshold,
                replenish_amount,
                auto_replenish,
            },
        };
        self.kind = k;
    }

    fn set_total_remaining(&mut self, remaining_total: u64)
        ensures
            *final(self) == spec_set_total_remaining(*old(self), remaining_total),
    {
        match self.kind {
            OrderKind::Iceberg { visible, .. } => {
                let v = if visible <= remaining_total { visible } else { remaining_total };
                self.kind = OrderKind::Iceberg { visible: v, hidden: remaining_total - v };
            },
            OrderKind::Reserve { .. } => reduce_reserve_to_total(self, remaining_total),
            _ => self.set_quantity(remaining_total),
        }
    }
}

/// Reduce a reserve order to a total target (see [`spec_reduce_reserve`]);
/// other kinds are left unchanged.
pub fn reduce_reserve_to_total(order: &mut Order, new_total_quantity: u64)
    ensures
        *final(order) == spec_reduce_reserve(*old(order), new_total_quantity),
{
    if let OrderKind::Reserve {
        visible,
        hidden,
        replenish_threshold,
        replenish_amount,
        auto_replenish,
    } = order.kind {
        let original_total = visible.saturating_add(hidden);
        let amount_to_reduce = original_total.saturating_sub(new_total_quantity);
        let filled_from_visible = if amount_to_reduce <= visible {
            amount_to_reduce
        } else {
            visible
        };
        let mut v = visible - filled_from_visible;
        let remaining_to_reduce = amount_to_reduce - filled_from_visible;
        let mut h = hidden.saturating_sub(remaining_to_reduce);
        let safe_threshold = if replenish_threshold == 0 {
            1
        } else {
            replenish_threshold
        };
        if auto_replenish && h > 0 && v < safe_threshold {
            let amount = match replenish_amount {
                Some(a) => a,
                None => default_reserve_replenish_amount(),
            };
            let refresh = if amount <= h { amount } else { h };
            v = v.saturating_add(refresh);
            h = h - refresh;
        }
        order.kind = OrderKind::Reserve {
            visible: v,
            hidden: h,
            replenish_threshold,
            replenish_amount,
            auto_replenish,
        };
    }
}

/// Accept `quantity` only when it is a whole multiple of `lot`; otherwise
/// report it with [`OrderBookError::InvalidLotSize`]. A zero lot accepts
/// only a zero quantity (a lot of zero has no non-zero multiple).
pub fn check_lot_multiple(quantity: u64, lot: u64) -> (r: Result<(), OrderBookError>)
    ensures
        r is Ok <==> (if lot == 0 { quantity == 0 } else { quantity % lot == 0 }),
        r is Err ==> r == Err::<(), OrderBookError>(
            OrderBookError::InvalidLotSize { quantity, lot_size: lot },
        ),
{
    let ok = if lot == 0 {
        quantity == 0
    } else {
        quantity % lot == 0
    };
    if ok {
        Ok(())
    } else {
        Err(OrderBookError::InvalidLotSize { quantity, lot_size: lot })
    }
}

/// The outcome of one resting order meeting an incoming quantity.
#[derive(Debug, Clone, Copy, PartialEq, Eq)]
pub struct MakerStep {
    /// Quantity taken from the incoming order.
    pub consumed: u64,
    /// The maker afterwards, or `None` when it leaves the level.
    pub updated: Option<Order>,
    /// Quantity drawn from the hidden tranche into the visible one.
    pub hidden_reduced: u64,
    /// Incoming quantity left afterwards.
    pub remaining: u64,
}

/// One maker meeting an incoming quantity `r`:
/// - a single-tranche maker of `q` is consumed whole when `q <= r`, otherwise
///   it keeps `q - r`;
/// - an iceberg whose visible tranche `v <= r` is consumed for `v` and, with
///   hidden left, refreshes a tranche of `min(hidden, v or all hidden when v is
///   0)`; otherwise `v - r` stays visible;
/// - a reserve whose visible tranche `v <= r` is consumed for `v` and, with
///   hidden left and automatic replenishment, refreshes
///   `min(amount or default, hidden)`, else leaves; otherwise it keeps `v - r`
///   visible, refreshed by that amount when this leaves it below
///   `max(threshold, 1)` with hidden left and automatic replenishment.
pub open spec fn spec_match_against(m: Order, r: u64) -> MakerStep {
    let v = visible_of(m);
    let h = hidden_of(m);
    match m.kind {
        OrderKind::Iceberg { .. } => if v <= r {
            if h > 0 {
                let tranche = if v == 0 { h } else { v };
                let refresh = min_u64(h, tranche);
                MakerStep {
                    consumed: v,
                    updated: Some(with_tranches(m, refresh, (h - refresh) as u64)),
                    hidden_reduced: refresh,
                    remaining: (r - v) as u64,
                }
            } else {
                MakerStep { consumed: v, updated: None, hidden_reduced: 0, remaining: (r - v) as u64 }
            }
        } else {
            MakerStep {
                consumed: r,
                updated: Some(with_tranches(m, (v - r) as u64, h)),
                hidden_reduced: 0,
                remaining: 0,
            }
        },
        OrderKind::Reserve { replenish_threshold, replenish_amount, auto_replenish, .. } => {
            let safe = if auto_replenish && replenish_threshold == 0 {
                1
            } else {
                replenish_threshold
            };
            let rq = min_u64(replenish_amount_of(replenish_amount), h);
            if v <= r {
                if h > 0 && auto_replenish {
                    MakerStep {
                        consumed: v,
                        updated: Some(with_tranches(m, rq, (h - rq) as u64)),
                        hidden_reduced: rq,
                        remaining: (r - v) as u64,
                    }
                } else {
                    MakerStep { consumed: v, updated: None, hidden_reduced: 0, remaining: (r - v) as u64 }
                }
            } else {
                let nv = (v - r) as u64;
                if nv < safe && h > 0 && auto_replenish {
                    MakerStep {
                        consumed: r,
                        updated: Some(with_tranches(m, (nv + rq) as u64, (h - rq) as u64)),
                        hidden_reduced: rq,
                        remaining: 0,
                    }
                } else {
                    MakerStep {
                        consumed: r,
                        updated: Some(with_tranches(m, nv, h)),
                        hidden_reduced: 0,
                        remaining: 0,
                    }
                }
            }
        },
        _ => if v <= r {
            MakerStep { consumed: v, updated: None, hidden_reduced: 0, remaining: (r - v) as u64 }
        } else {
            MakerStep {
                consumed: r,
                updated: Some(with_visible(m, (v - r) as u64)),
                hidden_reduced: 0,
                remaining: 0,
            }
        },
    }
}

/// The fill step of a resting order against an incoming quantity: what it
/// gives, what it keeps and how a two-tranche order refills (see
/// [`spec_match_against`]). The order's total must fit in a `u64`, as it
/// does for every order the book admits.
pub fn match_against(m: &Order, r: u64) -> (s: MakerStep)
    requires
        total_fits(*m),
        order_wf(*m),
    ensures
        s == spec_match_against(*m, r),
{
    let v = m.visible_quantity();
    let h = m.hidden_quantity();
    match m.kind {
        OrderKind::Iceberg { .. } => {
            if v <= r {
                if h > 0 {
                    let tranche = if v == 0 { h } else { v };
                    let refresh = if h <= tranche { h } else { tranche };
                    MakerStep {
                        consumed: v,
                        updated: Some(Order { kind: OrderKind::Iceberg { visible: refresh, hidden: h - refresh }, ..*m }),
                        hidden_reduced: refresh,
                        remaining: r - v,
                    }
                } else {
                    MakerStep { consumed: v, updated: None, hidden_reduced: 0, remaining: r - v }
                }
            } else {
                MakerStep {
                    consumed: r,
                    updated: Some(Order { kind: OrderKind::Iceberg { visible: v - r, hidden: h }, ..*m }),
                    hidden_reduced: 0,
                    remaining: 0,
                }
            }
        },
        OrderKind::Reserve { replenish_threshold, replenish_amount, auto_replenish, .. } => {
            let safe = if auto_replenish && replenish_threshold == 0 {
                1
            } else {
                replenish_threshold
            };
            let amount = match replenish_amount {
                Some(a) => a,
                None => default_reserve_replenish_amount(),
            };
            let rq = if amount <= h { amount } else { h };
            let rebuilt = |nv: u64, nh: u64| -> (o: Order)
                ensures
                    o == with_tranches(*m, nv, nh),
                {
                    Order {
                        kind: OrderKind::Reserve {
                            visible: nv,
                            hidden: nh,
                            replenish_threshold,
                            replenish_amount,
                            auto_replenish,
                        },
                        ..*m
                    }
                };
            if v <= r {
                if h > 0 && auto_replenish {
                    MakerStep {
                        consumed: v,
                        updated: Some(rebuilt(rq, h - rq)),
                        hidden_reduced: rq,
                        remaining: r - v,
                    }
                } else {
                    MakerStep { consumed: v, updated: None, hidden_reduced: 0, remaining: r - v }
                }
            } else {
                let nv = v - r;
                if nv < safe && h > 0 && auto_replenish {
                    MakerStep {
                        consumed: r,
                        updated: Some(rebuilt(nv + rq, h - rq)),
                        hidden_reduced: rq,
                        remaining: 0,
                    }
                } else {
                    MakerStep {
                        consumed: r,
                        updated: Some(rebuilt(nv, h)),
                        hidden_reduced: 0,
                        remaining: 0,
                    }
                }
            }
        },
        _ => {
            if v <= r {
                MakerStep { consumed: v, updated: None, hidden_reduced: 0, remaining: r - v }
            } else {
                let mut u = *m;
                u.set_quantity(v - r);
                MakerStep { consumed: r, updated: Some(u), hidden_reduced: 0, remaining: 0 }
            }
        },
    }
}

} // verus!
