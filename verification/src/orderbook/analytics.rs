//! Read-only depth analytics over the book: cumulative depth, liquidity in
//! a price range, queue positions, crossable quantity and market-impact
//! estimates.

use crate::orderbook::book::{find_order, find_price, side_has_id, OrderBook};
use crate::orderbook::clock::Clock;
use crate::orderbook::level::{queue_depth, Level};
use crate::orderbook::order::{min_u64, sat_add};
use crate::orderbook::types::{spec_opposite, Order, Side};
use crate::orderbook::walk::{lview, sview, LevelView};
use vstd::prelude::*;

verus! {

/// The saturating sum of the depths of the first `k` levels.
pub open spec fn depth_prefix(ls: Seq<LevelView>, k: int) -> u64
    decreases k,
{
    if k <= 0 {
        0
    } else {
        sat_add(depth_prefix(ls, k - 1), queue_depth(ls[k - 1].orders))
    }
}

/// The first level, from `i`, at which the cumulative depth reaches
/// `target`, or the side's length.
pub open spec fn first_reaching(ls: Seq<LevelView>, target: u64, i: int) -> int
    decreases ls.len() - i,
{
    if i < 0 || i >= ls.len() {
        ls.len() as int
    } else if depth_prefix(ls, i + 1) >= target {
        i
    } else {
        first_reaching(ls, target, i + 1)
    }
}

/// The saturating sum of the depths of the first `k` levels priced within
/// `[lo, hi]`.
pub open spec fn range_depth(ls: Seq<LevelView>, lo: u128, hi: u128, k: int) -> u64
    decreases k,
{
    if k <= 0 {
        0
    } else if lo <= ls[k - 1].price <= hi {
        sat_add(range_depth(ls, lo, hi, k - 1), queue_depth(ls[k - 1].orders))
    } else {
        range_depth(ls, lo, hi, k - 1)
    }
}

/// The exact sum of the depths of the first `k` levels.
pub open spec fn depth_sum(ls: Seq<LevelView>, k: int) -> int
    decreases k,
{
    if k <= 0 {
        0
    } else {
        depth_sum(ls, k - 1) + queue_depth(ls[k - 1].orders)
    }
}

/// Whether a level priced `price` is beyond a taker's limit.
pub open spec fn past_limit(side: Side, limit: Option<u128>, price: u128) -> bool {
    match limit {
        Some(l) => match side {
            Side::Buy => price > l,
            Side::Sell => price < l,
        },
        None => false,
    }
}

/// The quantity a taker of `side` for `qty` within `limit` could take from
/// the opposite levels `ls`, from level `i` with `matched` already counted.
pub open spec fn peek_from(ls: Seq<LevelView>, side: Side, qty: u64, limit: Option<u128>, i: int, matched: u64) -> u64
    decreases ls.len() - i,
{
    if i < 0 || i >= ls.len() || matched >= qty || past_limit(side, limit, ls[i].price) {
        matched
    } else {
        let take = min_u64((qty - matched) as u64, queue_depth(ls[i].orders));
        peek_from(ls, side, qty, limit, i + 1, sat_add(matched, take))
    }
}

/// `a × b` saturating at `u128::MAX`.
pub open spec fn sat_mul(a: u128, b: u128) -> u128 {
    if a * b > u128::MAX { u128::MAX } else { (a * b) as u128 }
}

/// `a + b` saturating at `u128::MAX`.
pub open spec fn sat_add128(a: u128, b: u128) -> u128 {
    if a + b > u128::MAX { u128::MAX } else { (a + b) as u128 }
}

/// Progress of a market-order estimate over the opposite side.
pub struct SweepEstimate {
    pub remaining: u64,
    pub cost: u128,
    pub filled: u64,
    pub worst: u128,
    pub levels: int,
    pub fills: Seq<(u128, u64)>,
}

/// A market order estimate over the opposite levels `ls` from level `i`:
/// each non-empty level fills `min(remaining, depth)` at its price.
pub open spec fn estimate_from(ls: Seq<LevelView>, i: int, e: SweepEstimate) -> SweepEstimate
    decreases ls.len() - i,
{
    if i < 0 || i >= ls.len() || e.remaining == 0 {
        e
    } else if queue_depth(ls[i].orders) == 0 {
        estimate_from(ls, i + 1, e)
    } else {
        let f = min_u64(e.remaining, queue_depth(ls[i].orders));
        estimate_from(
            ls,
            i + 1,
            SweepEstimate {
                remaining: (e.remaining - f) as u64,
                cost: sat_add128(e.cost, sat_mul(ls[i].price, f as u128)),
                filled: sat_add(e.filled, f),
                worst: ls[i].price,
                levels: e.levels + 1,
                fills: e.fills.push((ls[i].price, f)),
            },
        )
    }
}

/// The estimate a market order of `qty` starts with.
pub open spec fn estimate_start(qty: u64, best: u128) -> SweepEstimate {
    SweepEstimate { remaining: qty, cost: 0, filled: 0, worst: best, levels: 0, fills: seq![] }
}

/// The integer part of a market-impact estimate: worst price reached,
/// slippage from the best price, levels consumed, quantity available and
/// total cost (price × quantity, saturating).
#[derive(Debug, Clone, Copy, PartialEq, Eq)]
pub struct MarketImpact {
    pub worst_price: u128,
    pub slippage: u128,
    pub levels_consumed: usize,
    pub total_quantity_available: u64,
    pub total_cost: u128,
}

impl MarketImpact {
    /// The estimate of nothing.
    pub fn empty() -> (r: Self)
        ensures
            r == (MarketImpact { worst_price: 0, slippage: 0, levels_consumed: 0, total_quantity_available: 0, total_cost: 0 }),
    {
        MarketImpact { worst_price: 0, slippage: 0, levels_consumed: 0, total_quantity_available: 0, total_cost: 0 }
    }
}

/// A simulated market order: the fills per level, the quantity filled and
/// left, and the total cost.
#[derive(Debug, Clone, PartialEq, Eq)]
pub struct OrderSimulation {
    pub fills: Vec<(u128, u64)>,
    pub total_filled: u64,
    pub remaining_quantity: u64,
    pub total_cost: u128,
}

pub(crate) fn side_ref<C: Clock>(book: &OrderBook<C>, side: Side) -> (r: &Vec<Level>)
    ensures
        sview(r@) == book.side_levels(side),
{
    proof {
        book.lemma_view_sides();
    }
    match side {
        Side::Buy => &book.bids,
        Side::Sell => &book.asks,
    }
}

pub(crate) fn sat_mul_exec(a: u128, b: u128) -> (r: u128)
    ensures
        r == sat_mul(a, b),
{
    match a.checked_mul(b) {
        Some(x) => x,
        None => u128::MAX,
    }
}

impl<C: Clock> OrderBook<C> {
    /// The price at which the cumulative depth of `side` (in price
    /// priority) first reaches `target_depth`, or `None` when it never does.
    pub fn price_at_depth(&self, target_depth: u64, side: Side) -> (r: Option<u128>)
        ensures
            ({
                let ls = self.side_levels(side);
                let k = first_reaching(ls, target_depth, 0);
                r == (if k < ls.len() { Some(ls[k].price) } else { None::<u128> })
            }),
    {
        match self.cumulative_depth_to_target(target_depth, side) {
            Some((p, _)) => Some(p),
            None => None,
        }
    }

    /// The price and cumulative depth at which the depth of `side` first
    /// reaches `target_depth`, or `None` when it never does.
    pub fn cumulative_depth_to_target(&self, target_depth: u64, side: Side) -> (r: Option<(u128, u64)>)
        ensures
            ({
                let ls = self.side_levels(side);
                let k = first_reaching(ls, target_depth, 0);
                r == (if k < ls.len() {
                    Some((ls[k].price, depth_prefix(ls, k + 1)))
                } else {
                    None::<(u128, u64)>
                })
            }),
    {
        let v = side_ref(self, side);
        let ghost ls = sview(v@);
        let mut cum: u64 = 0;
        let mut i: usize = 0;
        while i < v.len()
            invariant
                i <= v@.len(),
                ls == sview(v@),
                cum == depth_prefix(ls, i as int),
                ls == self.side_levels(side),
                first_reaching(ls, target_depth, i as int) == first_reaching(ls, target_depth, 0),
            decreases v@.len() - i,
        {
            assert(ls[i as int] == lview(v@[i as int]));
            cum = cum.saturating_add(v[i].depth());
            if cum >= target_depth {
                return Some((v[i].price, cum));
            }
            i += 1;
        }
        None
    }

    /// The saturating total depth of the first `levels` levels of `side`.
    pub fn total_depth_at_levels(&self, levels: usize, side: Side) -> (r: u64)
        ensures
            r == depth_prefix(self.side_levels(side), if levels < self.side_levels(side).len() {
                levels as int
            } else {
                self.side_levels(side).len() as int
            }),
    {
        let v = side_ref(self, side);
        let ghost ls = sview(v@);
        let mut total: u64 = 0;
        let mut i: usize = 0;
        while i < v.len() && i < levels
            invariant
                i <= v@.len(),
                i <= levels,
                ls == sview(v@),
                total == depth_prefix(ls, i as int),
            decreases v@.len() - i,
        {
            assert(ls[i as int] == lview(v@[i as int]));
            total = total.saturating_add(v[i].depth());
            i += 1;
        }
        total
    }

    /// The saturating total depth of the levels of `side` priced within
    /// `[min_price, max_price]`; `0` when the range is empty.
    pub fn liquidity_in_range(&self, min_price: u128, max_price: u128, side: Side) -> (r: u64)
        ensures
            r == (if min_price > max_price {
                0
            } else {
                range_depth(self.side_levels(side), min_price, max_price, self.side_levels(side).len() as int)
            }),
    {
        if min_price > max_price {
            return 0;
        }
        let v = side_ref(self, side);
        let ghost ls = sview(v@);
        let mut total: u64 = 0;
        let mut i: usize = 0;
        while i < v.len()
            invariant
                i <= v@.len(),
                ls == sview(v@),
                total == range_depth(ls, min_price, max_price, i as int),
            decreases v@.len() - i,
        {
            assert(ls[i as int] == lview(v@[i as int]));
            let p = v[i].price;
            if min_price <= p && p <= max_price {
                total = total.saturating_add(v[i].depth());
            }
            i += 1;
        }
        total
    }

    /// The number of orders resting at `price` on `side` (`0` when no level
    /// has that price).
    pub fn queue_ahead_at_price(&self, price: u128, side: Side) -> (r: usize)
        ensures
            ({
                let ls = self.side_levels(side);
                let k = find_price(ls, price, 0);
                r == (if k < ls.len() { ls[k].orders.len() } else { 0 })
            }),
    {
        let v = side_ref(self, side);
        let ghost ls = sview(v@);
        let mut i: usize = 0;
        while i < v.len() && v[i].price != price
            invariant
                i <= v@.len(),
                ls == sview(v@),
                find_price(ls, price, i as int) == find_price(ls, price, 0),
            decreases v@.len() - i,
        {
            assert(ls[i as int] == lview(v@[i as int]));
            i += 1;
        }
        if i < v.len() {
            assert(ls[i as int] == lview(v@[i as int]));
            v[i].orders.len()
        } else {
            0
        }
    }

    /// The price `n_ticks` ticks inside the best price of `side` (below the
    /// best bid, above the best ask); `None` when `n_ticks` or `tick_size` is
    /// zero, the side is empty, or the arithmetic leaves `u128`.
    pub fn price_n_ticks_inside(&self, n_ticks: usize, tick_size: u128, side: Side) -> (r: Option<u128>)
        ensures
            ({
                let ls = self.side_levels(side);
                let adj = n_ticks as int * tick_size as int;
                r == (if n_ticks == 0 || tick_size == 0 || adj > u128::MAX || ls.len() == 0 {
                    None::<u128>
                } else {
                    match side {
                        Side::Buy => if ls[0].price >= adj { Some((ls[0].price - adj) as u128) } else { None::<u128> },
                        Side::Sell => if ls[0].price + adj <= u128::MAX { Some((ls[0].price + adj) as u128) } else { None::<u128> },
                    }
                })
            }),
    {
        if n_ticks == 0 || tick_size == 0 {
            return None;
        }
        let adjustment = match (n_ticks as u128).checked_mul(tick_size) {
            Some(a) => a,
            None => {
                return None;
            },
        };
        match side {
            Side::Buy => match self.best_bid() {
                Some(b) => b.checked_sub(adjustment),
                None => None,
            },
            Side::Sell => match self.best_ask() {
                Some(a) => a.checked_add(adjustment),
                None => None,
            },
        }
    }

    /// The price of the `position`-th level of `side` (1-based, in price
    /// priority); `None` for position `0` or past the last level.
    pub fn price_for_queue_position(&self, position: usize, side: Side) -> (r: Option<u128>)
        ensures
            ({
                let ls = self.side_levels(side);
                r == (if 1 <= position <= ls.len() { Some(ls[position - 1].price) } else { None::<u128> })
            }),
    {
        if position == 0 {
            return None;
        }
        let v = side_ref(self, side);
        if position <= v.len() {
            assert(sview(v@)[position - 1] == lview(v@[position - 1]));
            Some(v[position - 1].price)
        } else {
            None
        }
    }

    /// One tick better than the price at which the depth of `side` reaches
    /// `target_depth` (above it for bids, below for asks); when the depth
    /// never reaches the target, the deepest level's price. `None` when the
    /// target or tick is zero, the side is empty, or the arithmetic leaves
    /// `u128`.
    pub fn price_at_depth_adjusted(&self, target_depth: u64, tick_size: u128, side: Side) -> (r: Option<u128>)
        ensures
            ({
                let ls = self.side_levels(side);
                let k = first_reaching(ls, target_depth, 0);
                r == (if target_depth == 0 || tick_size == 0 || ls.len() == 0 {
                    None::<u128>
                } else if k < ls.len() {
                    match side {
                        Side::Buy => if ls[k].price + tick_size <= u128::MAX { Some((ls[k].price + tick_size) as u128) } else { None::<u128> },
                        Side::Sell => if ls[k].price >= tick_size { Some((ls[k].price - tick_size) as u128) } else { None::<u128> },
                    }
                } else {
                    Some(ls[ls.len() - 1].price)
                })
            }),
    {
        if target_depth == 0 || tick_size == 0 {
            return None;
        }
        let v = side_ref(self, side);
        if v.len() == 0 {
            return None;
        }
        match self.cumulative_depth_to_target(target_depth, side) {
            Some((p, _)) => match side {
                Side::Buy => p.checked_add(tick_size),
                Side::Sell => p.checked_sub(tick_size),
            },
            None => {
                assert(sview(v@)[v@.len() - 1] == lview(v@[v@.len() - 1]));
                Some(v[v.len() - 1].price)
            },
        }
    }

    /// How much of `quantity` a taker of `side` within `price_limit` could
    /// take from the opposite side's depth, without touching the book.
    pub fn peek_match(&self, side: Side, quantity: u64, price_limit: Option<u128>) -> (r: u64)
        ensures
            r == peek_from(self.side_levels(spec_opposite(side)), side, quantity, price_limit, 0, 0),
    {
        let v = side_ref(self, side.opposite());
        let ghost ls = sview(v@);
        let mut matched: u64 = 0;
        let mut i: usize = 0;
        while i < v.len()
            invariant
                i <= v@.len(),
                ls == sview(v@),
                peek_from(ls, side, quantity, price_limit, i as int, matched) == peek_from(ls, side, quantity, price_limit, 0, 0),
                ls == self.side_levels(spec_opposite(side)),
            decreases v@.len() - i,
        {
            assert(ls[i as int] == lview(v@[i as int]));
            if matched >= quantity {
                return matched;
            }
            let price = v[i].price;
            let beyond = match price_limit {
                Some(l) => match side {
                    Side::Buy => price > l,
                    Side::Sell => price < l,
                },
                None => false,
            };
            if beyond {
                return matched;
            }
            let available = v[i].depth();
            let needed = quantity - matched;
            let take = if needed <= available { needed } else { available };
            matched = matched.saturating_add(take);
            i += 1;
        }
        matched
    }

    /// The total depth of each side, bids first.
    pub fn buy_sell_pressure(&self) -> (r: (u64, u64))
        requires
            depth_sum(self.bids(), self.bids().len() as int) <= u64::MAX,
            depth_sum(self.asks(), self.asks().len() as int) <= u64::MAX,
        ensures
            r.0 == depth_sum(self.bids(), self.bids().len() as int),
            r.1 == depth_sum(self.asks(), self.asks().len() as int),
    {
        let b = side_total(side_ref(self, Side::Buy));
        let a = side_total(side_ref(self, Side::Sell));
        (b, a)
    }

    /// Whether either side holds less than `threshold` in its first
    /// `levels` levels.
    pub fn is_thin_book(&self, threshold: u64, levels: usize) -> (r: bool)
        ensures
            r == (self.total_depth_at_levels_spec(levels, Side::Buy) < threshold
                || self.total_depth_at_levels_spec(levels, Side::Sell) < threshold),
    {
        self.total_depth_at_levels(levels, Side::Buy) < threshold || self.total_depth_at_levels(levels, Side::Sell) < threshold
    }

    /// The saturating total depth of the first `levels` levels of `side`.
    pub open spec fn total_depth_at_levels_spec(&self, levels: usize, side: Side) -> u64 {
        depth_prefix(self.side_levels(side), if levels < self.side_levels(side).len() {
            levels as int
        } else {
            self.side_levels(side).len() as int
        })
    }

    /// The orders resting at `price` on `side`, oldest first.
    pub fn get_orders_at_price(&self, price: u128, side: Side) -> (r: Vec<Order>)
        ensures
            ({
                let ls = self.side_levels(side);
                let k = find_price(ls, price, 0);
                r@ == (if k < ls.len() { ls[k].orders } else { Seq::<Order>::empty() })
            }),
    {
        let v = side_ref(self, side);
        let ghost ls = sview(v@);
        let mut i: usize = 0;
        while i < v.len() && v[i].price != price
            invariant
                i <= v@.len(),
                ls == sview(v@),
                find_price(ls, price, i as int) == find_price(ls, price, 0),
            decreases v@.len() - i,
        {
            assert(ls[i as int] == lview(v@[i as int]));
            i += 1;
        }
        if i < v.len() {
            assert(ls[i as int] == lview(v@[i as int]));
            copy_orders(&v[i].orders)
        } else {
            Vec::new()
        }
    }

    /// Every resting order: the bid levels in price priority, then the ask
    /// levels, each level oldest first.
    pub fn get_all_orders(&self) -> (r: Vec<Order>)
        ensures
            r@ == all_orders(self.bids(), self.bids().len() as int) + all_orders(self.asks(), self.asks().len() as int),
    {
        let mut r: Vec<Order> = Vec::new();
        append_side(&mut r, side_ref(self, Side::Buy));
        append_side(&mut r, side_ref(self, Side::Sell));
        r
    }

    /// The resting order with `order_id`, if any.
    pub fn get_order(&self, order_id: u128) -> (r: Option<Order>)
        ensures
            r == find_order(self.view(), order_id),
    {
        let b = find_in_side_ref(side_ref(self, Side::Buy), order_id);
        match b {
            Some(o) => Some(o),
            None => find_in_side_ref(side_ref(self, Side::Sell), order_id),
        }
    }

    /// The integer part of the impact of a market order of `quantity` on
    /// `side`: it walks the opposite side from its best price, filling
    /// `min(remaining, depth)` at each non-empty level. Empty for a zero
    /// quantity or an empty opposite side.
    pub fn market_impact(&self, quantity: u64, side: Side) -> (r: MarketImpact)
        ensures
            ({
                let ls = self.side_levels(spec_opposite(side));
                if quantity == 0 || ls.len() == 0 {
                    r == (MarketImpact { worst_price: 0, slippage: 0, levels_consumed: 0, total_quantity_available: 0, total_cost: 0 })
                } else {
                    let best = ls[0].price;
                    let e = estimate_from(ls, 0, estimate_start(quantity, best));
                    &&& r.worst_price == e.worst
                    &&& r.levels_consumed == e.levels
                    &&& r.total_quantity_available == e.filled
                    &&& r.total_cost == e.cost
                    &&& r.slippage == (match side {
                        Side::Buy => if e.worst >= best { (e.worst - best) as u128 } else { 0 },
                        Side::Sell => if best >= e.worst { (best - e.worst) as u128 } else { 0 },
                    })
                }
            }),
    {
        if quantity == 0 {
            return MarketImpact::empty();
        }
        let v = side_ref(self, side.opposite());
        if v.len() == 0 {
            return MarketImpact::empty();
        }
        assert(sview(v@)[0] == lview(v@[0]));
        let best = v[0].price;
        let (e, _fills) = estimate_exec(v, quantity, best);
        let slippage = match side {
            Side::Buy => e.3.saturating_sub(best),
            Side::Sell => best.saturating_sub(e.3),
        };
        MarketImpact {
            worst_price: e.3,
            slippage,
            levels_consumed: e.4,
            total_quantity_available: e.2,
            total_cost: e.1,
        }
    }

    /// Simulate a market order of `quantity` on `side` against the opposite
    /// side without touching the book: the fills per level, the quantity
    /// filled and left, and the total cost.
    pub fn simulate_market_order(&self, quantity: u64, side: Side) -> (r: OrderSimulation)
        ensures
            ({
                let ls = self.side_levels(spec_opposite(side));
                if quantity == 0 {
                    r.fills@.len() == 0 && r.total_filled == 0 && r.remaining_quantity == 0 && r.total_cost == 0
                } else if ls.len() == 0 {
                    r.fills@.len() == 0 && r.total_filled == 0 && r.remaining_quantity == quantity && r.total_cost == 0
                } else {
                    let e = estimate_from(ls, 0, estimate_start(quantity, ls[0].price));
                    &&& r.fills@ == e.fills
                    &&& r.total_filled == e.filled
                    &&& r.remaining_quantity == e.remaining
                    &&& r.total_cost == e.cost
                }
            }),
    {
        if quantity == 0 {
            return OrderSimulation { fills: Vec::new(), total_filled: 0, remaining_quantity: 0, total_cost: 0 };
        }
        let v = side_ref(self, side.opposite());
        if v.len() == 0 {
            return OrderSimulation { fills: Vec::new(), total_filled: 0, remaining_quantity: quantity, total_cost: 0 };
        }
        assert(sview(v@)[0] == lview(v@[0]));
        let best = v[0].price;
        let (e, fills) = estimate_exec(v, quantity, best);
        OrderSimulation { fills, total_filled: e.2, remaining_quantity: e.0, total_cost: e.1 }
    }
}

/// The orders of the first `k` levels, level by level.
pub open spec fn all_orders(ls: Seq<LevelView>, k: int) -> Seq<Order>
    decreases k,
{
    if k <= 0 {
        seq![]
    } else {
        all_orders(ls, k - 1) + ls[k - 1].orders
    }
}

fn copy_orders(q: &Vec<Order>) -> (r: Vec<Order>)
    ensures
        r@ == q@,
{
    let mut r: Vec<Order> = Vec::new();
    let mut i: usize = 0;
    while i < q.len()
        invariant
            i <= q@.len(),
            r@ == q@.take(i as int),
        decreases q@.len() - i,
    {
        r.push(q[i]);
        i += 1;
        assert(r@ =~= q@.take(i as int));
    }
    assert(q@.take(q@.len() as int) =~= q@);
    r
}

fn append_side(r: &mut Vec<Order>, v: &Vec<Level>)
    ensures
        final(r)@ == old(r)@ + all_orders(sview(v@), v@.len() as int),
{
    let ghost ls = sview(v@);
    let ghost r0 = r@;
    let mut i: usize = 0;
    assert(r@ =~= r0 + all_orders(ls, 0));
    while i < v.len()
        invariant
            i <= v@.len(),
            ls == sview(v@),
            r@ == r0 + all_orders(ls, i as int),
        decreases v@.len() - i,
    {
        assert(ls[i as int] == lview(v@[i as int]));
        let q = &v[i].orders;
        let ghost before = r@;
        let mut k: usize = 0;
        while k < q.len()
            invariant
                k <= q@.len(),
                r@ == before + q@.take(k as int),
            decreases q@.len() - k,
        {
            r.push(q[k]);
            k += 1;
            assert(r@ =~= before + q@.take(k as int));
        }
        assert(q@.take(q@.len() as int) =~= q@);
        i += 1;
        assert(r@ =~= r0 + all_orders(ls, i as int));
    }
}

fn find_in_side_ref(v: &Vec<Level>, id: u128) -> (r: Option<Order>)
    ensures
        r == crate::orderbook::book::find_in_side(sview(v@), id, 0),
{
    let ghost ls = sview(v@);
    let mut i: usize = 0;
    while i < v.len()
        invariant
            i <= v@.len(),
            ls == sview(v@),
            crate::orderbook::book::find_in_side(ls, id, i as int) == crate::orderbook::book::find_in_side(ls, id, 0),
        decreases v@.len() - i,
    {
        assert(ls[i as int].orders == v@[i as int].orders@);
        let q = &v[i].orders;
        let mut k: usize = 0;
        while k < q.len()
            invariant
                k <= q@.len(),
                q@ == ls[i as int].orders,
                i < ls.len(),
                ls == sview(v@),
                crate::orderbook::book::find_in_queue(q@, id, k as int) == crate::orderbook::book::find_in_queue(q@, id, 0),
                crate::orderbook::book::find_in_side(ls, id, i as int) == crate::orderbook::book::find_in_side(ls, id, 0),
            decreases q@.len() - k,
        {
            if q[k].id == id {
                return Some(q[k]);
            }
            k += 1;
        }
        i += 1;
    }
    None
}

fn side_total(v: &Vec<Level>) -> (r: u64)
    requires
        depth_sum(sview(v@), v@.len() as int) <= u64::MAX,
    ensures
        r == depth_sum(sview(v@), v@.len() as int),
{
    let ghost ls = sview(v@);
    let mut total: u64 = 0;
    let mut i: usize = 0;
    while i < v.len()
        invariant
            i <= v@.len(),
            ls == sview(v@),
            total == depth_sum(ls, i as int),
            depth_sum(ls, v@.len() as int) <= u64::MAX,
        decreases v@.len() - i,
    {
        assert(ls[i as int] == lview(v@[i as int]));
        proof {
            lemma_depth_sum_monotone(ls, i as int + 1, v@.len() as int);
        }
        total = total + v[i].depth();
        i += 1;
    }
    total
}

pub proof fn lemma_depth_sum_monotone(ls: Seq<LevelView>, i: int, j: int)
    requires
        0 <= i <= j,
    ensures
        depth_sum(ls, i) <= depth_sum(ls, j),
    decreases j,
{
    if i < j {
        lemma_depth_sum_monotone(ls, i, j - 1);
    }
}

/// The estimate of a market order of `qty` against `v` from its best price
/// `best`: (remaining, cost, filled, worst price, levels) and the fills.
fn estimate_exec(v: &Vec<Level>, qty: u64, best: u128) -> (r: ((u64, u128, u64, u128, usize), Vec<(u128, u64)>))
    ensures
        ({
            let e = estimate_from(sview(v@), 0, estimate_start(qty, best));
            &&& r.0.0 == e.remaining
            &&& r.0.1 == e.cost
            &&& r.0.2 == e.filled
            &&& r.0.3 == e.worst
            &&& r.0.4 == e.levels
            &&& r.1@ == e.fills
        }),
{
    let ghost ls = sview(v@);
    let mut remaining = qty;
    let mut cost: u128 = 0;
    let mut filled: u64 = 0;
    let mut worst = best;
    let mut levels: usize = 0;
    let mut fills: Vec<(u128, u64)> = Vec::new();
    let mut i: usize = 0;
    while i < v.len() && remaining > 0
        invariant
            i <= v@.len(),
            ls == sview(v@),
            levels <= i,
            estimate_from(ls, i as int, SweepEstimate { remaining, cost, filled, worst, levels: levels as int, fills: fills@ })
                == estimate_from(ls, 0, estimate_start(qty, best)),
        decreases v@.len() - i,
    {
        assert(ls[i as int] == lview(v@[i as int]));
        let available = v[i].depth();
        if available > 0 {
            let price = v[i].price;
            let f = if remaining <= available { remaining } else { available };
            cost = cost.saturating_add(sat_mul_exec(price, f as u128));
            filled = filled.saturating_add(f);
            worst = price;
            levels = levels + 1;
            fills.push((price, f));
            remaining = remaining - f;
        }
        i += 1;
    }
    ((remaining, cost, filled, worst, levels), fills)
}

} // verus!
