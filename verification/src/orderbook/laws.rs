//! Laws of the order book: what every match and every admission keeps,
//! stated over the book's views and proved from the walk that matching
//! performs.

use crate::orderbook::book::{
    add_holds, better, cancel_view, find_in_side, find_order, find_price, insert_pos, match_holds, residual, rest_into, side_has_id, side_without, side_wf,
    walk_remaining, BookView, MatchResult,
};
use crate::orderbook::error::OrderBookError;
use crate::orderbook::level::{fills_total, queue_has_id, Fill};
use crate::orderbook::matching::{law_level_cap_within_budget, spec_level_qty_cap, MatchMode, StopCondition};
use crate::orderbook::stp::{stp_action, STPAction};
use crate::orderbook::types::{spec_opposite, total_of, Order, OrderKind, Side, TimeInForce};
use crate::orderbook::walk::{
    apply_match, beyond_limit, fills_to_trades, level_match, level_step, min_q, trades_total, walk, walkable, LevelView,
    Trade, WalkCtx, WalkView,
};
use vstd::prelude::*;

verus! {

/// The base quantity a walk has left.
pub open spec fn base_left(w: WalkView) -> int {
    w.stop->BaseQty_remaining as int
}

proof fn lemma_trades_total_append(a: Seq<Trade>, b: Seq<Trade>)
    ensures
        trades_total(a + b) == trades_total(a) + trades_total(b),
    decreases b.len(),
{
    if b.len() == 0 {
        assert(a + b =~= a);
    } else {
        assert((a + b).drop_last() =~= a + b.drop_last());
        lemma_trades_total_append(a, b.drop_last());
    }
}

/// The trades of a level's fills: one per fill, at the level's price,
/// carrying the walk's taker, and adding up to the fills.
proof fn lemma_fill_trades(f: Seq<Fill>, ctx: WalkCtx, price: u128)
    ensures
        trades_total(fills_to_trades(f, ctx, price)) == fills_total(f),
        fills_to_trades(f, ctx, price).len() == f.len(),
        forall|k: int| 0 <= k < f.len() ==> (#[trigger] fills_to_trades(f, ctx, price)[k]).price == price,
    decreases f.len(),
{
    if f.len() > 0 {
        lemma_fill_trades(f.drop_last(), ctx, price);
        let t = fills_to_trades(f, ctx, price);
        assert(t.drop_last() =~= fills_to_trades(f.drop_last(), ctx, price));
        assert forall|k: int| 0 <= k < f.len() implies (#[trigger] fills_to_trades(f, ctx, price)[k]).price == price by {
            if k < f.len() - 1 {
                assert(t[k] == t.drop_last()[k]);
            }
        }
    }
}

/// Sweeping a level for `qty` moves exactly what it fills from the budget
/// into the trades.
proof fn lemma_apply_conserves(l: LevelView, qty: u64, w: WalkView, ctx: WalkCtx)
    requires
        walkable(l, ctx),
        w.stop is BaseQty,
        qty <= base_left(w),
    ensures
        apply_match(l, qty, w, ctx).1.stop is BaseQty,
        trades_total(apply_match(l, qty, w, ctx).1.trades) + base_left(apply_match(l, qty, w, ctx).1)
            == trades_total(w.trades) + base_left(w),
{
    let m = level_match(l, qty, ctx.taker_id);
    if !queue_has_id(l.orders, ctx.taker_id) {
        crate::orderbook::level::lemma_sweep_facts(l.orders, qty, seq![], l.price, spec_opposite(ctx.side));
    }
    assert(fills_total(seq![]) == 0);
    assert(fills_total(m.1) == qty - m.2);
    lemma_fill_trades(m.1, ctx, l.price);
    lemma_trades_total_append(w.trades, fills_to_trades(m.1, ctx, l.price));
}

/// One level of a base-quantity walk moves exactly what it fills from the
/// budget into the trades.
proof fn lemma_step_conserves(l: LevelView, w: WalkView, ctx: WalkCtx)
    requires
        walkable(l, ctx),
        w.stop is BaseQty,
    ensures
        level_step(l, w, ctx).1.stop is BaseQty,
        trades_total(level_step(l, w, ctx).1.trades) + base_left(level_step(l, w, ctx).1)
            == trades_total(w.trades) + base_left(w),
{
    let cap = spec_level_qty_cap(w.stop, l.price, ctx.lot);
    law_level_cap_within_budget(w.stop, l.price, ctx.lot);
    if beyond_limit(ctx, l.price) || cap <= 0 {
    } else if ctx.stp {
        match stp_action(l.orders, ctx.user, ctx.mode) {
            STPAction::NoConflict => lemma_apply_conserves(l, cap as u64, w, ctx),
            STPAction::CancelTaker { safe_quantity } => {
                if min_q(cap as u64, safe_quantity) > 0 {
                    lemma_apply_conserves(l, min_q(cap as u64, safe_quantity), w, ctx);
                }
            },
            STPAction::CancelMaker => {
                let l1 = LevelView { price: l.price, orders: l.orders.filter(|o: Order| o.user_id != ctx.user) };
                crate::orderbook::walk::lemma_filter_queue(l.orders, |o: Order| o.user_id != ctx.user, l.price, spec_opposite(ctx.side));
                if l1.orders.len() > 0 {
                    lemma_apply_conserves(l1, cap as u64, w, ctx);
                }
            },
            STPAction::CancelBoth { safe_quantity, .. } => {
                if min_q(cap as u64, safe_quantity) > 0 {
                    lemma_apply_conserves(l, min_q(cap as u64, safe_quantity), w, ctx);
                }
            },
        }
    } else {
        lemma_apply_conserves(l, cap as u64, w, ctx);
    }
}

/// A base-quantity walk moves exactly what it fills from the budget into
/// the trades.
proof fn lemma_walk_conserves(ls: Seq<LevelView>, i: int, done: Seq<LevelView>, w: WalkView, ctx: WalkCtx)
    requires
        forall|k: int| 0 <= k < ls.len() ==> walkable(#[trigger] ls[k], ctx),
        w.stop is BaseQty,
    ensures
        walk(ls, i, done, w, ctx).1.stop is BaseQty,
        trades_total(walk(ls, i, done, w, ctx).1.trades) + base_left(walk(ls, i, done, w, ctx).1)
            == trades_total(w.trades) + base_left(w),
    decreases ls.len() - i,
{
    if 0 <= i < ls.len() {
        lemma_step_conserves(ls[i], w, ctx);
        let (k, w2, cont) = level_step(ls[i], w, ctx);
        let done2 = match k {
            Some(l) => done.push(l),
            None => done,
        };
        if cont {
            lemma_walk_conserves(ls, i + 1, done2, w2, ctx);
        }
    }
}

/// Every level of a well-formed side may enter a walk from the other side.
proof fn lemma_side_walkable(ls: Seq<LevelView>, ctx: WalkCtx)
    requires
        side_wf(ls, spec_opposite(ctx.side)),
    ensures
        forall|k: int| 0 <= k < ls.len() ==> walkable(#[trigger] ls[k], ctx),
{
}

/// Law: a match by quantity conserves quantity: what its trades fill plus
/// what it reports unfilled is exactly the quantity asked for.
pub proof fn law_match_conserves_quantity(
    v0: BookView,
    v1: BookView,
    side: Side,
    quantity: u64,
    limit_price: Option<u128>,
    id: u128,
    user: u128,
    r: Result<MatchResult, OrderBookError>,
)
    requires
        v0.wf(),
        match_holds(v0, v1, side, MatchMode::BaseQty { quantity, limit_price }, id, user, r),
    ensures
        r matches Ok(m) ==> m.remaining_quantity + trades_total(m.trades@) == quantity,
{
    let ctx = v0.walk_ctx(side, limit_price, id, user);
    let ls = v0.side_levels(spec_opposite(side));
    lemma_side_walkable(ls, ctx);
    let w0 = crate::orderbook::book::walk_start(MatchMode::BaseQty { quantity, limit_price });
    lemma_walk_conserves(ls, 0, seq![], w0, ctx);
    assert(trades_total(seq![]) == 0);
}

/// The quote notional of a sequence of trades: each trade's price times its
/// quantity, summed.
pub open spec fn trades_notional(t: Seq<Trade>) -> int
    decreases t.len(),
{
    if t.len() == 0 {
        0
    } else {
        trades_notional(t.drop_last()) + t.last().price * t.last().quantity
    }
}

/// The notional a walk has left to spend.
pub open spec fn quote_left(w: WalkView) -> int {
    w.stop->QuoteAmount_remaining as int
}

proof fn lemma_trades_notional_append(a: Seq<Trade>, b: Seq<Trade>)
    ensures
        trades_notional(a + b) == trades_notional(a) + trades_notional(b),
    decreases b.len(),
{
    if b.len() == 0 {
        assert(a + b =~= a);
    } else {
        assert((a + b).drop_last() =~= a + b.drop_last());
        lemma_trades_notional_append(a, b.drop_last());
    }
}

/// Trades all at one price have that price times their total quantity as
/// notional.
proof fn lemma_uniform_notional(t: Seq<Trade>, price: u128)
    requires
        forall|k: int| 0 <= k < t.len() ==> (#[trigger] t[k]).price == price,
    ensures
        trades_notional(t) == price * trades_total(t),
    decreases t.len(),
{
    if t.len() > 0 {
        let d = t.drop_last();
        assert forall|k: int| 0 <= k < d.len() implies (#[trigger] d[k]).price == price by {
            assert(d[k] == t[k]);
        }
        lemma_uniform_notional(d, price);
        let q = t.last().quantity as int;
        let a = trades_total(d);
        assert(price * (a + q) == price * a + price * q) by (nonlinear_arith);
    }
}

/// Sweeping a level for `qty`, when `qty` at the level's price fits the
/// notional budget, moves exactly what it spends from the budget into the
/// trades' notional.
proof fn lemma_apply_spends(l: LevelView, qty: u64, w: WalkView, ctx: WalkCtx)
    requires
        walkable(l, ctx),
        w.stop is QuoteAmount,
        qty * l.price <= quote_left(w),
    ensures
        apply_match(l, qty, w, ctx).1.stop is QuoteAmount,
        trades_notional(apply_match(l, qty, w, ctx).1.trades) + quote_left(apply_match(l, qty, w, ctx).1)
            == trades_notional(w.trades) + quote_left(w),
{
    let m = level_match(l, qty, ctx.taker_id);
    if !queue_has_id(l.orders, ctx.taker_id) {
        crate::orderbook::level::lemma_sweep_facts(l.orders, qty, seq![], l.price, spec_opposite(ctx.side));
    }
    assert(fills_total(seq![]) == 0);
    assert(fills_total(m.1) == qty - m.2);
    lemma_fill_trades(m.1, ctx, l.price);
    let ft = fills_to_trades(m.1, ctx, l.price);
    lemma_uniform_notional(ft, l.price);
    lemma_trades_notional_append(w.trades, ft);
    let e = qty - m.2;
    assert(0 <= e <= qty);
    assert(l.price * e <= qty * l.price) by (nonlinear_arith)
        requires
            0 <= e <= qty,
    ;
}

/// One level of a notional walk moves exactly what it spends from the
/// budget into the trades' notional.
proof fn lemma_step_spends(l: LevelView, w: WalkView, ctx: WalkCtx)
    requires
        walkable(l, ctx),
        w.stop is QuoteAmount,
    ensures
        level_step(l, w, ctx).1.stop is QuoteAmount,
        trades_notional(level_step(l, w, ctx).1.trades) + quote_left(level_step(l, w, ctx).1)
            == trades_notional(w.trades) + quote_left(w),
{
    let cap = spec_level_qty_cap(w.stop, l.price, ctx.lot);
    law_level_cap_within_budget(w.stop, l.price, ctx.lot);
    if beyond_limit(ctx, l.price) || cap <= 0 {
    } else if ctx.stp {
        match stp_action(l.orders, ctx.user, ctx.mode) {
            STPAction::NoConflict => lemma_apply_spends(l, cap as u64, w, ctx),
            STPAction::CancelTaker { safe_quantity } => {
                let q = min_q(cap as u64, safe_quantity);
                if q > 0 {
                    assert(q * l.price <= cap * l.price) by (nonlinear_arith)
                        requires
                            0 <= q <= cap,
                    ;
                    lemma_apply_spends(l, q, w, ctx);
                }
            },
            STPAction::CancelMaker => {
                let l1 = LevelView { price: l.price, orders: l.orders.filter(|o: Order| o.user_id != ctx.user) };
                crate::orderbook::walk::lemma_filter_queue(l.orders, |o: Order| o.user_id != ctx.user, l.price, spec_opposite(ctx.side));
                if l1.orders.len() > 0 {
                    lemma_apply_spends(l1, cap as u64, w, ctx);
                }
            },
            STPAction::CancelBoth { safe_quantity, .. } => {
                let q = min_q(cap as u64, safe_quantity);
                if q > 0 {
                    assert(q * l.price <= cap * l.price) by (nonlinear_arith)
                        requires
                            0 <= q <= cap,
                    ;
                    lemma_apply_spends(l, q, w, ctx);
                }
            },
        }
    } else {
        lemma_apply_spends(l, cap as u64, w, ctx);
    }
}

/// A notional walk moves exactly what it spends from the budget into the
/// trades' notional.
proof fn lemma_walk_spends(ls: Seq<LevelView>, i: int, done: Seq<LevelView>, w: WalkView, ctx: WalkCtx)
    requires
        forall|k: int| 0 <= k < ls.len() ==> walkable(#[trigger] ls[k], ctx),
        w.stop is QuoteAmount,
    ensures
        walk(ls, i, done, w, ctx).1.stop is QuoteAmount,
        trades_notional(walk(ls, i, done, w, ctx).1.trades) + quote_left(walk(ls, i, done, w, ctx).1)
            == trades_notional(w.trades) + quote_left(w),
    decreases ls.len() - i,
{
    if 0 <= i < ls.len() {
        lemma_step_spends(ls[i], w, ctx);
        let (k, w2, cont) = level_step(ls[i], w, ctx);
        let done2 = match k {
            Some(l) => done.push(l),
            None => done,
        };
        if cont {
            lemma_walk_spends(ls, i + 1, done2, w2, ctx);
        }
    }
}

/// Law: a match by notional amount never spends more than the amount: the
/// notional of its trades plus what is left unspent is exactly the amount,
/// and it reports nothing unfilled.
pub proof fn law_notional_match_within_amount(
    v0: BookView,
    v1: BookView,
    side: Side,
    amount: u128,
    id: u128,
    user: u128,
    r: Result<MatchResult, OrderBookError>,
)
    requires
        v0.wf(),
        match_holds(v0, v1, side, MatchMode::QuoteAmount { amount }, id, user, r),
    ensures
        r matches Ok(m) ==> m.remaining_quantity == 0 && trades_notional(m.trades@) <= amount,
        ({
            let w = v0.spec_walk(side, MatchMode::QuoteAmount { amount }, id, user).1;
            trades_notional(w.trades) + quote_left(w) == amount
        }),
{
    let ctx = v0.walk_ctx(side, None, id, user);
    let ls = v0.side_levels(spec_opposite(side));
    lemma_side_walkable(ls, ctx);
    let w0 = crate::orderbook::book::walk_start(MatchMode::QuoteAmount { amount });
    lemma_walk_spends(ls, 0, seq![], w0, ctx);
    assert(trades_notional(seq![]) == 0);
}

/// Law: an admitted order conserves quantity: what its trades fill plus
/// what it reports unfilled is exactly its total.
pub proof fn law_add_conserves_quantity(
    v0: BookView,
    v1: BookView,
    order: Order,
    r: Result<(Order, Option<MatchResult>), OrderBookError>,
    now: u64,
)
    requires
        v0.wf(),
        add_holds(v0, v1, order, r, now),
    ensures
        r matches Ok((_, Some(m))) ==> m.remaining_quantity + trades_total(m.trades@) == total_of(order),
{
    if v0.spec_admission(order, now) is Accept {
        let ctx = v0.walk_ctx(order.side, Some(order.price), order.id, order.user_id);
        let ls = v0.side_levels(spec_opposite(order.side));
        lemma_side_walkable(ls, ctx);
        let w0 = crate::orderbook::book::walk_start(MatchMode::BaseQty {
            quantity: total_of(order) as u64,
            limit_price: Some(order.price),
        });
        lemma_walk_conserves(ls, 0, seq![], w0, ctx);
        assert(trades_total(seq![]) == 0);
    }
}

/// All trades of `t` are at prices no worse than `p` for a taker on
/// `side`, and among themselves in the order the book offers them.
pub open spec fn trades_in_priority(t: Seq<Trade>, side: Side) -> bool {
    forall|a: int, b: int| 0 <= a < b < t.len() ==> !better(spec_opposite(side), #[trigger] t[b].price, #[trigger] t[a].price)
}

/// No trade of `t` is priced beyond the walk's limit.
pub open spec fn trades_within(t: Seq<Trade>, ctx: WalkCtx) -> bool {
    forall|a: int| 0 <= a < t.len() ==> !beyond_limit(ctx, #[trigger] t[a].price)
}

/// No trade of `t` is at a better price for the book than `p`.
pub open spec fn trades_not_after(t: Seq<Trade>, side: Side, p: u128) -> bool {
    forall|a: int| 0 <= a < t.len() ==> !better(spec_opposite(side), p, #[trigger] t[a].price)
}

/// Appending the trades of a level to a walk's trades.
proof fn lemma_append_level_trades(t: Seq<Trade>, f: Seq<Fill>, ctx: WalkCtx, p: u128)
    requires
        trades_in_priority(t, ctx.side),
        trades_not_after(t, ctx.side, p),
        trades_within(t, ctx),
        !beyond_limit(ctx, p),
    ensures
        trades_in_priority(t + fills_to_trades(f, ctx, p), ctx.side),
        trades_within(t + fills_to_trades(f, ctx, p), ctx),
        forall|a: int| #![trigger (t + fills_to_trades(f, ctx, p))[a]]
            0 <= a < (t + fills_to_trades(f, ctx, p)).len() ==> (t + fills_to_trades(f, ctx, p))[a].price == p
                || (a < t.len() && (t + fills_to_trades(f, ctx, p))[a] == t[a]),
{
    lemma_fill_trades(f, ctx, p);
    let n = t + fills_to_trades(f, ctx, p);
    assert forall|a: int| 0 <= a < n.len() implies #[trigger] n[a].price == p || (a < t.len() && n[a] == t[a]) by {
        if a >= t.len() {
            assert(n[a] == fills_to_trades(f, ctx, p)[a - t.len()]);
        }
    }
    assert forall|a: int, b: int| 0 <= a < b < n.len() implies !better(spec_opposite(ctx.side), #[trigger] n[b].price, #[trigger] n[a].price) by {
        if b < t.len() {
            assert(n[a] == t[a] && n[b] == t[b]);
        } else if a < t.len() {
            assert(n[a] == t[a]);
            assert(n[b] == fills_to_trades(f, ctx, p)[b - t.len()]);
        } else {
            assert(n[a] == fills_to_trades(f, ctx, p)[a - t.len()]);
            assert(n[b] == fills_to_trades(f, ctx, p)[b - t.len()]);
        }
    }
    assert forall|a: int| 0 <= a < n.len() implies !beyond_limit(ctx, #[trigger] n[a].price) by {
        if a < t.len() {
            assert(n[a] == t[a]);
        } else {
            assert(n[a] == fills_to_trades(f, ctx, p)[a - t.len()]);
        }
    }
}

/// One level step keeps the trades within the limit and in price priority,
/// and every new trade is at the level's price.
proof fn lemma_step_priority(l: LevelView, w: WalkView, ctx: WalkCtx)
    requires
        trades_in_priority(w.trades, ctx.side),
        trades_not_after(w.trades, ctx.side, l.price),
        trades_within(w.trades, ctx),
    ensures
        trades_in_priority(level_step(l, w, ctx).1.trades, ctx.side),
        trades_within(level_step(l, w, ctx).1.trades, ctx),
        forall|a: int| #![trigger level_step(l, w, ctx).1.trades[a]]
            0 <= a < level_step(l, w, ctx).1.trades.len() ==> level_step(l, w, ctx).1.trades[a].price == l.price
                || (a < w.trades.len() && level_step(l, w, ctx).1.trades[a] == w.trades[a]),
{
    let cap = spec_level_qty_cap(w.stop, l.price, ctx.lot);
    if beyond_limit(ctx, l.price) || cap <= 0 {
    } else if ctx.stp {
        match stp_action(l.orders, ctx.user, ctx.mode) {
            STPAction::NoConflict => {
                lemma_append_level_trades(w.trades, level_match(l, cap as u64, ctx.taker_id).1, ctx, l.price);
            },
            STPAction::CancelTaker { safe_quantity } => {
                if min_q(cap as u64, safe_quantity) > 0 {
                    lemma_append_level_trades(w.trades, level_match(l, min_q(cap as u64, safe_quantity), ctx.taker_id).1, ctx, l.price);
                }
            },
            STPAction::CancelMaker => {
                let l1 = LevelView { price: l.price, orders: l.orders.filter(|o: Order| o.user_id != ctx.user) };
                if l1.orders.len() > 0 {
                    lemma_append_level_trades(w.trades, level_match(l1, cap as u64, ctx.taker_id).1, ctx, l.price);
                }
            },
            STPAction::CancelBoth { safe_quantity, .. } => {
                if min_q(cap as u64, safe_quantity) > 0 {
                    lemma_append_level_trades(w.trades, level_match(l, min_q(cap as u64, safe_quantity), ctx.taker_id).1, ctx, l.price);
                }
            },
        }
    } else {
        lemma_append_level_trades(w.trades, level_match(l, cap as u64, ctx.taker_id).1, ctx, l.price);
    }
}

/// A walk over a side in price priority keeps its trades within the limit
/// and in price priority.
proof fn lemma_walk_priority(ls: Seq<LevelView>, i: int, done: Seq<LevelView>, w: WalkView, ctx: WalkCtx)
    requires
        0 <= i,
        forall|a: int, b: int| 0 <= a < b < ls.len() ==> better(spec_opposite(ctx.side), (#[trigger] ls[a]).price, (#[trigger] ls[b]).price),
        trades_in_priority(w.trades, ctx.side),
        trades_within(w.trades, ctx),
        i < ls.len() ==> trades_not_after(w.trades, ctx.side, ls[i].price),
    ensures
        trades_in_priority(walk(ls, i, done, w, ctx).1.trades, ctx.side),
        trades_within(walk(ls, i, done, w, ctx).1.trades, ctx),
    decreases ls.len() - i,
{
    if 0 <= i < ls.len() {
        lemma_step_priority(ls[i], w, ctx);
        let (k, w2, cont) = level_step(ls[i], w, ctx);
        let done2 = match k {
            Some(l) => done.push(l),
            None => done,
        };
        if cont && i + 1 < ls.len() {
            let opp = spec_opposite(ctx.side);
            assert(better(opp, ls[i].price, ls[i + 1].price));
            assert forall|a: int| 0 <= a < w2.trades.len() implies !better(opp, ls[i + 1].price, #[trigger] w2.trades[a].price) by {
                if w2.trades[a].price != ls[i].price {
                    assert(a < w.trades.len() && w2.trades[a] == w.trades[a]);
                }
            }
            lemma_walk_priority(ls, i + 1, done2, w2, ctx);
        } else if cont {
            lemma_walk_priority(ls, i + 1, done2, w2, ctx);
        }
    }
}

/// Law: a match fills in price priority — each trade at a price no worse
/// for the taker than the one before — and never beyond its limit price.
pub proof fn law_match_price_priority(
    v0: BookView,
    v1: BookView,
    side: Side,
    quantity: u64,
    limit_price: Option<u128>,
    id: u128,
    user: u128,
    r: Result<MatchResult, OrderBookError>,
)
    requires
        v0.wf(),
        match_holds(v0, v1, side, MatchMode::BaseQty { quantity, limit_price }, id, user, r),
    ensures
        r matches Ok(m) ==> {
            &&& forall|a: int, b: int| 0 <= a < b < m.trades@.len() ==> (side == Side::Buy ==> (#[trigger] m.trades@[a]).price <= (#[trigger] m.trades@[b]).price)
                && (side == Side::Sell ==> m.trades@[a].price >= m.trades@[b].price)
            &&& forall|a: int| 0 <= a < m.trades@.len() ==> (limit_price matches Some(lim) ==> ((side == Side::Buy ==> (#[trigger] m.trades@[a]).price <= lim)
                && (side == Side::Sell ==> m.trades@[a].price >= lim)))
        },
{
    let ctx = v0.walk_ctx(side, limit_price, id, user);
    let ls = v0.side_levels(spec_opposite(side));
    let w0 = crate::orderbook::book::walk_start(MatchMode::BaseQty { quantity, limit_price });
    lemma_walk_priority(ls, 0, seq![], w0, ctx);
}

/// Law: a match by notional amount also fills in price priority: each trade
/// at a price no worse for the taker than the one before.
pub proof fn law_notional_match_price_priority(
    v0: BookView,
    v1: BookView,
    side: Side,
    amount: u128,
    id: u128,
    user: u128,
    r: Result<MatchResult, OrderBookError>,
)
    requires
        v0.wf(),
        match_holds(v0, v1, side, MatchMode::QuoteAmount { amount }, id, user, r),
    ensures
        r matches Ok(m) ==> forall|a: int, b: int|
            0 <= a < b < m.trades@.len() ==> (side == Side::Buy ==> (#[trigger] m.trades@[a]).price <= (
            #[trigger] m.trades@[b]).price) && (side == Side::Sell ==> m.trades@[a].price >= m.trades@[b].price),
{
    let ctx = v0.walk_ctx(side, None, id, user);
    let ls = v0.side_levels(spec_opposite(side));
    let w0 = crate::orderbook::book::walk_start(MatchMode::QuoteAmount { amount });
    lemma_walk_priority(ls, 0, seq![], w0, ctx);
}

/// Law: an admitted order trades in price priority and never at a price
/// worse for it than its own.
pub proof fn law_add_price_priority(
    v0: BookView,
    v1: BookView,
    order: Order,
    r: Result<(Order, Option<MatchResult>), OrderBookError>,
    now: u64,
)
    requires
        v0.wf(),
        add_holds(v0, v1, order, r, now),
    ensures
        r matches Ok((_, Some(m))) ==> {
            &&& forall|a: int, b: int| 0 <= a < b < m.trades@.len() ==> (order.side == Side::Buy ==> (#[trigger] m.trades@[a]).price <= (#[trigger] m.trades@[b]).price)
                && (order.side == Side::Sell ==> m.trades@[a].price >= m.trades@[b].price)
            &&& forall|a: int| 0 <= a < m.trades@.len() ==> (order.side == Side::Buy ==> (#[trigger] m.trades@[a]).price <= order.price)
                && (order.side == Side::Sell ==> m.trades@[a].price >= order.price)
        },
{
    if v0.spec_admission(order, now) is Accept {
        let ctx = v0.walk_ctx(order.side, Some(order.price), order.id, order.user_id);
        let ls = v0.side_levels(spec_opposite(order.side));
        let w0 = crate::orderbook::book::walk_start(MatchMode::BaseQty {
            quantity: total_of(order) as u64,
            limit_price: Some(order.price),
        });
        lemma_walk_priority(ls, 0, seq![], w0, ctx);
    }
}

/// A walk whose first level lies beyond the limit, or that has no level,
/// leaves the side and the walk as they were.
proof fn lemma_walk_blocked(ls: Seq<LevelView>, w: WalkView, ctx: WalkCtx)
    requires
        ls.len() == 0 || beyond_limit(ctx, ls[0].price),
    ensures
        walk(ls, 0, seq![], w, ctx) == (ls, w),
{
    if ls.len() > 0 {
        assert(seq![ls[0]] + ls.subrange(1, ls.len() as int) =~= ls);
        assert(Seq::<LevelView>::empty().push(ls[0]) =~= seq![ls[0]]);
    } else {
        assert(ls =~= Seq::<LevelView>::empty());
    }
}

/// Law: a post-only order never trades: when admitted it reports no match
/// and leaves the opposite side as it was.
pub proof fn law_post_only_never_trades(
    v0: BookView,
    v1: BookView,
    order: Order,
    r: Result<(Order, Option<MatchResult>), OrderBookError>,
    now: u64,
)
    requires
        v0.wf(),
        order.kind is PostOnly,
        add_holds(v0, v1, order, r, now),
    ensures
        r matches Ok((_, mr)) ==> mr is None,
        v1.side_levels(spec_opposite(order.side)) == v0.side_levels(spec_opposite(order.side)),
{
    if v0.spec_admission(order, now) is Accept {
        assert(v0.spec_validate(order, now) is Accept);
        assert(!v0.spec_will_cross(order.price, order.side));
        let ctx = v0.walk_ctx(order.side, Some(order.price), order.id, order.user_id);
        let ls = v0.side_levels(spec_opposite(order.side));
        let w0 = crate::orderbook::book::walk_start(MatchMode::BaseQty {
            quantity: total_of(order) as u64,
            limit_price: Some(order.price),
        });
        lemma_walk_blocked(ls, w0, ctx);
    }
}

/// Law: an immediate-or-cancel or fill-or-kill order never rests: its own
/// side is the same after its admission, whatever the outcome.
pub proof fn law_immediate_orders_never_rest(
    v0: BookView,
    v1: BookView,
    order: Order,
    r: Result<(Order, Option<MatchResult>), OrderBookError>,
    now: u64,
)
    requires
        order.time_in_force is Ioc || order.time_in_force is Fok,
        add_holds(v0, v1, order, r, now),
    ensures
        v1.side_levels(order.side) == v0.side_levels(order.side),
{
}

/// Law: an admitted fill-or-kill order fills completely: its walk leaves
/// nothing unfilled and any match it reports has no remainder.
pub proof fn law_fill_or_kill_fills_completely(
    v0: BookView,
    v1: BookView,
    order: Order,
    r: Result<(Order, Option<MatchResult>), OrderBookError>,
    now: u64,
)
    requires
        order.time_in_force is Fok,
        add_holds(v0, v1, order, r, now),
        r is Ok,
    ensures
        walk_remaining(v0.spec_add_walk(order).1) == 0,
        r matches Ok((_, Some(m))) ==> m.remaining_quantity == 0,
{
    assert(v0.spec_admission(order, now) is Accept);
    assert(v0.spec_validate(order, now) is Accept);
    let total = total_of(order);
    let ctx = v0.walk_ctx(order.side, Some(order.price), order.id, order.user_id);
    let ls = v0.side_levels(spec_opposite(order.side));
    let w0 = crate::orderbook::book::walk_start(MatchMode::BaseQty { quantity: total as u64, limit_price: Some(order.price) });
    crate::orderbook::book::lemma_walk_base(ls, 0, seq![], w0, ctx);
    assert(v0.spec_fok_fillable(order) >= total);
}

/// A side keeps every order but those with `id` when they are removed.
proof fn lemma_side_without_keeps(ls: Seq<LevelView>, id: u128, x: u128)
    requires
        x != id,
        side_has_id(ls, x),
    ensures
        side_has_id(side_without(ls, id), x),
    decreases ls.len(),
{
    let (i, k) = choose|i: int, k: int| 0 <= i < ls.len() && 0 <= k < ls[i].orders.len() && (#[trigger] ls[i].orders[k]).id == x;
    let prev = side_without(ls.drop_last(), id);
    let q = ls.last().orders.filter(|o: Order| o.id != id);
    if i < ls.len() - 1 {
        assert(ls.drop_last()[i] == ls[i]);
        assert(ls.drop_last()[i].orders[k].id == x);
        lemma_side_without_keeps(ls.drop_last(), id, x);
        let (i2, k2) = choose|i2: int, k2: int| 0 <= i2 < prev.len() && 0 <= k2 < prev[i2].orders.len() && (#[trigger] prev[i2].orders[k2]).id == x;
        if q.len() > 0 {
            let s = prev.push(LevelView { price: ls.last().price, orders: q });
            assert(s[i2] == prev[i2]);
            assert(s[i2].orders[k2].id == x);
        }
    } else {
        ls.last().orders.lemma_filter_contains(|o: Order| o.id != id, k);
        let j = choose|j: int| 0 <= j < q.len() && q[j] == ls.last().orders[k];
        let s = prev.push(LevelView { price: ls.last().price, orders: q });
        assert(s[prev.len() as int].orders[j].id == x);
    }
}

/// Law: cancelling an order removes it and nothing else: the book stays
/// well formed, the id no longer rests, every other id rests exactly when
/// it did before, and cancelling again changes nothing.
pub proof fn law_cancel_removes_only_target(v: BookView, id: u128, other: u128)
    requires
        v.wf(),
    ensures
        cancel_view(v, id).wf(),
        !cancel_view(v, id).has_order_id(id),
        other != id ==> (cancel_view(v, id).has_order_id(other) <==> v.has_order_id(other)),
        cancel_view(cancel_view(v, id), id) == cancel_view(v, id),
{
    let c = cancel_view(v, id);
    crate::orderbook::book::lemma_side_without(v.bids, id, Side::Buy);
    crate::orderbook::book::lemma_side_without(v.asks, id, Side::Sell);
    if other != id {
        if side_has_id(v.bids, other) {
            lemma_side_without_keeps(v.bids, id, other);
        }
        if side_has_id(v.asks, other) {
            lemma_side_without_keeps(v.asks, id, other);
        }
    }
    assert forall|a: int, b: int| 0 <= a < c.bids.len() && 0 <= b < c.bids[a].orders.len() implies (#[trigger] c.bids[a].orders[b]).id != id by {}
    assert forall|a: int, b: int| 0 <= a < c.asks.len() && 0 <= b < c.asks[a].orders.len() implies (#[trigger] c.asks[a].orders[b]).id != id by {}
    crate::orderbook::book::lemma_side_without_absent(c.bids, id);
    crate::orderbook::book::lemma_side_without_absent(c.asks, id);
}


/// Removing an id distributes over the concatenation of two sides.
proof fn lemma_side_without_append(a: Seq<LevelView>, b: Seq<LevelView>, id: u128)
    ensures
        side_without(a + b, id) == side_without(a, id) + side_without(b, id),
    decreases b.len(),
{
    if b.len() == 0 {
        assert(a + b =~= a);
        assert(side_without(a, id) + side_without(b, id) =~= side_without(a, id));
    } else {
        assert((a + b).drop_last() =~= a + b.drop_last());
        assert((a + b).last() == b.last());
        lemma_side_without_append(a, b.drop_last(), id);
        let q = b.last().orders.filter(|o: Order| o.id != id);
        if q.len() > 0 {
            let l = LevelView { price: b.last().price, orders: q };
            assert((side_without(a, id) + side_without(b.drop_last(), id)).push(l) =~= side_without(a, id) + side_without(
                b.drop_last(),
                id,
            ).push(l));
        }
    }
}

/// Removing an order from the side it was just rested on, where its id did
/// not rest before, gives back the side.
proof fn lemma_without_after_rest(ls: Seq<LevelView>, o: Order, side: Side)
    requires
        side_wf(ls, side),
        !side_has_id(ls, o.id),
    ensures
        side_without(rest_into(ls, o, side), o.id) == ls,
{
    let id = o.id;
    let pred = |x: Order| x.id != id;
    crate::orderbook::book::lemma_find_price(ls, o.price, 0);
    crate::orderbook::book::lemma_insert_pos(ls, o.price, side, 0);
    let k = find_price(ls, o.price, 0);
    let n = ls.len() as int;
    let j = if k < n { k } else { insert_pos(ls, o.price, side, 0) };
    let a = ls.subrange(0, j);
    let b = if k < n { ls.subrange(j + 1, n) } else { ls.subrange(j, n) };
    assert forall|x: int, y: int| 0 <= x < a.len() && 0 <= y < a[x].orders.len() implies (#[trigger] a[x].orders[y]).id != id by {
        assert(a[x] == ls[x]);
    }
    assert forall|x: int| 0 <= x < a.len() implies (#[trigger] a[x]).orders.len() > 0 by {
        assert(a[x] == ls[x]);
    }
    crate::orderbook::book::lemma_side_without_absent(a, id);
    let off = if k < n { j + 1 } else { j };
    assert forall|x: int, y: int| 0 <= x < b.len() && 0 <= y < b[x].orders.len() implies (#[trigger] b[x].orders[y]).id != id by {
        assert(b[x] == ls[x + off]);
    }
    assert forall|x: int| 0 <= x < b.len() implies (#[trigger] b[x]).orders.len() > 0 by {
        assert(b[x] == ls[x + off]);
    }
    crate::orderbook::book::lemma_side_without_absent(b, id);
    if k < n {
        let q = ls[k].orders;
        let l2 = LevelView { price: ls[k].price, orders: q.push(o) };
        assert(rest_into(ls, o, side) =~= a + seq![l2] + b);
        q.lemma_filter_push(o, pred);
        assert forall|y: int| 0 <= y < q.len() implies pred(#[trigger] q[y]) by {
            assert(ls[k].orders[y].id != id);
        }
        crate::orderbook::book::lemma_filter_all(q, pred);
        assert(seq![l2].drop_last() =~= Seq::<LevelView>::empty());
        assert(side_without(Seq::<LevelView>::empty(), id) =~= Seq::<LevelView>::empty());
        assert(seq![l2].last() == l2);
        assert(l2.orders.filter(pred) == q);
        assert(Seq::<LevelView>::empty().push(ls[k]) =~= seq![ls[k]]);
        assert(side_without(seq![l2], id) =~= seq![ls[k]]);
        lemma_side_without_append(a, seq![l2], id);
        lemma_side_without_append(a + seq![l2], b, id);
        assert(a + seq![ls[k]] + b =~= ls);
    } else {
        let l2 = LevelView { price: o.price, orders: seq![o] };
        assert(rest_into(ls, o, side) =~= a + seq![l2] + b);
        Seq::<Order>::empty().lemma_filter_push(o, pred);
        assert(seq![o] =~= Seq::<Order>::empty().push(o));
        assert(Seq::<Order>::empty().filter(pred) =~= Seq::<Order>::empty()) by {
            reveal(Seq::filter);
        }
        assert(seq![l2].drop_last() =~= Seq::<LevelView>::empty());
        assert(side_without(Seq::<LevelView>::empty(), id) =~= Seq::<LevelView>::empty());
        assert(seq![l2].last() == l2);
        assert(l2.orders.filter(pred).len() == 0);
        assert(side_without(seq![l2], id) =~= Seq::<LevelView>::empty());
        lemma_side_without_append(a, seq![l2], id);
        lemma_side_without_append(a + seq![l2], b, id);
        assert(a + Seq::<LevelView>::empty() + b =~= ls);
    }
}

/// Law: cancelling an order right after its admission gives back the side it
/// would rest on, whatever the admission did: where it rested, the cancel
/// removes exactly it; where it did not, nothing with its id is there. A
/// post-only order never trades, so cancelling it gives back the whole book.
pub proof fn law_cancel_undoes_resting(
    v0: BookView,
    v1: BookView,
    order: Order,
    r: Result<(Order, Option<MatchResult>), OrderBookError>,
    now: u64,
)
    requires
        v0.wf(),
        !v0.has_order_id(order.id),
        add_holds(v0, v1, order, r, now),
    ensures
        side_without(v1.side_levels(order.side), order.id) == v0.side_levels(order.side),
        order.kind is PostOnly ==> cancel_view(v1, order.id).bids == v0.bids && cancel_view(v1, order.id).asks
            == v0.asks,
{
    let same = v0.side_levels(order.side);
    let opp = v0.side_levels(spec_opposite(order.side));
    assert(side_wf(same, order.side));
    assert(!side_has_id(same, order.id));
    assert forall|x: int, y: int| 0 <= x < same.len() && 0 <= y < same[x].orders.len() implies (#[trigger] same[x].orders[y]).id != order.id by {
        if same[x].orders[y].id == order.id {
            assert(side_has_id(same, order.id));
        }
    }
    crate::orderbook::book::lemma_side_without_absent(same, order.id);
    if v0.spec_admission(order, now) is Accept {
        let w = v0.spec_add_walk(order).1;
        let o2 = residual(order, walk_remaining(w));
        if v1.side_levels(order.side) != same {
            assert(v1.side_levels(order.side) == rest_into(same, o2, order.side));
            assert(o2.id == order.id);
            lemma_without_after_rest(same, o2, order.side);
        }
    }
    if order.kind is PostOnly {
        law_post_only_never_trades(v0, v1, order, r, now);
        assert(side_wf(opp, spec_opposite(order.side)));
        assert forall|x: int, y: int| 0 <= x < opp.len() && 0 <= y < opp[x].orders.len() implies (#[trigger] opp[x].orders[y]).id != order.id by {
            if opp[x].orders[y].id == order.id {
                assert(side_has_id(opp, order.id));
            }
        }
        crate::orderbook::book::lemma_side_without_absent(opp, order.id);
    }
}

/// Law: once an order is cancelled, cancelling it again finds nothing and
/// changes nothing, whatever the reason.
pub proof fn law_second_cancel_finds_nothing(v: BookView, id: u128)
    requires
        v.wf(),
    ensures
        find_order(cancel_view(v, id), id) is None,
        cancel_view(cancel_view(v, id), id) == cancel_view(v, id),
{
    law_cancel_removes_only_target(v, id, id);
    let c = cancel_view(v, id);
    crate::orderbook::book::lemma_find_in_side(c.bids, id, 0);
    crate::orderbook::book::lemma_find_in_side(c.asks, id, 0);
    if let Some(o) = find_in_side(c.bids, id, 0) {
        let (a, b) = choose|a: int, b: int| 0 <= a < c.bids.len() && 0 <= b < c.bids[a].orders.len() && c.bids[a].orders[b] == o;
        assert(side_has_id(c.bids, id));
    }
    if let Some(o) = find_in_side(c.asks, id, 0) {
        let (a, b) = choose|a: int, b: int| 0 <= a < c.asks.len() && 0 <= b < c.asks[a].orders.len() && c.asks[a].orders[b] == o;
        assert(side_has_id(c.asks, id));
    }
}

} // verus!
