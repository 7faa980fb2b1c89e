//! The order book: two sides of price levels in price-time priority, the
//! book's admission rules, and the matching entry points.

use crate::orderbook::clock::{Clock, MonotonicClock};
use crate::orderbook::order_state::{filled_before, transitioned, CancelReason, OrderStateTracker, OrderStatus};
use crate::orderbook::reject_reason::RejectReason;
use crate::orderbook::error::OrderBookError;
use crate::orderbook::fees::FeeSchedule;
use crate::orderbook::level::{ids_distinct, queue_depth, queue_ok, queue_total, Level};
use crate::orderbook::matching::{MatchMode, StopCondition};
use crate::orderbook::order::OrderQuantity;
use crate::orderbook::text::push_str;
use crate::orderbook::types::{spec_opposite, Order, OrderKind, STPMode, Side};
use crate::orderbook::walk::{
    kept, level_step, lview, sview, walk, walk_exec, walkable, LevelView, Trade, WalkCtx,
    WalkState, WalkView,
};
use vstd::prelude::*;

verus! {

/// Whether price `a` has priority over price `b` on `side`: higher bids and
/// lower asks come first.
pub open spec fn better(side: Side, a: u128, b: u128) -> bool {
    match side {
        Side::Buy => a > b,
        Side::Sell => a < b,
    }
}

/// A well-formed side: every level holds orders with distinct ids resting at
/// the level's price on that side, and levels are in strict price priority.
pub open spec fn side_wf(ls: Seq<LevelView>, side: Side) -> bool {
    &&& forall|i: int|
        0 <= i < ls.len() ==> (#[trigger] ls[i]).orders.len() > 0 && ids_distinct(ls[i].orders)
            && queue_ok(ls[i].orders, ls[i].price, side)
    &&& forall|i: int, j: int| 0 <= i < j < ls.len() ==> better(side, (#[trigger] ls[i]).price, (#[trigger] ls[j]).price)
}

/// A level that a walk keeps is still a well-formed level at the same price.
pub proof fn lemma_level_step_keeps(l: LevelView, w: WalkView, ctx: WalkCtx)
    requires
        walkable(l, ctx),
        l.orders.len() > 0,
    ensures
        level_step(l, w, ctx).0 matches Some(l2) ==> l2.price == l.price && l2.orders.len() > 0
            && walkable(l2, ctx),
{
    let opp = spec_opposite(ctx.side);
    crate::orderbook::level::lemma_sweep_facts(l.orders, 0, seq![], l.price, opp);
    assert forall|q: u64| #![trigger crate::orderbook::walk::level_match(l, q, ctx.taker_id)]
        queue_ok(crate::orderbook::walk::level_match(l, q, ctx.taker_id).0, l.price, opp)
        && ids_distinct(crate::orderbook::walk::level_match(l, q, ctx.taker_id).0) by {
        crate::orderbook::level::lemma_sweep_facts(l.orders, q, seq![], l.price, opp);
    }
    crate::orderbook::walk::lemma_filter_queue(l.orders, |o: Order| o.user_id != ctx.user, l.price, opp);
    let l1 = LevelView { price: l.price, orders: l.orders.filter(|o: Order| o.user_id != ctx.user) };
    assert forall|q: u64| #![trigger crate::orderbook::walk::level_match(l1, q, ctx.taker_id)]
        queue_ok(crate::orderbook::walk::level_match(l1, q, ctx.taker_id).0, l1.price, opp)
        && ids_distinct(crate::orderbook::walk::level_match(l1, q, ctx.taker_id).0) by {
        crate::orderbook::level::lemma_sweep_facts(l1.orders, q, seq![], l1.price, opp);
    }
    let cap = crate::orderbook::matching::spec_level_qty_cap(w.stop, l.price, ctx.lot);
    if !(crate::orderbook::walk::beyond_limit(ctx, l.price) || cap <= 0) && ctx.stp {
        match crate::orderbook::stp::stp_action(l.orders, ctx.user, ctx.mode) {
            crate::orderbook::stp::STPAction::CancelBoth { safe_quantity, maker_order_id } => {
                let (la, wa) = crate::orderbook::walk::safe_step(l, cap as u64, safe_quantity, w, ctx);
                crate::orderbook::walk::lemma_filter_queue(la.orders, |o: Order| o.id != maker_order_id, la.price, opp);
            },
            _ => {},
        }
    }
}

/// A walk over a well-formed side leaves a well-formed side.
pub proof fn lemma_walk_wf(ls: Seq<LevelView>, i: int, done: Seq<LevelView>, w: WalkView, ctx: WalkCtx)
    requires
        side_wf(ls, spec_opposite(ctx.side)),
        side_wf(done, spec_opposite(ctx.side)),
        0 <= i <= ls.len(),
        forall|d: int, k: int| 0 <= d < done.len() && i <= k < ls.len() ==> better(spec_opposite(ctx.side), (#[trigger] done[d]).price, (#[trigger] ls[k]).price),
    ensures
        side_wf(walk(ls, i, done, w, ctx).0, spec_opposite(ctx.side)),
    decreases ls.len() - i,
{
    let s = spec_opposite(ctx.side);
    if i < ls.len() {
        let (k, w2, cont) = level_step(ls[i], w, ctx);
        lemma_level_step_keeps(ls[i], w, ctx);
        let done2 = match k {
            Some(l) => done.push(l),
            None => done,
        };
        assert(side_wf(done2, s)) by {
            match k {
                Some(l) => {
                    assert forall|a: int, b: int| 0 <= a < b < done2.len() implies better(s, (#[trigger] done2[a]).price, (#[trigger] done2[b]).price) by {
                        if b < done.len() {
                        } else {
                            assert(done2[a] == done[a]);
                            assert(done2[b] == l);
                        }
                    }
                    assert forall|a: int| 0 <= a < done2.len() implies (#[trigger] done2[a]).orders.len() > 0 && ids_distinct(done2[a].orders) && queue_ok(done2[a].orders, done2[a].price, s) by {
                        if a < done.len() {
                            assert(done2[a] == done[a]);
                        }
                    }
                },
                None => {},
            }
        }
        assert forall|d: int, k2: int| 0 <= d < done2.len() && i + 1 <= k2 < ls.len() implies better(s, (#[trigger] done2[d]).price, (#[trigger] ls[k2]).price) by {
            if d < done.len() {
                assert(done2[d] == done[d]);
            } else {
                assert(better(s, ls[i].price, ls[k2].price));
            }
        }
        if cont {
            lemma_walk_wf(ls, i + 1, done2, w2, ctx);
        } else {
            let rest = ls.subrange(i + 1, ls.len() as int);
            let out = done2 + rest;
            assert forall|a: int| 0 <= a < out.len() implies (#[trigger] out[a]).orders.len() > 0 && ids_distinct(out[a].orders) && queue_ok(out[a].orders, out[a].price, s) by {
                if a < done2.len() {
                    assert(out[a] == done2[a]);
                } else {
                    assert(out[a] == ls[i + 1 + a - done2.len()]);
                }
            }
            assert forall|a: int, b: int| 0 <= a < b < out.len() implies better(s, (#[trigger] out[a]).price, (#[trigger] out[b]).price) by {
                if b < done2.len() {
                    assert(out[a] == done2[a]);
                    assert(out[b] == done2[b]);
                } else if a < done2.len() {
                    assert(out[a] == done2[a]);
                    assert(out[b] == ls[i + 1 + b - done2.len()]);
                } else {
                    assert(out[a] == ls[i + 1 + a - done2.len()]);
                    assert(out[b] == ls[i + 1 + b - done2.len()]);
                }
            }
        }
    }
}

/// Whether an order with `id` rests somewhere on the side.
pub open spec fn side_has_id(ls: Seq<LevelView>, id: u128) -> bool {
    exists|i: int, k: int|
        0 <= i < ls.len() && 0 <= k < ls[i].orders.len() && (#[trigger] ls[i].orders[k]).id == id
}

/// The index of the first level at or after `i` priced `p`, or the side's
/// length when there is none.
pub open spec fn find_price(ls: Seq<LevelView>, p: u128, i: int) -> int
    decreases ls.len() - i,
{
    if i < 0 || i >= ls.len() {
        ls.len() as int
    } else if ls[i].price == p {
        i
    } else {
        find_price(ls, p, i + 1)
    }
}

/// The index of the first level at or after `i` that `p` does not lose
/// priority to, or the side's length: where a new level priced `p` goes.
pub open spec fn insert_pos(ls: Seq<LevelView>, p: u128, side: Side, i: int) -> int
    decreases ls.len() - i,
{
    if i < 0 || i >= ls.len() {
        ls.len() as int
    } else if !better(side, ls[i].price, p) {
        i
    } else {
        insert_pos(ls, p, side, i + 1)
    }
}

/// The side with `o` resting at the back of the level at its price, or in a
/// new level at its priority position when no level has that price.
pub open spec fn rest_into(ls: Seq<LevelView>, o: Order, side: Side) -> Seq<LevelView> {
    let k = find_price(ls, o.price, 0);
    if k < ls.len() {
        ls.update(k, LevelView { price: ls[k].price, orders: ls[k].orders.push(o) })
    } else {
        ls.insert(insert_pos(ls, o.price, side, 0), LevelView { price: o.price, orders: seq![o] })
    }
}

/// Whether the level `o` would join can take it: a new level always can; an
/// existing one while its visible and hidden aggregates stay within `u64`.
pub open spec fn rest_fits(ls: Seq<LevelView>, o: Order) -> bool {
    let k = find_price(ls, o.price, 0);
    k < ls.len() ==> (crate::orderbook::level::queue_visible(ls[k].orders) + crate::orderbook::types::visible_of(o) <= u64::MAX
        && crate::orderbook::level::queue_hidden(ls[k].orders) + crate::orderbook::types::hidden_of(o) <= u64::MAX)
}

pub proof fn lemma_find_price(ls: Seq<LevelView>, p: u128, i: int)
    requires
        0 <= i <= ls.len(),
    ensures
        i <= find_price(ls, p, i) <= ls.len(),
        find_price(ls, p, i) < ls.len() ==> ls[find_price(ls, p, i)].price == p,
        forall|j: int| i <= j < find_price(ls, p, i) ==> (#[trigger] ls[j]).price != p,
    decreases ls.len() - i,
{
    if i < ls.len() && ls[i].price != p {
        lemma_find_price(ls, p, i + 1);
    }
}

pub proof fn lemma_insert_pos(ls: Seq<LevelView>, p: u128, side: Side, i: int)
    requires
        0 <= i <= ls.len(),
    ensures
        i <= insert_pos(ls, p, side, i) <= ls.len(),
        insert_pos(ls, p, side, i) < ls.len() ==> !better(side, ls[insert_pos(ls, p, side, i)].price, p),
        forall|j: int| i <= j < insert_pos(ls, p, side, i) ==> better(side, (#[trigger] ls[j]).price, p),
    decreases ls.len() - i,
{
    if i < ls.len() && better(side, ls[i].price, p) {
        lemma_insert_pos(ls, p, side, i + 1);
    }
}

/// Resting an order whose id is new on the side keeps the side well formed.
pub proof fn lemma_rest_into_wf(ls: Seq<LevelView>, o: Order, side: Side)
    requires
        side_wf(ls, side),
        o.side == side,
        crate::orderbook::level::step_ok(o),
        !side_has_id(ls, o.id),
    ensures
        side_wf(rest_into(ls, o, side), side),
        forall|id: u128| side_has_id(rest_into(ls, o, side), id) ==> side_has_id(ls, id) || id == o.id,
{
    lemma_find_price(ls, o.price, 0);
    lemma_insert_pos(ls, o.price, side, 0);
    let k = find_price(ls, o.price, 0);
    let out = rest_into(ls, o, side);
    if k < ls.len() {
        let nl = LevelView { price: ls[k].price, orders: ls[k].orders.push(o) };
        assert(out == ls.update(k, nl));
        assert(ids_distinct(nl.orders)) by {
            assert forall|a: int, b: int| 0 <= a < b < nl.orders.len() implies (#[trigger] nl.orders[a]).id != (#[trigger] nl.orders[b]).id by {
                if b == nl.orders.len() - 1 {
                    assert(nl.orders[a] == ls[k].orders[a]);
                    if ls[k].orders[a].id == o.id {
                        assert(side_has_id(ls, o.id));
                    }
                } else {
                    assert(nl.orders[a] == ls[k].orders[a]);
                    assert(nl.orders[b] == ls[k].orders[b]);
                }
            }
        }
        assert(queue_ok(nl.orders, nl.price, side)) by {
            assert forall|a: int| 0 <= a < nl.orders.len() implies (#[trigger] nl.orders[a]).price == nl.price && nl.orders[a].side == side && crate::orderbook::level::step_ok(nl.orders[a]) by {
                if a < ls[k].orders.len() {
                    assert(nl.orders[a] == ls[k].orders[a]);
                }
            }
        }
        assert forall|id: u128| side_has_id(out, id) implies side_has_id(ls, id) || id == o.id by {
            let (i, j) = choose|i: int, j: int| 0 <= i < out.len() && 0 <= j < out[i].orders.len() && (#[trigger] out[i].orders[j]).id == id;
            if i == k && j == ls[k].orders.len() {
            } else if i == k {
                assert(out[i].orders[j] == ls[k].orders[j]);
            } else {
                assert(out[i] == ls[i]);
            }
        }
    } else {
        let pos = insert_pos(ls, o.price, side, 0);
        let nl = LevelView { price: o.price, orders: seq![o] };
        assert(out == ls.insert(pos, nl));
        assert forall|a: int| 0 <= a < out.len() implies (#[trigger] out[a]).orders.len() > 0 && ids_distinct(out[a].orders) && queue_ok(out[a].orders, out[a].price, side) by {
            if a < pos {
                assert(out[a] == ls[a]);
            } else if a > pos {
                assert(out[a] == ls[a - 1]);
            }
        }
        assert forall|a: int, b: int| 0 <= a < b < out.len() implies better(side, (#[trigger] out[a]).price, (#[trigger] out[b]).price) by {
            if b < pos {
                assert(out[a] == ls[a]);
                assert(out[b] == ls[b]);
            } else if b == pos {
                assert(out[a] == ls[a]);
            } else if a < pos {
                assert(out[a] == ls[a]);
                assert(out[b] == ls[b - 1]);
                assert(better(side, ls[a].price, o.price));
                assert(ls[pos].price != o.price);
                assert(better(side, o.price, ls[pos].price));
                if b - 1 > pos {
                    assert(better(side, ls[pos].price, ls[b - 1].price));
                }
            } else if a == pos {
                assert(out[b] == ls[b - 1]);
                assert(ls[pos].price != o.price);
                assert(better(side, o.price, ls[pos].price));
                if b - 1 > pos {
                    assert(better(side, ls[pos].price, ls[b - 1].price));
                }
            } else {
                assert(out[a] == ls[a - 1]);
                assert(out[b] == ls[b - 1]);
            }
        }
        assert forall|id: u128| side_has_id(out, id) implies side_has_id(ls, id) || id == o.id by {
            let (i, j) = choose|i: int, j: int| 0 <= i < out.len() && 0 <= j < out[i].orders.len() && (#[trigger] out[i].orders[j]).id == id;
            if i < pos {
                assert(out[i] == ls[i]);
            } else if i > pos {
                assert(out[i] == ls[i - 1]);
                assert(ls[i - 1].orders[j].id == id);
            }
        }
    }
}

/// The verdict of an admission check: accepted, rejected with a typed
/// error, or rejected as an invalid operation with the given message.
pub enum Verdict {
    Accept,
    Reject(OrderBookError),
    Invalid(Seq<char>),
}

/// Whether a result carries what a verdict says (for a rejection).
pub open spec fn rejects_as<T>(r: Result<T, OrderBookError>, v: Verdict) -> bool {
    match v {
        Verdict::Accept => true,
        Verdict::Reject(e) => r == Err::<T, OrderBookError>(e),
        Verdict::Invalid(msg) => r matches Err(OrderBookError::InvalidOperation { message }) && message@ == msg,
    }
}

/// The first quantity of `o` that a lot of `lot` (non-zero) does not
/// divide: the single quantity; for an iceberg each tranche; for a reserve
/// each tranche and then, with automatic replenishment and hidden left, the
/// transfer `min(amount or default, hidden)`.
pub open spec fn lot_violation(o: Order, lot: u64) -> Option<u64> {
    match o.kind {
        crate::orderbook::types::OrderKind::Iceberg { visible, hidden } => if visible % lot != 0 {
            Some(visible)
        } else if hidden % lot != 0 {
            Some(hidden)
        } else {
            None
        },
        crate::orderbook::types::OrderKind::Reserve { visible, hidden, replenish_amount, auto_replenish, .. } => {
            let transfer = crate::orderbook::order::min_u64(crate::orderbook::order::replenish_amount_of(replenish_amount), hidden);
            if visible % lot != 0 {
                Some(visible)
            } else if hidden % lot != 0 {
                Some(hidden)
            } else if hidden > 0 && auto_replenish && transfer % lot != 0 {
                Some(transfer)
            } else {
                None
            }
        },
        _ => if crate::orderbook::types::visible_of(o) % lot != 0 {
            Some(crate::orderbook::types::visible_of(o))
        } else {
            None
        },
    }
}

/// A reserve without automatic replenishment that displays nothing while
/// holding hidden quantity.
pub open spec fn is_ghost_reserve(o: Order) -> bool {
    o.kind matches crate::orderbook::types::OrderKind::Reserve { visible, hidden, auto_replenish, .. }
        && !auto_replenish && visible == 0 && hidden > 0
}

/// The message of a residual that a level's aggregates cannot absorb.
pub open spec fn capacity_message(id: u128, price: u128) -> Seq<char> {
    "resting order "@ + crate::orderbook::error::dec(id as int) + " would overflow the aggregate capacity of level "@
        + crate::orderbook::error::dec(price as int)
}

/// The message of an order that has already expired.
pub open spec fn expired_message() -> Seq<char> {
    "Order has already expired"@
}

/// An aggressive order's residual: the order redistributed over its tranches
/// for `rem` when it traded, unchanged when it did not.
pub open spec fn residual(o: Order, rem: u64) -> Order {
    if rem < crate::orderbook::types::total_of(o) {
        crate::orderbook::order::spec_set_total_remaining(o, rem)
    } else {
        o
    }
}

/// Whether a match result carries a walk's executions.
pub open spec fn reports_walk(mr: Option<MatchResult>, id: u128, w: WalkView) -> bool {
    &&& (w.trades.len() > 0 <==> mr is Some)
    &&& (mr matches Some(m) ==> m.order_id == id && m.remaining_quantity == walk_remaining(w) && m.trades@ == w.trades
        && m.filled_order_ids@ == w.filled)
}

pub(crate) fn clone_orders(q: &Vec<Order>) -> (r: Vec<Order>)
    ensures
        r@ == q@,
{
    let mut r: Vec<Order> = Vec::new();
    let mut i: usize = 0;
    while i < q.len()
        invariant
            i <= q@.len(),
            r@ == q@.take(i as int),
        decreases q@.len() - i,
    {
        r.push(q[i]);
        i += 1;
        assert(r@ =~= q@.take(i as int));
    }
    assert(q@.take(q@.len() as int) =~= q@);
    r
}

pub(crate) fn clone_side(v: &Vec<Level>) -> (r: Vec<Level>)
    ensures
        sview(r@) == sview(v@),
{
    let mut r: Vec<Level> = Vec::new();
    let mut i: usize = 0;
    while i < v.len()
        invariant
            i <= v@.len(),
            sview(r@) == sview(v@).take(i as int),
        decreases v@.len() - i,
    {
        let l = Level { price: v[i].price, orders: clone_orders(&v[i].orders) };
        let ghost r0 = r@;
        r.push(l);
        proof {
            crate::orderbook::walk::lemma_sview_push(r0, l);
            assert(sview(r@) =~= sview(v@).take(i as int + 1));
        }
        i += 1;
    }
    assert(sview(v@).take(v@.len() as int) =~= sview(v@));
    r
}

/// Whether an order with `id` rests on the side.
fn side_contains(v: &Vec<Level>, id: u128) -> (r: bool)
    ensures
        r == side_has_id(sview(v@), id),
{
    let mut i: usize = 0;
    while i < v.len()
        invariant
            i <= v@.len(),
            forall|a: int, k: int| 0 <= a < i && 0 <= k < v@[a].orders@.len() ==> (#[trigger] v@[a].orders@[k]).id != id,
        decreases v@.len() - i,
    {
        if v[i].has_order(id) {
            proof {
                let k = choose|k: int| 0 <= k < v@[i as int].orders@.len() && (#[trigger] v@[i as int].orders@[k]).id == id;
                assert(sview(v@)[i as int].orders[k].id == id);
            }
            return true;
        }
        i += 1;
    }
    proof {
        assert forall|a: int, k: int| 0 <= a < sview(v@).len() && 0 <= k < sview(v@)[a].orders.len() implies (#[trigger] sview(v@)[a].orders[k]).id != id by {
            assert(sview(v@)[a] == lview(v@[a]));
        }
    }
    false
}

/// The index of the level priced `p`, or the side's length.
fn find_price_exec(v: &Vec<Level>, p: u128) -> (r: usize)
    ensures
        r == find_price(sview(v@), p, 0),
{
    let ghost ls = sview(v@);
    let mut i: usize = 0;
    while i < v.len() && v[i].price != p
        invariant
            i <= v@.len(),
            ls == sview(v@),
            find_price(ls, p, i as int) == find_price(ls, p, 0),
        decreases v@.len() - i,
    {
        assert(ls[i as int].price == v@[i as int].price);
        i += 1;
    }
    proof {
        if i < v.len() {
            assert(ls[i as int].price == v@[i as int].price);
        }
    }
    i
}

/// Where a new level priced `p` goes on `side`.
fn insert_pos_exec(v: &Vec<Level>, p: u128, side: Side) -> (r: usize)
    ensures
        r == insert_pos(sview(v@), p, side, 0),
{
    let ghost ls = sview(v@);
    let mut i: usize = 0;
    while i < v.len()
        invariant
            i <= v@.len(),
            ls == sview(v@),
            insert_pos(ls, p, side, i as int) == insert_pos(ls, p, side, 0),
        decreases v@.len() - i,
    {
        assert(ls[i as int].price == v@[i as int].price);
        let b = match side {
            Side::Buy => v[i].price > p,
            Side::Sell => v[i].price < p,
        };
        if !b {
            return i;
        }
        i += 1;
    }
    i
}

/// Rest `o` on the side: at the back of its price level, or in a new level
/// at its priority position. Refused, leaving the side unchanged, when the
/// existing level's aggregates cannot absorb it.
fn rest_order_exec(v: &mut Vec<Level>, o: Order, side: Side) -> (ok: bool)
    ensures
        ok == rest_fits(sview(old(v)@), o),
        ok ==> sview(final(v)@) == rest_into(sview(old(v)@), o, side),
        !ok ==> final(v)@ == old(v)@,
{
    let ghost ls = sview(v@);
    let k = find_price_exec(v, o.price);
    proof {
        lemma_find_price(ls, o.price, 0);
    }
    if k < v.len() {
        assert(lview(v@[k as int]) == ls[k as int]);
        if !v[k].has_headroom(o.visible_quantity(), o.hidden_quantity()) {
            return false;
        }
        let mut l = v.remove(k);
        l.orders.push(o);
        v.insert(k, l);
        proof {
            assert(sview(v@) =~= ls.update(k as int, LevelView { price: ls[k as int].price, orders: ls[k as int].orders.push(o) })) by {
                assert forall|a: int| 0 <= a < v@.len() implies #[trigger] sview(v@)[a] == ls.update(k as int, LevelView { price: ls[k as int].price, orders: ls[k as int].orders.push(o) })[a] by {
                    if a != k {
                        assert(v@[a] == old(v)@[a]);
                    }
                }
            }
        }
        true
    } else {
        let pos = insert_pos_exec(v, o.price, side);
        proof {
            lemma_insert_pos(ls, o.price, side, 0);
        }
        let nl = Level { price: o.price, orders: vec![o] };
        v.insert(pos, nl);
        proof {
            assert(lview(nl) == LevelView { price: o.price, orders: seq![o] }) by {
                assert(nl.orders@ =~= seq![o]);
            }
            assert(sview(v@) =~= ls.insert(pos as int, LevelView { price: o.price, orders: seq![o] })) by {
                assert forall|a: int| 0 <= a < v@.len() implies #[trigger] sview(v@)[a] == ls.insert(pos as int, LevelView { price: o.price, orders: seq![o] })[a] by {
                    if a < pos {
                        assert(v@[a] == old(v)@[a]);
                    } else if a > pos {
                        assert(v@[a] == old(v)@[a - 1]);
                    }
                }
            }
        }
        true
    }
}

/// The first quantity of `o` that `lot` (non-zero) does not divide.
fn lot_violation_exec(o: &Order, lot: u64) -> (r: Option<u64>)
    requires
        lot > 0,
    ensures
        r == lot_violation(*o, lot),
{
    match o.kind {
        crate::orderbook::types::OrderKind::Iceberg { visible, hidden } => {
            if visible % lot != 0 {
                Some(visible)
            } else if hidden % lot != 0 {
                Some(hidden)
            } else {
                None
            }
        },
        crate::orderbook::types::OrderKind::Reserve { visible, hidden, replenish_amount, auto_replenish, .. } => {
            let amount = match replenish_amount {
                Some(a) => a,
                None => crate::orderbook::types::default_reserve_replenish_amount(),
            };
            let transfer = if amount <= hidden { amount } else { hidden };
            if visible % lot != 0 {
                Some(visible)
            } else if hidden % lot != 0 {
                Some(hidden)
            } else if hidden > 0 && auto_replenish && transfer % lot != 0 {
                Some(transfer)
            } else {
                None
            }
        },
        _ => {
            let q = o.visible_quantity();
            if q % lot != 0 {
                Some(q)
            } else {
                None
            }
        },
    }
}

fn push_u128(out: &mut String, x: u128)
    ensures
        final(out)@ == old(out)@ + crate::orderbook::error::dec(x as int),
{
    crate::orderbook::text::push_decimal(out, x);
}

fn capacity_error(id: u128, price: u128) -> (e: OrderBookError)
    ensures
        e matches OrderBookError::InvalidOperation { message } && message@ == capacity_message(id, price),
{
    let mut m = String::new();
    push_str(&mut m, "resting order ");
    push_u128(&mut m, id);
    push_str(&mut m, " would overflow the aggregate capacity of level ");
    push_u128(&mut m, price);
    assert(m@ =~= capacity_message(id, price));
    OrderBookError::InvalidOperation { message: m }
}

fn expired_error() -> (e: OrderBookError)
    ensures
        e matches OrderBookError::InvalidOperation { message } && message@ == expired_message(),
{
    let mut m = String::new();
    push_str(&mut m, "Order has already expired");
    assert(m@ =~= expired_message());
    OrderBookError::InvalidOperation { message: m }
}

/// A queue's total is its visible plus its hidden quantity.
pub proof fn lemma_total_splits(q: Seq<Order>)
    ensures
        queue_total(q) == crate::orderbook::level::queue_visible(q) + crate::orderbook::level::queue_hidden(q),
    decreases q.len(),
{
    if q.len() > 0 {
        lemma_total_splits(q.drop_last());
    }
}

/// The residual of an admitted order keeps its identity, fits, stays well
/// formed, and carries exactly the remainder.
pub proof fn lemma_residual_shape(o: Order, rem: u64)
    requires
        crate::orderbook::types::total_fits(o),
        crate::orderbook::types::order_wf(o),
        rem <= crate::orderbook::types::total_of(o),
    ensures
        residual(o, rem).id == o.id,
        residual(o, rem).price == o.price,
        residual(o, rem).side == o.side,
        residual(o, rem).user_id == o.user_id,
        crate::orderbook::level::step_ok(residual(o, rem)),
{
}

/// A base-quantity walk stays a base-quantity walk and never raises its
/// remainder.
pub proof fn lemma_walk_base(ls: Seq<LevelView>, i: int, done: Seq<LevelView>, w: WalkView, ctx: WalkCtx)
    requires
        w.stop is BaseQty,
    ensures
        walk(ls, i, done, w, ctx).1.stop is BaseQty,
        walk(ls, i, done, w, ctx).1.stop->BaseQty_remaining <= w.stop->BaseQty_remaining,
    decreases ls.len() - i,
{
    if 0 <= i < ls.len() {
        let (k, w2, cont) = level_step(ls[i], w, ctx);
        let done2 = match k {
            Some(l) => done.push(l),
            None => done,
        };
        if cont {
            lemma_walk_base(ls, i + 1, done2, w2, ctx);
        }
    }
}

/// What an admitted order's walk leads to, given the walk `w`, the side it
/// rests on before (`same`) and after (`after`), and the book's prevention
/// mode.
pub open spec fn settles(
    r: Result<(Order, Option<MatchResult>), OrderBookError>,
    order: Order,
    w: WalkView,
    same: Seq<LevelView>,
    after: Seq<LevelView>,
    stp_mode: STPMode,
) -> bool {
    let total = crate::orderbook::types::total_of(order);
    let rem = walk_remaining(w);
    let o2 = residual(order, rem);
    if w.stp_cancelled {
        &&& r == Err::<(Order, Option<MatchResult>), OrderBookError>(OrderBookError::SelfTradePrevented {
            mode: stp_mode,
            taker_order_id: order.id,
            user_id: order.user_id,
        })
        &&& after == same
    } else if rem > 0 && crate::orderbook::types::spec_is_immediate(order.time_in_force) {
        &&& r == Err::<(Order, Option<MatchResult>), OrderBookError>(OrderBookError::InsufficientLiquidity {
            side: order.side,
            requested: crate::orderbook::types::visible_of(order),
            available: crate::orderbook::order::sat_sub(crate::orderbook::types::visible_of(order), rem),
        })
        &&& after == same
    } else if rem > 0 && rem < total && is_ghost_reserve(o2) {
        &&& r matches Ok((o, mr)) && o == crate::orderbook::order::with_tranches(o2, 0, 0) && reports_walk(mr, order.id, w)
        &&& after == same
    } else if rem > 0 && !rest_fits(same, o2) {
        &&& rejects_as(r, Verdict::Invalid(capacity_message(order.id, order.price)))
        &&& r is Err
        &&& after == same
    } else if rem > 0 {
        &&& r matches Ok((o, mr)) && o == o2 && reports_walk(mr, order.id, w)
        &&& after == rest_into(same, o2, order.side)
    } else {
        &&& r matches Ok((o, mr)) && o == order && reports_walk(mr, order.id, w)
        &&& after == same
    }
}

/// Every id of the first queue also rests in the second.
pub open spec fn ids_within(a: Seq<Order>, b: Seq<Order>) -> bool {
    forall|id: u128| crate::orderbook::level::queue_has_id(a, id) ==> crate::orderbook::level::queue_has_id(b, id)
}

/// A level a walk keeps holds no order that was not there.
pub proof fn lemma_level_step_ids(l: LevelView, w: WalkView, ctx: WalkCtx)
    requires
        walkable(l, ctx),
    ensures
        level_step(l, w, ctx).0 matches Some(l2) ==> ids_within(l2.orders, l.orders),
{
    let opp = spec_opposite(ctx.side);
    assert forall|q: u64, m: Seq<Order>| #![trigger crate::orderbook::walk::level_match(LevelView { price: l.price, orders: m }, q, ctx.taker_id)]
        queue_ok(m, l.price, opp) && ids_distinct(m) implies
        ids_within(crate::orderbook::walk::level_match(LevelView { price: l.price, orders: m }, q, ctx.taker_id).0, m)
        && queue_ok(crate::orderbook::walk::level_match(LevelView { price: l.price, orders: m }, q, ctx.taker_id).0, l.price, opp)
        && ids_distinct(crate::orderbook::walk::level_match(LevelView { price: l.price, orders: m }, q, ctx.taker_id).0) by {
        crate::orderbook::level::lemma_sweep_facts(m, q, seq![], l.price, opp);
    }
    let pu = |o: Order| o.user_id != ctx.user;
    crate::orderbook::walk::lemma_filter_queue(l.orders, pu, l.price, opp);
    let fu = l.orders.filter(pu);
    assert(ids_within(fu, l.orders)) by {
        assert forall|id: u128| crate::orderbook::level::queue_has_id(fu, id) implies crate::orderbook::level::queue_has_id(l.orders, id) by {
            let i = choose|i: int| 0 <= i < fu.len() && (#[trigger] fu[i]).id == id;
            let j = choose|j: int| 0 <= j < l.orders.len() && fu[i] == l.orders[j];
            assert(l.orders[j].id == id);
        }
    }
    let cap = crate::orderbook::matching::spec_level_qty_cap(w.stop, l.price, ctx.lot);
    if !(crate::orderbook::walk::beyond_limit(ctx, l.price) || cap <= 0) && ctx.stp {
        match crate::orderbook::stp::stp_action(l.orders, ctx.user, ctx.mode) {
            crate::orderbook::stp::STPAction::CancelBoth { safe_quantity, maker_order_id } => {
                let (la, wa) = crate::orderbook::walk::safe_step(l, cap as u64, safe_quantity, w, ctx);
                let pm = |o: Order| o.id != maker_order_id;
                crate::orderbook::walk::lemma_filter_queue(la.orders, pm, la.price, opp);
                let fm = la.orders.filter(pm);
                assert forall|id: u128| crate::orderbook::level::queue_has_id(fm, id) implies crate::orderbook::level::queue_has_id(la.orders, id) by {
                    let i = choose|i: int| 0 <= i < fm.len() && (#[trigger] fm[i]).id == id;
                    let j = choose|j: int| 0 <= j < la.orders.len() && fm[i] == la.orders[j];
                    assert(la.orders[j].id == id);
                }
            },
            _ => {},
        }
    }
}

/// A walk puts no id on the side that was not there.
#[verifier::spinoff_prover]
pub proof fn lemma_walk_ids(ls: Seq<LevelView>, i: int, done: Seq<LevelView>, w: WalkView, ctx: WalkCtx)
    requires
        forall|k: int| 0 <= k < ls.len() ==> walkable(#[trigger] ls[k], ctx),
        0 <= i,
    ensures
        forall|id: u128| side_has_id(walk(ls, i, done, w, ctx).0, id) ==> side_has_id(done, id) || side_has_id(ls, id),
    decreases ls.len() - i,
{
    if i < ls.len() {
        let (k, w2, cont) = level_step(ls[i], w, ctx);
        lemma_level_step_ids(ls[i], w, ctx);
        let done2 = match k {
            Some(l) => done.push(l),
            None => done,
        };
        assert forall|id: u128| side_has_id(done2, id) implies side_has_id(done, id) || side_has_id(ls, id) by {
            let (a, b) = choose|a: int, b: int| 0 <= a < done2.len() && 0 <= b < done2[a].orders.len() && (#[trigger] done2[a].orders[b]).id == id;
            if a < done.len() {
                assert(done2[a] == done[a]);
            } else {
                let l2 = k->0;
                assert(done2[a] == l2);
                assert(crate::orderbook::level::queue_has_id(l2.orders, id));
                let j = choose|j: int| 0 <= j < ls[i].orders.len() && (#[trigger] ls[i].orders[j]).id == id;
                assert(ls[i].orders[j].id == id);
                assert(side_has_id(ls, id));
            }
        }
        if cont {
            lemma_walk_ids(ls, i + 1, done2, w2, ctx);
        } else {
            let out = done2 + ls.subrange(i + 1, ls.len() as int);
            assert forall|id: u128| side_has_id(out, id) implies side_has_id(done, id) || side_has_id(ls, id) by {
                let (a, b) = choose|a: int, b: int| 0 <= a < out.len() && 0 <= b < out[a].orders.len() && (#[trigger] out[a].orders[b]).id == id;
                if a < done2.len() {
                    assert(out[a] == done2[a]);
                    assert(side_has_id(done2, id));
                } else {
                    assert(out[a] == ls[i + 1 + a - done2.len()]);
                    assert(ls[i + 1 + a - done2.len()].orders[b].id == id);
                }
            }
        }
    }
}

/// The side with the order `id` removed and levels left empty dropped.
pub open spec fn side_without(ls: Seq<LevelView>, id: u128) -> Seq<LevelView>
    decreases ls.len(),
{
    if ls.len() == 0 {
        seq![]
    } else {
        let prev = side_without(ls.drop_last(), id);
        let q = ls.last().orders.filter(|o: Order| o.id != id);
        if q.len() > 0 {
            prev.push(LevelView { price: ls.last().price, orders: q })
        } else {
            prev
        }
    }
}

/// The first order with `id` in a queue from position `i`.
pub open spec fn find_in_queue(q: Seq<Order>, id: u128, i: int) -> Option<Order>
    decreases q.len() - i,
{
    if i < 0 || i >= q.len() {
        None
    } else if q[i].id == id {
        Some(q[i])
    } else {
        find_in_queue(q, id, i + 1)
    }
}

/// The first order with `id` on a side from level `i`.
pub open spec fn find_in_side(ls: Seq<LevelView>, id: u128, i: int) -> Option<Order>
    decreases ls.len() - i,
{
    if i < 0 || i >= ls.len() {
        None
    } else {
        match find_in_queue(ls[i].orders, id, 0) {
            Some(o) => Some(o),
            None => find_in_side(ls, id, i + 1),
        }
    }
}

pub proof fn lemma_find_in_queue(q: Seq<Order>, id: u128, i: int)
    requires
        0 <= i <= q.len(),
    ensures
        find_in_queue(q, id, i) matches Some(o) ==> o.id == id && exists|j: int| i <= j < q.len() && q[j] == o,
        find_in_queue(q, id, i) is None ==> forall|j: int| i <= j < q.len() ==> (#[trigger] q[j]).id != id,
    decreases q.len() - i,
{
    if i < q.len() && q[i].id != id {
        lemma_find_in_queue(q, id, i + 1);
    }
}

pub proof fn lemma_find_in_side(ls: Seq<LevelView>, id: u128, i: int)
    requires
        0 <= i <= ls.len(),
    ensures
        find_in_side(ls, id, i) matches Some(o) ==> o.id == id && exists|a: int, b: int| i <= a < ls.len() && 0 <= b < ls[a].orders.len() && ls[a].orders[b] == o,
        find_in_side(ls, id, i) is None ==> forall|a: int, b: int| i <= a < ls.len() && 0 <= b < ls[a].orders.len() ==> (#[trigger] ls[a].orders[b]).id != id,
    decreases ls.len() - i,
{
    if i < ls.len() {
        lemma_find_in_queue(ls[i].orders, id, 0);
        lemma_find_in_side(ls, id, i + 1);
    }
}

/// Removing an order keeps a side well formed, puts no new id on it, and
/// leaves no order with that id.
pub proof fn lemma_side_without(ls: Seq<LevelView>, id: u128, side: Side)
    requires
        side_wf(ls, side),
    ensures
        side_wf(side_without(ls, id), side),
        !side_has_id(side_without(ls, id), id),
        forall|x: u128| side_has_id(side_without(ls, id), x) ==> side_has_id(ls, x),
        forall|k: int| 0 <= k < side_without(ls, id).len() ==> exists|j: int| 0 <= j < ls.len() && (#[trigger] side_without(ls, id)[k]).price == ls[j].price,
    decreases ls.len(),
{
    if ls.len() > 0 {
        let d = ls.drop_last();
        assert forall|i: int| 0 <= i < d.len() implies #[trigger] d[i] == ls[i] by {}
        assert(side_wf(d, side)) by {
            assert forall|i: int, j: int| 0 <= i < j < d.len() implies better(side, (#[trigger] d[i]).price, (#[trigger] d[j]).price) by {
                assert(d[i] == ls[i]);
                assert(d[j] == ls[j]);
            }
        }
        lemma_side_without(d, id, side);
        let prev = side_without(d, id);
        let l = ls.last();
        let pred = |o: Order| o.id != id;
        let q = l.orders.filter(pred);
        crate::orderbook::walk::lemma_filter_queue(l.orders, pred, l.price, side);
        let out = side_without(ls, id);
        assert(!crate::orderbook::level::queue_has_id(q, id));
        assert(forall|x: u128| crate::orderbook::level::queue_has_id(q, x) ==> crate::orderbook::level::queue_has_id(l.orders, x)) by {
            assert forall|x: u128| crate::orderbook::level::queue_has_id(q, x) implies crate::orderbook::level::queue_has_id(l.orders, x) by {
                let i = choose|i: int| 0 <= i < q.len() && (#[trigger] q[i]).id == x;
                let j = choose|j: int| 0 <= j < l.orders.len() && q[i] == l.orders[j];
                assert(l.orders[j].id == x);
            }
        }
        if q.len() > 0 {
            let nl = LevelView { price: l.price, orders: q };
            assert(out == prev.push(nl));
            assert forall|k: int| 0 <= k < out.len() implies exists|j: int| 0 <= j < ls.len() && (#[trigger] out[k]).price == ls[j].price by {
                if k < prev.len() {
                    assert(out[k] == prev[k]);
                    let j = choose|j: int| 0 <= j < d.len() && prev[k].price == d[j].price;
                    assert(ls[j] == d[j]);
                } else {
                    assert(out[k].price == ls[ls.len() - 1].price);
                }
            }
            assert forall|a: int, b: int| 0 <= a < b < out.len() implies better(side, (#[trigger] out[a]).price, (#[trigger] out[b]).price) by {
                if b < prev.len() {
                    assert(out[a] == prev[a]);
                    assert(out[b] == prev[b]);
                } else {
                    assert(out[a] == prev[a]);
                    let j = choose|j: int| 0 <= j < d.len() && prev[a].price == d[j].price;
                    assert(better(side, ls[j].price, ls[ls.len() - 1].price));
                }
            }
            assert forall|a: int| 0 <= a < out.len() implies (#[trigger] out[a]).orders.len() > 0 && ids_distinct(out[a].orders) && queue_ok(out[a].orders, out[a].price, side) by {
                if a < prev.len() {
                    assert(out[a] == prev[a]);
                }
            }
            assert forall|x: u128| side_has_id(out, x) implies side_has_id(ls, x) && x != id by {
                let (a, b) = choose|a: int, b: int| 0 <= a < out.len() && 0 <= b < out[a].orders.len() && (#[trigger] out[a].orders[b]).id == x;
                if a < prev.len() {
                    assert(out[a] == prev[a]);
                    assert(side_has_id(prev, x));
                    assert(side_has_id(d, x));
                    let (a2, b2) = choose|a2: int, b2: int| 0 <= a2 < d.len() && 0 <= b2 < d[a2].orders.len() && (#[trigger] d[a2].orders[b2]).id == x;
                    assert(ls[a2] == d[a2]);
                } else {
                    assert(out[a] == nl);
                    assert(crate::orderbook::level::queue_has_id(q, x));
                    let j = choose|j: int| 0 <= j < l.orders.len() && (#[trigger] l.orders[j]).id == x;
                    assert(ls[ls.len() - 1].orders[j].id == x);
                }
            }
        } else {
            assert(out == prev);
            assert forall|k: int| 0 <= k < out.len() implies exists|j: int| 0 <= j < ls.len() && (#[trigger] out[k]).price == ls[j].price by {
                let j = choose|j: int| 0 <= j < d.len() && prev[k].price == d[j].price;
                assert(ls[j] == d[j]);
            }
            assert forall|x: u128| side_has_id(out, x) implies side_has_id(ls, x) by {
                assert(side_has_id(prev, x));
                assert(side_has_id(d, x));
                let (a2, b2) = choose|a2: int, b2: int| 0 <= a2 < d.len() && 0 <= b2 < d[a2].orders.len() && (#[trigger] d[a2].orders[b2]).id == x;
                assert(ls[a2] == d[a2]);
            }
        }
    }
}

fn find_in_side_exec(v: &Vec<Level>, id: u128) -> (r: Option<Order>)
    ensures
        r == find_in_side(sview(v@), id, 0),
{
    let ghost ls = sview(v@);
    let mut i: usize = 0;
    while i < v.len()
        invariant
            i <= v@.len(),
            ls == sview(v@),
            find_in_side(ls, id, i as int) == find_in_side(ls, id, 0),
        decreases v@.len() - i,
    {
        assert(ls[i as int].orders == v@[i as int].orders@);
        let q = &v[i].orders;
        let mut k: usize = 0;
        while k < q.len()
            invariant
                k <= q@.len(),
                q@ == ls[i as int].orders,
                find_in_queue(q@, id, k as int) == find_in_queue(q@, id, 0),
                i < ls.len(),
                ls == sview(v@),
                find_in_side(ls, id, i as int) == find_in_side(ls, id, 0),
            decreases q@.len() - k,
        {
            if q[k].id == id {
                return Some(q[k]);
            }
            k += 1;
        }
        i += 1;
    }
    None
}

fn side_without_exec(v: &Vec<Level>, id: u128) -> (r: Vec<Level>)
    ensures
        sview(r@) == side_without(sview(v@), id),
{
    let ghost ls = sview(v@);
    let mut r: Vec<Level> = Vec::new();
    let mut i: usize = 0;
    assert(sview(r@) =~= side_without(ls.take(0), id));
    while i < v.len()
        invariant
            i <= v@.len(),
            ls == sview(v@),
            sview(r@) == side_without(ls.take(i as int), id),
        decreases v@.len() - i,
    {
        proof {
            assert(ls.take(i as int + 1).drop_last() =~= ls.take(i as int));
            assert(ls.take(i as int + 1).last() == ls[i as int]);
            assert(ls[i as int] == lview(v@[i as int]));
        }
        let q = crate::orderbook::walk::without_id(&v[i].orders, id);
        if q.len() > 0 {
            let l = Level { price: v[i].price, orders: q };
            let ghost r0 = r@;
            r.push(l);
            proof {
                crate::orderbook::walk::lemma_sview_push(r0, l);
            }
        }
        i += 1;
    }
    assert(ls.take(v@.len() as int) =~= ls);
    r
}

/// Removing an id that is absent leaves a side whose levels are all
/// non-empty unchanged.
pub proof fn lemma_side_without_absent(ls: Seq<LevelView>, id: u128)
    requires
        forall|a: int, b: int| 0 <= a < ls.len() && 0 <= b < ls[a].orders.len() ==> (#[trigger] ls[a].orders[b]).id != id,
        forall|a: int| 0 <= a < ls.len() ==> (#[trigger] ls[a]).orders.len() > 0,
    ensures
        side_without(ls, id) == ls,
    decreases ls.len(),
{
    if ls.len() > 0 {
        let d = ls.drop_last();
        assert forall|a: int, b: int| 0 <= a < d.len() && 0 <= b < d[a].orders.len() implies (#[trigger] d[a].orders[b]).id != id by {
            assert(d[a] == ls[a]);
        }
        assert forall|a: int| 0 <= a < d.len() implies (#[trigger] d[a]).orders.len() > 0 by {
            assert(d[a] == ls[a]);
        }
        lemma_side_without_absent(d, id);
        let l = ls.last();
        let pred = |o: Order| o.id != id;
        assert(l.orders.filter(pred) == l.orders) by {
            lemma_filter_all(l.orders, pred);
        }
        assert(ls == d.push(l));
    }
}

/// Filtering with a predicate every element meets changes nothing.
pub proof fn lemma_filter_all(q: Seq<Order>, pred: spec_fn(Order) -> bool)
    requires
        forall|i: int| 0 <= i < q.len() ==> pred(#[trigger] q[i]),
    ensures
        q.filter(pred) == q,
    decreases q.len(),
{
    reveal(Seq::filter);
    if q.len() > 0 {
        let d = q.drop_last();
        assert forall|i: int| 0 <= i < d.len() implies pred(#[trigger] d[i]) by {
            assert(d[i] == q[i]);
        }
        lemma_filter_all(d, pred);
        assert(pred(q.last()));
        assert(q.filter(pred) =~= q);
    } else {
        assert(q.filter(pred) =~= q);
    }
}

pub proof fn lemma_position_of(q: Seq<Order>, id: u128, i: int)
    requires
        0 <= i <= q.len(),
    ensures
        i <= position_of(q, id, i) <= q.len(),
        position_of(q, id, i) < q.len() ==> q[position_of(q, id, i)].id == id,
        forall|j: int| i <= j < position_of(q, id, i) ==> (#[trigger] q[j]).id != id,
        position_of(q, id, i) < q.len() ==> find_in_queue(q, id, i) == Some(q[position_of(q, id, i)]),
        position_of(q, id, i) == q.len() ==> find_in_queue(q, id, i) is None,
    decreases q.len() - i,
{
    if i < q.len() && q[i].id != id {
        lemma_position_of(q, id, i + 1);
    }
}

pub proof fn lemma_locate(ls: Seq<LevelView>, id: u128, i: int)
    requires
        0 <= i <= ls.len(),
    ensures
        locate(ls, id, i) matches Some((a, b)) ==> i <= a < ls.len() && 0 <= b < ls[a].orders.len()
            && ls[a].orders[b].id == id && find_in_side(ls, id, i) == Some(ls[a].orders[b]),
        locate(ls, id, i) is None ==> find_in_side(ls, id, i) is None,
    decreases ls.len() - i,
{
    if i < ls.len() {
        lemma_position_of(ls[i].orders, id, 0);
        if crate::orderbook::level::queue_has_id(ls[i].orders, id) {
            let j = choose|j: int| 0 <= j < ls[i].orders.len() && (#[trigger] ls[i].orders[j]).id == id;
            assert(position_of(ls[i].orders, id, 0) <= j);
        } else {
            assert(position_of(ls[i].orders, id, 0) == ls[i].orders.len()) by {
                if position_of(ls[i].orders, id, 0) < ls[i].orders.len() {
                    assert(crate::orderbook::level::queue_has_id(ls[i].orders, id));
                }
            }
            lemma_locate(ls, id, i + 1);
        }
    }
}

/// Resizing a resting order to a shape with the same identity keeps the side
/// well formed.
pub proof fn lemma_resize_wf(ls: Seq<LevelView>, id: u128, p: Order, side: Side)
    requires
        side_wf(ls, side),
        p.id == id,
        locate(ls, id, 0) matches Some((a, b)) ==> p.price == ls[a].orders[b].price && p.side == ls[a].orders[b].side,
        crate::orderbook::level::step_ok(p),
    ensures
        side_wf(resize_in_side(ls, id, p), side),
        forall|x: u128| side_has_id(resize_in_side(ls, id, p), x) ==> side_has_id(ls, x),
{
    lemma_locate(ls, id, 0);
    if let Some((a, b)) = locate(ls, id, 0) {
        let q = ls[a].orders;
        let to_back = crate::orderbook::types::total_of(p) > crate::orderbook::types::total_of(q[b]);
        let nq = if to_back { q.remove(b).push(p) } else { q.update(b, p) };
        let out = resize_in_side(ls, id, p);
        assert(out == ls.update(a, LevelView { price: ls[a].price, orders: nq }));
        assert(forall|k: int| 0 <= k < nq.len() ==> (#[trigger] nq[k]).id == id || exists|j: int| 0 <= j < q.len() && j != b && nq[k] == q[j]) by {
            assert forall|k: int| 0 <= k < nq.len() implies (#[trigger] nq[k]).id == id || exists|j: int| 0 <= j < q.len() && j != b && nq[k] == q[j] by {
                if to_back {
                    if k < q.len() - 1 {
                        if k < b {
                            assert(nq[k] == q[k]);
                        } else {
                            assert(nq[k] == q[k + 1]);
                        }
                    }
                } else {
                    if k != b {
                        assert(nq[k] == q[k]);
                    }
                }
            }
        }
        assert(ids_distinct(nq)) by {
            assert forall|x: int, y: int| 0 <= x < y < nq.len() implies (#[trigger] nq[x]).id != (#[trigger] nq[y]).id by {
                if to_back {
                    if y == nq.len() - 1 {
                        let xi = if x < b { x } else { x + 1 };
                        assert(nq[x] == q[xi]);
                        assert(q[xi].id != q[b].id);
                    } else {
                        let xi = if x < b { x } else { x + 1 };
                        let yi = if y < b { y } else { y + 1 };
                        assert(nq[x] == q[xi]);
                        assert(nq[y] == q[yi]);
                    }
                } else {
                    if x == b {
                        assert(nq[y] == q[y]);
                        assert(q[b].id != q[y].id);
                    } else if y == b {
                        assert(nq[x] == q[x]);
                        assert(q[x].id != q[b].id);
                    } else {
                        assert(nq[x] == q[x]);
                        assert(nq[y] == q[y]);
                    }
                }
            }
        }
        assert(queue_ok(nq, ls[a].price, side)) by {
            assert forall|k: int| 0 <= k < nq.len() implies (#[trigger] nq[k]).price == ls[a].price && nq[k].side == side && crate::orderbook::level::step_ok(nq[k]) by {
                if to_back {
                    if k < q.len() - 1 {
                        if k < b {
                            assert(nq[k] == q[k]);
                        } else {
                            assert(nq[k] == q[k + 1]);
                        }
                    }
                } else {
                    if k != b {
                        assert(nq[k] == q[k]);
                    }
                }
            }
        }
        assert forall|i: int| 0 <= i < out.len() implies (#[trigger] out[i]).orders.len() > 0 && ids_distinct(out[i].orders) && queue_ok(out[i].orders, out[i].price, side) by {
            if i != a {
                assert(out[i] == ls[i]);
            }
        }
        assert forall|i: int, j: int| 0 <= i < j < out.len() implies better(side, (#[trigger] out[i]).price, (#[trigger] out[j]).price) by {
            assert(out[i].price == ls[i].price);
            assert(out[j].price == ls[j].price);
        }
        assert forall|x: u128| side_has_id(out, x) implies side_has_id(ls, x) by {
            let (i, k) = choose|i: int, k: int| 0 <= i < out.len() && 0 <= k < out[i].orders.len() && (#[trigger] out[i].orders[k]).id == x;
            if i != a {
                assert(out[i] == ls[i]);
            } else {
                if nq[k].id == id {
                    assert(ls[a].orders[b].id == x);
                } else {
                    let j = choose|j: int| 0 <= j < q.len() && j != b && nq[k] == q[j];
                    assert(ls[a].orders[j].id == x);
                }
            }
        }
    }
}

fn locate_exec(v: &Vec<Level>, id: u128) -> (r: Option<(usize, usize)>)
    ensures
        r is None <==> locate(sview(v@), id, 0) is None,
        r matches Some((a, b)) ==> locate(sview(v@), id, 0) == Some((a as int, b as int)),
{
    let ghost ls = sview(v@);
    let mut i: usize = 0;
    while i < v.len()
        invariant
            i <= v@.len(),
            ls == sview(v@),
            locate(ls, id, i as int) == locate(ls, id, 0),
        decreases v@.len() - i,
    {
        assert(ls[i as int].orders == v@[i as int].orders@);
        if v[i].has_order(id) {
            let q = &v[i].orders;
            let mut k: usize = 0;
            while k < q.len() && q[k].id != id
                invariant
                    k <= q@.len(),
                    q@ == ls[i as int].orders,
                    position_of(q@, id, k as int) == position_of(q@, id, 0),
                decreases q@.len() - k,
            {
                k += 1;
            }
            return Some((i, k));
        }
        i += 1;
    }
    None
}

fn resize_exec(v: &mut Vec<Level>, id: u128, p: Order)
    ensures
        sview(final(v)@) == resize_in_side(sview(old(v)@), id, p),
{
    let ghost ls = sview(v@);
    match locate_exec(v, id) {
        Some((a, b)) => {
            proof {
                lemma_locate(ls, id, 0);
                assert(lview(v@[a as int]) == ls[a as int]);
            }
            let mut l = v.remove(a);
            assert(l.orders@ == ls[a as int].orders);
            let cur = l.orders[b];
            assert(cur == ls[a as int].orders[b as int]);
            let grows = (cur.visible_quantity() as u128 + cur.hidden_quantity() as u128) < (p.visible_quantity() as u128 + p.hidden_quantity() as u128);
            if grows {
                l.orders.remove(b);
                l.orders.push(p);
            } else {
                l.orders.set(b, p);
            }
            v.insert(a, l);
            proof {
                let q = ls[a as int].orders;
                let nq = if grows { q.remove(b as int).push(p) } else { q.update(b as int, p) };
                assert(l.orders@ =~= nq);
                assert(grows == (crate::orderbook::types::total_of(p) > crate::orderbook::types::total_of(q[b as int])));
                assert(lview(l) == LevelView { price: ls[a as int].price, orders: nq });
                assert(resize_in_side(ls, id, p) == requeue(ls, a as int, b as int, p, grows));
                assert(sview(v@) =~= resize_in_side(ls, id, p)) by {
                    assert forall|k: int| 0 <= k < v@.len() implies #[trigger] sview(v@)[k] == resize_in_side(ls, id, p)[k] by {
                        if k != a {
                            assert(v@[k] == old(v)@[k]);
                        }
                    }
                }
            }
        },
        None => {},
    }
}

/// A resting order found on a well-formed book is well formed.
pub proof fn lemma_found_wf(v: BookView, id: u128)
    requires
        v.wf(),
    ensures
        find_order(v, id) matches Some(o) ==> crate::orderbook::level::step_ok(o) && o.id == id,
{
    lemma_find_in_side(v.bids, id, 0);
    lemma_find_in_side(v.asks, id, 0);
}

/// The outcome of a match.
#[derive(Debug, Clone, PartialEq, Eq)]
pub struct MatchResult {
    /// The incoming order.
    pub order_id: u128,
    /// Quantity of the incoming order left unfilled (`0` on the notional
    /// path).
    pub remaining_quantity: u64,
    /// Executions in the order they happened.
    pub trades: Vec<Trade>,
    /// Resting orders that left the book by being filled.
    pub filled_order_ids: Vec<u128>,
}

impl MatchResult {
    /// Whether nothing is left unfilled.
    pub fn is_complete(&self) -> (r: bool)
        ensures
            r == (self.remaining_quantity == 0),
    {
        self.remaining_quantity == 0
    }
}

/// The order book.
pub struct OrderBook<C> {
    pub(crate) symbol: String,
    pub(crate) bids: Vec<Level>,
    pub(crate) asks: Vec<Level>,
    pub(crate) last_trade_price: Option<u128>,
    pub(crate) market_close_timestamp: Option<u64>,
    pub(crate) tick_size: Option<u128>,
    pub(crate) lot_size: Option<u64>,
    pub(crate) min_order_size: Option<u64>,
    pub(crate) max_order_size: Option<u64>,
    pub(crate) stp_mode: STPMode,
    pub(crate) fee_schedule: Option<FeeSchedule>,
    pub(crate) kill_switch: bool,
    pub(crate) order_state_tracker: Option<OrderStateTracker<MonotonicClock>>,
    pub(crate) clock: C,
    pub(crate) last_clock_reading: u64,
}

/// The initial progress of a walk with budget `mode`.
pub open spec fn walk_start(mode: MatchMode) -> WalkView {
    WalkView {
        stop: match mode {
            MatchMode::BaseQty { quantity, .. } => StopCondition::BaseQty { remaining: quantity },
            MatchMode::QuoteAmount { amount } => StopCondition::QuoteAmount { remaining: amount },
        },
        trades: seq![],
        filled: seq![],
        stp_cancelled: false,
        last_price: None,
    }
}

/// What a finished walk reports: the self-trade-prevention error when the
/// incoming order was cancelled before any fill, an insufficient-liquidity
/// error when a market order found nothing, otherwise the unfilled quantity
/// (the base remainder, `0` on the notional path).
pub open spec fn walk_verdict(w: WalkView, mode: MatchMode, side: Side, taker: u128, user: u128, stp_mode: STPMode) -> Result<u64, OrderBookError> {
    if w.stp_cancelled && w.trades.len() == 0 {
        Err(OrderBookError::SelfTradePrevented { mode: stp_mode, taker_order_id: taker, user_id: user })
    } else if w.trades.len() == 0 {
        match mode {
            MatchMode::BaseQty { quantity, limit_price: None } => Err(
                OrderBookError::InsufficientLiquidity { side, requested: quantity, available: 0 },
            ),
            MatchMode::QuoteAmount { amount } => Err(
                OrderBookError::InsufficientLiquidityNotional { side, requested: amount, spent: 0 },
            ),
            _ => Ok(walk_remaining(w)),
        }
    } else {
        Ok(walk_remaining(w))
    }
}

/// The unfilled base quantity a walk reports (`0` on the notional path).
pub open spec fn walk_remaining(w: WalkView) -> u64 {
    match w.stop {
        StopCondition::BaseQty { remaining } => remaining,
        StopCondition::QuoteAmount { .. } => 0,
    }
}

/// The book as a mathematical value: both sides and the rules that govern
/// admission and matching.
pub struct BookView {
    pub bids: Seq<LevelView>,
    pub asks: Seq<LevelView>,
    pub last_trade_price: Option<u128>,
    pub market_close: Option<u64>,
    pub tick_size: Option<u128>,
    pub lot_size: Option<u64>,
    pub min_order_size: Option<u64>,
    pub max_order_size: Option<u64>,
    pub stp_mode: STPMode,
    /// Whether the kill switch halts new order entry.
    pub kill_switch: bool,
}

impl BookView {
    /// The book's invariant: both sides well formed.
    pub open spec fn wf(&self) -> bool {
        side_wf(self.bids, Side::Buy) && side_wf(self.asks, Side::Sell)
    }

    /// The resting side for orders of `side`.
    pub open spec fn side_levels(&self, side: Side) -> Seq<LevelView> {
        match side {
            Side::Buy => self.bids,
            Side::Sell => self.asks,
        }
    }

    /// The walk context of an incoming order.
    pub open spec fn walk_ctx(&self, side: Side, limit: Option<u128>, taker: u128, user: u128) -> WalkCtx {
        WalkCtx {
            side,
            limit,
            lot: match self.lot_size {
                Some(l) => l,
                None => 1,
            },
            taker_id: taker,
            stp: !(self.stp_mode is Disabled) && user != 0,
            user,
            mode: self.stp_mode,
        }
    }

    /// The walk an incoming order makes over the opposite side.
    pub open spec fn spec_walk(&self, side: Side, mode: MatchMode, taker: u128, user: u128) -> (Seq<LevelView>, WalkView) {
        let limit = match mode {
            MatchMode::BaseQty { limit_price, .. } => limit_price,
            MatchMode::QuoteAmount { .. } => None,
        };
        walk(self.side_levels(spec_opposite(side)), 0, seq![], walk_start(mode), self.walk_ctx(side, limit, taker, user))
    }

    /// Whether price `price` on `side` would trade against the opposite
    /// side's best price.
    pub open spec fn spec_will_cross(&self, price: u128, side: Side) -> bool {
        match side {
            Side::Buy => self.asks.len() > 0 && price >= self.asks[0].price,
            Side::Sell => self.bids.len() > 0 && price <= self.bids[0].price,
        }
    }

    /// The opposite side's best price, or `0` when it is empty.
    pub open spec fn opposite_best(&self, side: Side) -> u128 {
        match side {
            Side::Buy => if self.asks.len() > 0 { self.asks[0].price } else { 0 },
            Side::Sell => if self.bids.len() > 0 { self.bids[0].price } else { 0 },
        }
    }

    /// How much of `o` a fill-or-kill dry run of the walk would fill.
    pub open spec fn spec_fok_fillable(&self, o: Order) -> u64 {
        let total = crate::orderbook::types::total_of(o) as u64;
        let w = self.spec_walk(o.side, MatchMode::BaseQty { quantity: total, limit_price: Some(o.price) }, o.id, o.user_id).1;
        crate::orderbook::order::sat_sub(total, walk_remaining(w))
    }

    /// The shape rules, in order: representable total, no non-replenishing
    /// reserve that displays nothing, a user id under self-trade
    /// prevention, tick size, lot size, minimum and maximum size, expiry at
    /// `now`, post-only not crossing, fill-or-kill fully fillable.
    pub open spec fn spec_validate(&self, o: Order, now: u64) -> Verdict {
        let total = crate::orderbook::types::total_of(o);
        if total > u64::MAX {
            Verdict::Reject(OrderBookError::QuantityOverflow {
                visible: crate::orderbook::types::visible_of(o),
                hidden: crate::orderbook::types::hidden_of(o),
            })
        } else if is_ghost_reserve(o) {
            Verdict::Reject(OrderBookError::ZeroVisibleTranche { order_id: o.id, hidden_quantity: crate::orderbook::types::hidden_of(o) })
        } else if !(self.stp_mode is Disabled) && o.user_id == 0 {
            Verdict::Reject(OrderBookError::MissingUserId { order_id: o.id })
        } else if self.tick_size matches Some(t) && t > 0 && o.price % t != 0 {
            Verdict::Reject(OrderBookError::InvalidTickSize { price: o.price, tick_size: self.tick_size->0 })
        } else if self.lot_size matches Some(l) && l > 0 && lot_violation(o, l) is Some {
            Verdict::Reject(OrderBookError::InvalidLotSize {
                quantity: lot_violation(o, self.lot_size->0)->0,
                lot_size: self.lot_size->0,
            })
        } else if self.min_order_size matches Some(m) && total < m {
            Verdict::Reject(OrderBookError::OrderSizeOutOfRange {
                quantity: total as u64,
                min: self.min_order_size,
                max: self.max_order_size,
            })
        } else if self.max_order_size matches Some(m) && total > m {
            Verdict::Reject(OrderBookError::OrderSizeOutOfRange {
                quantity: total as u64,
                min: self.min_order_size,
                max: self.max_order_size,
            })
        } else if crate::orderbook::types::spec_is_expired(o.time_in_force, now, self.market_close) {
            Verdict::Invalid(expired_message())
        } else if o.kind is PostOnly && self.spec_will_cross(o.price, o.side) {
            Verdict::Reject(OrderBookError::PriceCrossing { price: o.price, side: o.side, opposite_price: self.opposite_best(o.side) })
        } else if o.time_in_force is Fok && self.spec_fok_fillable(o) < total {
            Verdict::Reject(OrderBookError::InsufficientLiquidity {
                side: o.side,
                requested: total as u64,
                available: self.spec_fok_fillable(o),
            })
        } else {
            Verdict::Accept
        }
    }

    /// Whether an order with `id` rests anywhere on the book.
    pub open spec fn has_order_id(&self, id: u128) -> bool {
        side_has_id(self.bids, id) || side_has_id(self.asks, id)
    }

    /// Everything `add_order` checks before it matches: a representable
    /// total, a fresh id, the shape rules, and for a resting order that
    /// crosses, room at its level for its whole total.
    pub open spec fn spec_admission(&self, o: Order, now: u64) -> Verdict {
        let total = crate::orderbook::types::total_of(o);
        if self.kill_switch {
            Verdict::Reject(OrderBookError::KillSwitchActive)
        } else if total > u64::MAX {
            Verdict::Reject(OrderBookError::QuantityOverflow {
                visible: crate::orderbook::types::visible_of(o),
                hidden: crate::orderbook::types::hidden_of(o),
            })
        } else if self.has_order_id(o.id) {
            Verdict::Reject(OrderBookError::DuplicateOrderId { order_id: o.id })
        } else if !(self.spec_validate(o, now) is Accept) {
            self.spec_validate(o, now)
        } else if !crate::orderbook::types::spec_is_immediate(o.time_in_force) && self.spec_will_cross(o.price, o.side)
            && find_price(self.side_levels(o.side), o.price, 0) < self.side_levels(o.side).len()
            && queue_total(self.side_levels(o.side)[find_price(self.side_levels(o.side), o.price, 0)].orders) + total > u64::MAX {
            Verdict::Invalid(capacity_message(o.id, o.price))
        } else {
            Verdict::Accept
        }
    }

    /// The walk an admitted order makes: its whole total, limited at its
    /// price.
    pub open spec fn spec_add_walk(&self, o: Order) -> (Seq<LevelView>, WalkView) {
        self.spec_walk(o.side, MatchMode::BaseQty {
            quantity: crate::orderbook::types::total_of(o) as u64,
            limit_price: Some(o.price),
        }, o.id, o.user_id)
    }
    /// Whether re-adding `o` would cross into the same user's resting
    /// liquidity and be cancelled by prevention (modes that cancel the
    /// incoming order only) with quantity still unfilled.
    pub open spec fn stp_self_cross(&self, o: Order) -> bool {
        let w = self.spec_add_walk(o).1;
        &&& (self.stp_mode is CancelTaker || self.stp_mode is CancelBoth)
        &&& o.user_id != 0
        &&& w.stp_cancelled
        &&& walk_remaining(w) > 0
    }

    /// The rejection of a re-add that would exhaust a non-replenishing
    /// reserve's visible tranche without filling it completely, discarding
    /// its hidden remainder.
    pub open spec fn reserve_discard(&self, o: Order) -> Option<OrderBookError> {
        match o.kind {
            crate::orderbook::types::OrderKind::Reserve { visible, hidden, auto_replenish, .. } => {
                let c = self.spec_fok_fillable(o);
                if !auto_replenish && hidden > 0 && c > 0 && c >= visible && c < visible + hidden {
                    Some(OrderBookError::ReserveResidualWouldBeDiscarded {
                        order_id: o.id,
                        visible_quantity: visible,
                        crossable_quantity: c,
                        hidden_quantity: hidden,
                        discarded_quantity: (visible + hidden - c) as u64,
                    })
                } else {
                    None
                }
            },
            _ => None,
        }
    }

    /// The checks a cancel-then-add modify runs before it cancels: the shape
    /// rules, then the self-cross and reserve-residual pre-checks.
    pub open spec fn modify_verdict(&self, o: Order, now: u64) -> Verdict {
        let v = self.spec_validate(o, now);
        if !(v is Accept) {
            v
        } else if self.stp_self_cross(o) {
            Verdict::Reject(OrderBookError::SelfTradePrevented { mode: self.stp_mode, taker_order_id: o.id, user_id: o.user_id })
        } else if self.reserve_discard(o) is Some {
            Verdict::Reject(self.reserve_discard(o)->0)
        } else {
            Verdict::Accept
        }
    }

}

/// What matching an incoming order of `side` with budget `mode` does to a
/// book `v0`, leaving `v1` and returning `r`.
pub open spec fn match_holds(v0: BookView, v1: BookView, side: Side, mode: MatchMode, id: u128, user: u128, r: Result<MatchResult, OrderBookError>) -> bool {
    let (opp, w) = v0.spec_walk(side, mode, id, user);
    &&& v1.market_close == v0.market_close
    &&& v1.tick_size == v0.tick_size
    &&& v1.lot_size == v0.lot_size
    &&& v1.min_order_size == v0.min_order_size
    &&& v1.max_order_size == v0.max_order_size
    &&& v1.stp_mode == v0.stp_mode
    &&& v1.side_levels(side) == v0.side_levels(side)
    &&& v1.side_levels(spec_opposite(side)) == opp
    &&& v1.last_trade_price == (match w.last_price {
        Some(p) => Some(p),
        None => v0.last_trade_price,
    })
    &&& match walk_verdict(w, mode, side, id, user, v0.stp_mode) {
        Ok(remaining) => r matches Ok(m) && m.order_id == id && m.remaining_quantity == remaining
            && m.trades@ == w.trades && m.filled_order_ids@ == w.filled,
        Err(e) => r == Err::<MatchResult, OrderBookError>(e),
    }
}

/// The status an admission refusal records, when it records one: kill
/// switch, shape and post-only refusals are `Rejected` with their reason, an
/// unfillable fill-or-kill is `Cancelled` for insufficient liquidity, a
/// duplicate id records nothing (the id belongs to a live order).
pub open spec fn rejection_status(e: OrderBookError) -> Option<OrderStatus> {
    match e {
        OrderBookError::KillSwitchActive => Some(OrderStatus::Rejected { reason: RejectReason::KillSwitchActive }),
        OrderBookError::MissingUserId { .. } => Some(OrderStatus::Rejected { reason: RejectReason::MissingUserId }),
        OrderBookError::QuantityOverflow { .. } => Some(OrderStatus::Rejected { reason: RejectReason::InvalidQuantity }),
        OrderBookError::ZeroVisibleTranche { .. } => Some(OrderStatus::Rejected { reason: RejectReason::InvalidQuantity }),
        OrderBookError::InvalidLotSize { .. } => Some(OrderStatus::Rejected { reason: RejectReason::InvalidQuantity }),
        OrderBookError::InvalidTickSize { .. } => Some(OrderStatus::Rejected { reason: RejectReason::InvalidPrice }),
        OrderBookError::OrderSizeOutOfRange { .. } => Some(OrderStatus::Rejected { reason: RejectReason::OrderSizeOutOfRange }),
        OrderBookError::PriceCrossing { .. } => Some(OrderStatus::Rejected { reason: RejectReason::PostOnlyWouldCross }),
        OrderBookError::InsufficientLiquidity { .. } => Some(
            OrderStatus::Cancelled { filled_quantity: 0, reason: CancelReason::InsufficientLiquidity },
        ),
        _ => None,
    }
}

/// The status an admitted order ends in, given its walk `w` and the side it
/// would rest on: cancelled by prevention or for insufficient liquidity
/// with what it filled, filled (wholly, or up to an exhausted reserve),
/// rejected when its level cannot take the residual, otherwise resting as
/// open or partially filled.
pub open spec fn settle_status(order: Order, w: WalkView, same: Seq<LevelView>) -> OrderStatus {
    let total = crate::orderbook::types::total_of(order);
    let rem = walk_remaining(w);
    let filled = (total - rem) as u64;
    let o2 = residual(order, rem);
    if w.stp_cancelled {
        OrderStatus::Cancelled { filled_quantity: filled, reason: CancelReason::SelfTradePrevention }
    } else if rem > 0 && crate::orderbook::types::spec_is_immediate(order.time_in_force) {
        OrderStatus::Cancelled { filled_quantity: filled, reason: CancelReason::InsufficientLiquidity }
    } else if rem > 0 && rem < total && is_ghost_reserve(o2) {
        OrderStatus::Filled { filled_quantity: filled }
    } else if rem > 0 && !rest_fits(same, o2) {
        OrderStatus::Rejected { reason: RejectReason::InvalidQuantity }
    } else if rem > 0 {
        if rem < total {
            OrderStatus::PartiallyFilled { original_quantity: total as u64, filled_quantity: filled }
        } else {
            OrderStatus::Open
        }
    } else {
        OrderStatus::Filled { filled_quantity: total as u64 }
    }
}

/// The status admitting `o` at `now` records for it on the book `v`, when
/// it records one; an order refused as already expired records nothing.
pub open spec fn add_status(v: BookView, o: Order, now: u64) -> Option<OrderStatus> {
    match v.spec_admission(o, now) {
        Verdict::Accept => Some(settle_status(o, v.spec_add_walk(o).1, v.side_levels(o.side))),
        Verdict::Reject(e) => rejection_status(e),
        Verdict::Invalid(_) => if crate::orderbook::types::spec_is_expired(o.time_in_force, now, v.market_close) {
            None
        } else {
            Some(OrderStatus::Rejected { reason: RejectReason::InvalidQuantity })
        },
    }
}

/// The tracker `t1` is `t0` after recording `status` for `id`: unchanged
/// when there is no tracker or nothing to record.
pub open spec fn tracker_after(
    t0: Option<OrderStateTracker<MonotonicClock>>,
    t1: Option<OrderStateTracker<MonotonicClock>>,
    id: u128,
    status: Option<OrderStatus>,
) -> bool {
    match (t0, status) {
        (Some(a), Some(st)) => t1 matches Some(b) && transitioned(a, b, id, st),
        _ => t1 == t0,
    }
}

/// The status a user cancel records for `id` on a tracker `t`: cancelled
/// on request, keeping what the order had filled.
pub open spec fn user_cancel_status(t: Option<OrderStateTracker<MonotonicClock>>, id: u128) -> OrderStatus {
    OrderStatus::Cancelled {
        filled_quantity: match t {
            Some(x) => filled_before(x, id),
            None => 0,
        },
        reason: CancelReason::UserRequested,
    }
}

/// What admitting `order` at time `now` does to a book `v0`, leaving `v1`
/// and returning `r`.
pub open spec fn add_holds(v0: BookView, v1: BookView, order: Order, r: Result<(Order, Option<MatchResult>), OrderBookError>, now: u64) -> bool {
    let adm = v0.spec_admission(order, now);
    let (opp2, w) = v0.spec_add_walk(order);
    &&& v1.market_close == v0.market_close
    &&& v1.tick_size == v0.tick_size
    &&& v1.lot_size == v0.lot_size
    &&& v1.min_order_size == v0.min_order_size
    &&& v1.max_order_size == v0.max_order_size
    &&& v1.stp_mode == v0.stp_mode
    &&& if !(adm is Accept) {
        &&& rejects_as(r, adm)
        &&& r is Err
        &&& v1.bids == v0.bids
        &&& v1.asks == v0.asks
        &&& v1.last_trade_price == v0.last_trade_price
    } else {
        &&& v1.side_levels(spec_opposite(order.side)) == opp2
        &&& v1.last_trade_price == (match w.last_price {
            Some(p) => Some(p),
            None => v0.last_trade_price,
        })
        &&& settles(r, order, w, v0.side_levels(order.side), v1.side_levels(order.side), v0.stp_mode)
    }
}

/// The book with the order `id` cancelled.
pub open spec fn cancel_view(v: BookView, id: u128) -> BookView {
    BookView { bids: side_without(v.bids, id), asks: side_without(v.asks, id), ..v }
}

/// The first resting order with `id` on the book (bids first).
pub open spec fn find_order(v: BookView, id: u128) -> Option<Order> {
    match find_in_side(v.bids, id, 0) {
        Some(o) => Some(o),
        None => find_in_side(v.asks, id, 0),
    }
}

/// A change to a resting order.
#[derive(Debug, Clone, Copy, PartialEq, Eq)]
pub enum OrderUpdate {
    /// Move the order to a new price (cancel, then add).
    UpdatePrice { order_id: u128, new_price: u128 },
    /// Resize the order (the visible tranche of a two-tranche order); zero
    /// cancels it.
    UpdateQuantity { order_id: u128, new_quantity: u64 },
    /// Move and resize (cancel, then add).
    UpdatePriceAndQuantity { order_id: u128, new_price: u128, new_quantity: u64 },
    /// Cancel the order.
    Cancel { order_id: u128 },
    /// Replace price, quantity and side (cancel, then add).
    Replace { order_id: u128, price: u128, quantity: u64, side: Side },
}

/// The order with a new price.
pub open spec fn with_price(o: Order, p: u128) -> Order {
    Order { price: p, ..o }
}

/// The order replaced by a new price, quantity and side.
pub open spec fn replaced(o: Order, price: u128, quantity: u64, side: Side) -> Order {
    Order { price, side, ..crate::orderbook::order::with_visible(o, quantity) }
}

/// What a cancel-then-add modify of `new_order` at time `now` does to `v0`,
/// leaving `v1` and returning `r`.
pub open spec fn readd_holds(v0: BookView, v1: BookView, new_order: Order, r: Result<Option<Order>, OrderBookError>, now: u64) -> bool {
    let mv = v0.modify_verdict(new_order, now);
    if !(mv is Accept) {
        &&& rejects_as(r, mv)
        &&& r is Err
        &&& v1 == v0
    } else {
        exists|full: Result<(Order, Option<MatchResult>), OrderBookError>|
            add_holds(cancel_view(v0, new_order.id), v1, new_order, full, now) && r == (match full {
                Ok((o, _)) => Ok::<Option<Order>, OrderBookError>(Some(o)),
                Err(e) => Err(e),
            })
    }
}

/// What a cancel-then-add modify of `new_order` records on a tracker `t0`,
/// leaving `t1`: nothing when its checks refuse it; otherwise the user
/// cancel of the resting order, then the status its admission records.
pub open spec fn readd_tracked(
    t0: Option<OrderStateTracker<MonotonicClock>>,
    t1: Option<OrderStateTracker<MonotonicClock>>,
    v0: BookView,
    new_order: Order,
    now: u64,
) -> bool {
    if !(v0.modify_verdict(new_order, now) is Accept) {
        t1 == t0
    } else {
        exists|tm: Option<OrderStateTracker<MonotonicClock>>|
            tracker_after(
                t0,
                tm,
                new_order.id,
                if find_order(v0, new_order.id) is Some { Some(user_cancel_status(t0, new_order.id)) } else { None },
            ) && add_tracked(tm, t1, cancel_view(v0, new_order.id), new_order, now)
    }
}

/// The status cancelling `id` for `reason` records on a tracker `t`:
/// cancelled, keeping what the order had filled.
pub open spec fn cancel_status(t: Option<OrderStateTracker<MonotonicClock>>, id: u128, reason: CancelReason) -> OrderStatus {
    OrderStatus::Cancelled {
        filled_quantity: match t {
            Some(x) => filled_before(x, id),
            None => 0,
        },
        reason,
    }
}

/// The trackers `ts` step through cancelling the orders `ids` in order for
/// `reason`: `ts[k + 1]` is `ts[k]` after cancelling `ids[k]`.
pub open spec fn cancel_steps(ts: Seq<Option<OrderStateTracker<MonotonicClock>>>, ids: Seq<u128>, reason: CancelReason) -> bool {
    &&& ts.len() == ids.len() + 1
    &&& forall|k: int|
        0 <= k < ids.len() ==> tracker_after(#[trigger] ts[k], ts[k + 1], ids[k], Some(cancel_status(ts[k], ids[k], reason)))
}

/// What cancelling the orders `ids`, in that order and for `reason`,
/// records on a tracker `t0`, leaving `t1`: each is cancelled keeping what
/// it had filled.
pub open spec fn cancels_tracked(
    t0: Option<OrderStateTracker<MonotonicClock>>,
    t1: Option<OrderStateTracker<MonotonicClock>>,
    ids: Seq<u128>,
    reason: CancelReason,
) -> bool {
    exists|ts: Seq<Option<OrderStateTracker<MonotonicClock>>>|
        #[trigger] cancel_steps(ts, ids, reason) && ts[0] == t0 && ts[ids.len() as int] == t1
}

/// The quantity the trades `t` executed against the resting order `id`
/// (saturating).
pub open spec fn maker_fill(t: Seq<Trade>, id: u128) -> u64
    decreases t.len(),
{
    if t.len() == 0 {
        0
    } else {
        let p = maker_fill(t.drop_last(), id);
        if t.last().maker_order_id == id {
            crate::orderbook::order::sat_add(p, t.last().quantity)
        } else {
            p
        }
    }
}

/// The trackers `ts` step through recording each of `ids` as filled by the
/// trades `t`: `ts[k + 1]` is `ts[k]` after recording `ids[k]`.
pub open spec fn fill_steps(ts: Seq<Option<OrderStateTracker<MonotonicClock>>>, ids: Seq<u128>, t: Seq<Trade>) -> bool {
    &&& ts.len() == ids.len() + 1
    &&& forall|k: int|
        0 <= k < ids.len() ==> tracker_after(
            #[trigger] ts[k],
            ts[k + 1],
            ids[k],
            Some(OrderStatus::Filled { filled_quantity: maker_fill(t, ids[k]) }),
        )
}

/// What recording the resting orders `ids` as filled by the trades `t`, in
/// order, does to a tracker `t0`, leaving `t1`: each is `Filled` with what
/// the trades executed against it.
pub open spec fn fills_tracked(
    t0: Option<OrderStateTracker<MonotonicClock>>,
    t1: Option<OrderStateTracker<MonotonicClock>>,
    ids: Seq<u128>,
    t: Seq<Trade>,
) -> bool {
    exists|ts: Seq<Option<OrderStateTracker<MonotonicClock>>>|
        #[trigger] fill_steps(ts, ids, t) && ts[0] == t0 && ts[ids.len() as int] == t1
}

/// What admitting `o` at `now` on the book `v` records on a tracker `t0`,
/// leaving `t1`: when admitted, each resting order its walk filled, then the
/// status it ends in; when refused, the refusal's status.
pub open spec fn add_tracked(
    t0: Option<OrderStateTracker<MonotonicClock>>,
    t1: Option<OrderStateTracker<MonotonicClock>>,
    v: BookView,
    o: Order,
    now: u64,
) -> bool {
    if v.spec_admission(o, now) is Accept {
        let w = v.spec_add_walk(o).1;
        exists|tm: Option<OrderStateTracker<MonotonicClock>>|
            #[trigger] fills_tracked(t0, tm, w.filled, w.trades) && tracker_after(tm, t1, o.id, add_status(v, o, now))
    } else {
        tracker_after(t0, t1, o.id, add_status(v, o, now))
    }
}

/// What matching an incoming order of `side` with budget `mode` on the book
/// `v` records on a tracker `t0`, leaving `t1`: each resting order the walk
/// filled, then, when prevention cancelled the incoming order before any
/// fill, its cancellation.
pub open spec fn match_tracked(
    t0: Option<OrderStateTracker<MonotonicClock>>,
    t1: Option<OrderStateTracker<MonotonicClock>>,
    v: BookView,
    side: Side,
    mode: MatchMode,
    id: u128,
    user: u128,
) -> bool {
    let w = v.spec_walk(side, mode, id, user).1;
    exists|tm: Option<OrderStateTracker<MonotonicClock>>|
        #[trigger] fills_tracked(t0, tm, w.filled, w.trades) && tracker_after(
            tm,
            t1,
            id,
            if w.stp_cancelled && w.trades.len() == 0 {
                Some(OrderStatus::Cancelled { filled_quantity: 0, reason: CancelReason::SelfTradePrevention })
            } else {
                None
            },
        )
}

/// Cancelling no orders records nothing.
pub proof fn lemma_no_cancels(t: Option<OrderStateTracker<MonotonicClock>>, reason: CancelReason)
    ensures
        cancels_tracked(t, t, Seq::<u128>::empty(), reason),
{
    assert(cancel_steps(seq![t], Seq::<u128>::empty(), reason));
}

/// The first level and position of the order `id` on a side from level `i`.
pub open spec fn locate(ls: Seq<LevelView>, id: u128, i: int) -> Option<(int, int)>
    decreases ls.len() - i,
{
    if i < 0 || i >= ls.len() {
        None
    } else if crate::orderbook::level::queue_has_id(ls[i].orders, id) {
        Some((i, position_of(ls[i].orders, id, 0)))
    } else {
        locate(ls, id, i + 1)
    }
}

/// The first position of `id` in a queue from `i`.
pub open spec fn position_of(q: Seq<Order>, id: u128, i: int) -> int
    decreases q.len() - i,
{
    if i < 0 || i >= q.len() {
        q.len() as int
    } else if q[i].id == id {
        i
    } else {
        position_of(q, id, i + 1)
    }
}

/// The side with the order at level `a`, position `b` replaced by `p`: in
/// place, or moved to the back of its level.
pub open spec fn requeue(ls: Seq<LevelView>, a: int, b: int, p: Order, to_back: bool) -> Seq<LevelView> {
    ls.update(a, LevelView {
        price: ls[a].price,
        orders: if to_back {
            ls[a].orders.remove(b).push(p)
        } else {
            ls[a].orders.update(b, p)
        },
    })
}

/// The side after resizing the order `id` to `p`: in place when its total
/// does not grow, at the back of its level when it does.
pub open spec fn resize_in_side(ls: Seq<LevelView>, id: u128, p: Order) -> Seq<LevelView> {
    match locate(ls, id, 0) {
        Some((a, b)) => requeue(ls, a, b, p, crate::orderbook::types::total_of(p) > crate::orderbook::types::total_of(ls[a].orders[b])),
        None => ls,
    }
}

impl<C: Clock> View for OrderBook<C> {
    type V = BookView;

    /// The book's value.
    closed spec fn view(&self) -> BookView {
        BookView {
            bids: sview(self.bids@),
            asks: sview(self.asks@),
            last_trade_price: self.last_trade_price,
            market_close: self.market_close_timestamp,
            tick_size: self.tick_size,
            lot_size: self.lot_size,
            min_order_size: self.min_order_size,
            max_order_size: self.max_order_size,
            stp_mode: self.stp_mode,
            kill_switch: self.kill_switch,
        }
    }
}

impl<C: Clock> OrderBook<C> {
    /// The view's sides are the values of the book's level vectors.
    pub(crate) proof fn lemma_view_sides(&self)
        ensures
            self.bids() == sview(self.bids@),
            self.asks() == sview(self.asks@),
            self.spec_last_trade_price() == self.last_trade_price,
            self.spec_symbol() == self.symbol@,
            self.spec_market_close() == self.market_close_timestamp,
            self.spec_tick_size() == self.tick_size,
            self.spec_lot_size() == self.lot_size,
            self.spec_min_order_size() == self.min_order_size,
            self.spec_max_order_size() == self.max_order_size,
            self.spec_stp_mode() == self.stp_mode,
            self.spec_fee_schedule() == self.fee_schedule,
            self.spec_kill_switch() == self.kill_switch,
            self.spec_last_clock_reading() == self.last_clock_reading,
            self.spec_tracker() == self.order_state_tracker,
            self.tracker_ok() == (self.order_state_tracker matches Some(t) ==> t.wf()),
    {
    }

    /// The bid side, best (highest) price first.
    pub open spec fn bids(&self) -> Seq<LevelView> {
        self.view().bids
    }

    /// The ask side, best (lowest) price first.
    pub open spec fn asks(&self) -> Seq<LevelView> {
        self.view().asks
    }

    /// The resting side for orders of `side`.
    pub open spec fn side_levels(&self, side: Side) -> Seq<LevelView> {
        self.view().side_levels(side)
    }

    /// The book's invariant.
    pub open spec fn wf(&self) -> bool {
        self.view().wf() && self.tracker_ok()
    }

    /// The installed order-state tracker, if any.
    pub closed spec fn spec_tracker(&self) -> Option<OrderStateTracker<MonotonicClock>> {
        self.order_state_tracker
    }

    /// An installed tracker is well formed.
    pub closed spec fn tracker_ok(&self) -> bool {
        self.order_state_tracker matches Some(t) ==> t.wf()
    }

    /// The symbol.
    pub closed spec fn spec_symbol(&self) -> Seq<char> {
        self.symbol@
    }

    /// The price of the last execution, if any.
    pub open spec fn spec_last_trade_price(&self) -> Option<u128> {
        self.view().last_trade_price
    }

    /// The market close used by DAY orders, if set.
    pub open spec fn spec_market_close(&self) -> Option<u64> {
        self.view().market_close
    }

    /// Whether the kill switch is engaged.
    pub open spec fn spec_kill_switch(&self) -> bool {
        self.view().kill_switch
    }

    /// Configured tick size.
    pub open spec fn spec_tick_size(&self) -> Option<u128> {
        self.view().tick_size
    }

    /// Configured lot size.
    pub open spec fn spec_lot_size(&self) -> Option<u64> {
        self.view().lot_size
    }

    /// Configured minimum order size.
    pub open spec fn spec_min_order_size(&self) -> Option<u64> {
        self.view().min_order_size
    }

    /// Configured maximum order size.
    pub open spec fn spec_max_order_size(&self) -> Option<u64> {
        self.view().max_order_size
    }

    /// Configured self-trade-prevention mode.
    pub open spec fn spec_stp_mode(&self) -> STPMode {
        self.view().stp_mode
    }

    /// Configured fee schedule.
    pub closed spec fn spec_fee_schedule(&self) -> Option<FeeSchedule> {
        self.fee_schedule
    }

    /// The clock reading the last clock-dependent operation used.
    pub closed spec fn spec_last_clock_reading(&self) -> u64 {
        self.last_clock_reading
    }

    /// Everything but the two sides and the last trade price.
    pub open spec fn same_config(&self, other: &Self) -> bool {
        &&& self.spec_symbol() == other.spec_symbol()
        &&& self.spec_market_close() == other.spec_market_close()
        &&& self.spec_tick_size() == other.spec_tick_size()
        &&& self.spec_lot_size() == other.spec_lot_size()
        &&& self.spec_min_order_size() == other.spec_min_order_size()
        &&& self.spec_max_order_size() == other.spec_max_order_size()
        &&& self.spec_stp_mode() == other.spec_stp_mode()
        &&& self.spec_fee_schedule() == other.spec_fee_schedule()
        &&& self.spec_kill_switch() == other.spec_kill_switch()
    }

    /// The walk context of an incoming order.
    pub open spec fn walk_ctx(&self, side: Side, limit: Option<u128>, taker: u128, user: u128) -> WalkCtx {
        self.view().walk_ctx(side, limit, taker, user)
    }

    /// The walk an incoming order makes over the opposite side.
    pub open spec fn spec_walk(&self, side: Side, mode: MatchMode, taker: u128, user: u128) -> (Seq<LevelView>, WalkView) {
        self.view().spec_walk(side, mode, taker, user)
    }

    /// The shape rules (see [`BookView::spec_validate`]).
    pub open spec fn spec_validate(&self, o: Order, now: u64) -> Verdict {
        self.view().spec_validate(o, now)
    }

    /// Whether an order with `id` rests anywhere on the book.
    pub open spec fn has_order_id(&self, id: u128) -> bool {
        self.view().has_order_id(id)
    }

    /// The admission rules (see [`BookView::spec_admission`]).
    pub open spec fn spec_admission(&self, o: Order, now: u64) -> Verdict {
        self.view().spec_admission(o, now)
    }

    /// The walk an admitted order makes.
    pub open spec fn spec_add_walk(&self, o: Order) -> (Seq<LevelView>, WalkView) {
        self.view().spec_add_walk(o)
    }

    /// A new empty book on `symbol` reading time from `clock`, with no
    /// validation rules, no self-trade prevention and no fees.
    pub fn with_clock(symbol: &str, clock: C) -> (r: Self)
        ensures
            r.wf(),
            r.bids().len() == 0,
            r.asks().len() == 0,
            r.spec_symbol() == symbol@,
            r.spec_last_trade_price() is None,
            r.spec_market_close() is None,
            r.spec_tick_size() is None,
            r.spec_lot_size() is None,
            r.spec_min_order_size() is None,
            r.spec_max_order_size() is None,
            r.spec_stp_mode() is Disabled,
            r.spec_fee_schedule() is None,
            !r.spec_kill_switch(),
    {
        let mut s = String::new();
        push_str(&mut s, symbol);
        assert(s@ =~= symbol@);
        let r = OrderBook {
            symbol: s,
            bids: Vec::new(),
            asks: Vec::new(),
            last_trade_price: None,
            market_close_timestamp: None,
            tick_size: None,
            lot_size: None,
            min_order_size: None,
            max_order_size: None,
            stp_mode: STPMode::Disabled,
            fee_schedule: None,
            kill_switch: false,
            order_state_tracker: None,
            clock,
            last_clock_reading: 0,
        };
        assert(r.bids() =~= seq![]);
        assert(r.asks() =~= seq![]);
        r
    }

    /// The symbol.
    pub fn symbol(&self) -> (r: &str)
        ensures
            r@ == self.spec_symbol(),
    {
        self.symbol.as_str()
    }

    /// Set or clear the fee schedule.
    pub fn set_fee_schedule(&mut self, fee_schedule: Option<FeeSchedule>)
        ensures
            final(self).spec_fee_schedule() == fee_schedule,
            final(self).bids() == old(self).bids(),
            final(self).asks() == old(self).asks(),
            final(self).spec_last_trade_price() == old(self).spec_last_trade_price(),
            final(self).spec_symbol() == old(self).spec_symbol(),
            final(self).spec_tracker() == old(self).spec_tracker(),
            final(self).wf() == old(self).wf(),
            final(self).spec_kill_switch() == old(self).spec_kill_switch(),
            final(self).spec_market_close() == old(self).spec_market_close(),
            final(self).spec_tick_size() == old(self).spec_tick_size(),
            final(self).spec_lot_size() == old(self).spec_lot_size(),
            final(self).spec_min_order_size() == old(self).spec_min_order_size(),
            final(self).spec_max_order_size() == old(self).spec_max_order_size(),
            final(self).spec_stp_mode() == old(self).spec_stp_mode(),
    {
        self.fee_schedule = fee_schedule;
    }

    /// The fee schedule, if any.
    pub fn fee_schedule(&self) -> (r: Option<FeeSchedule>)
        ensures
            r == self.spec_fee_schedule(),
    {
        self.fee_schedule
    }

    /// Require prices to be multiples of `tick_size`.
    pub fn set_tick_size(&mut self, tick_size: u128)
        ensures
            final(self).spec_tick_size() == Some(tick_size),
            final(self).bids() == old(self).bids(),
            final(self).asks() == old(self).asks(),
            final(self).spec_last_trade_price() == old(self).spec_last_trade_price(),
            final(self).spec_symbol() == old(self).spec_symbol(),
            final(self).spec_tracker() == old(self).spec_tracker(),
            final(self).wf() == old(self).wf(),
            final(self).spec_kill_switch() == old(self).spec_kill_switch(),
            final(self).spec_market_close() == old(self).spec_market_close(),
            final(self).spec_lot_size() == old(self).spec_lot_size(),
            final(self).spec_min_order_size() == old(self).spec_min_order_size(),
            final(self).spec_max_order_size() == old(self).spec_max_order_size(),
            final(self).spec_stp_mode() == old(self).spec_stp_mode(),
            final(self).spec_fee_schedule() == old(self).spec_fee_schedule(),
    {
        self.tick_size = Some(tick_size);
    }

    /// The configured tick size, if any.
    pub fn tick_size(&self) -> (r: Option<u128>)
        ensures
            r == self.spec_tick_size(),
    {
        self.tick_size
    }

    /// Require quantities to be multiples of `lot_size`.
    pub fn set_lot_size(&mut self, lot_size: u64)
        ensures
            final(self).spec_lot_size() == Some(lot_size),
            final(self).bids() == old(self).bids(),
            final(self).asks() == old(self).asks(),
            final(self).spec_last_trade_price() == old(self).spec_last_trade_price(),
            final(self).spec_symbol() == old(self).spec_symbol(),
            final(self).spec_tracker() == old(self).spec_tracker(),
            final(self).wf() == old(self).wf(),
            final(self).spec_kill_switch() == old(self).spec_kill_switch(),
            final(self).spec_market_close() == old(self).spec_market_close(),
            final(self).spec_tick_size() == old(self).spec_tick_size(),
            final(self).spec_min_order_size() == old(self).spec_min_order_size(),
            final(self).spec_max_order_size() == old(self).spec_max_order_size(),
            final(self).spec_stp_mode() == old(self).spec_stp_mode(),
            final(self).spec_fee_schedule() == old(self).spec_fee_schedule(),
    {
        self.lot_size = Some(lot_size);
    }

    /// The configured lot size, if any.
    pub fn lot_size(&self) -> (r: Option<u64>)
        ensures
            r == self.spec_lot_size(),
    {
        self.lot_size
    }

    /// Reject orders whose total is below `size`.
    pub fn set_min_order_size(&mut self, size: u64)
        ensures
            final(self).spec_min_order_size() == Some(size),
            final(self).bids() == old(self).bids(),
            final(self).asks() == old(self).asks(),
            final(self).spec_last_trade_price() == old(self).spec_last_trade_price(),
            final(self).spec_symbol() == old(self).spec_symbol(),
            final(self).spec_tracker() == old(self).spec_tracker(),
            final(self).wf() == old(self).wf(),
            final(self).spec_kill_switch() == old(self).spec_kill_switch(),
            final(self).spec_market_close() == old(self).spec_market_close(),
            final(self).spec_tick_size() == old(self).spec_tick_size(),
            final(self).spec_lot_size() == old(self).spec_lot_size(),
            final(self).spec_max_order_size() == old(self).spec_max_order_size(),
            final(self).spec_stp_mode() == old(self).spec_stp_mode(),
            final(self).spec_fee_schedule() == old(self).spec_fee_schedule(),
    {
        self.min_order_size = Some(size);
    }

    /// Reject orders whose total is above `size`.
    pub fn set_max_order_size(&mut self, size: u64)
        ensures
            final(self).spec_max_order_size() == Some(size),
            final(self).bids() == old(self).bids(),
            final(self).asks() == old(self).asks(),
            final(self).spec_last_trade_price() == old(self).spec_last_trade_price(),
            final(self).spec_symbol() == old(self).spec_symbol(),
            final(self).spec_tracker() == old(self).spec_tracker(),
            final(self).wf() == old(self).wf(),
            final(self).spec_kill_switch() == old(self).spec_kill_switch(),
            final(self).spec_market_close() == old(self).spec_market_close(),
            final(self).spec_tick_size() == old(self).spec_tick_size(),
            final(self).spec_lot_size() == old(self).spec_lot_size(),
            final(self).spec_min_order_size() == old(self).spec_min_order_size(),
            final(self).spec_stp_mode() == old(self).spec_stp_mode(),
            final(self).spec_fee_schedule() == old(self).spec_fee_schedule(),
    {
        self.max_order_size = Some(size);
    }

    /// The configured minimum order size, if any.
    pub fn min_order_size(&self) -> (r: Option<u64>)
        ensures
            r == self.spec_min_order_size(),
    {
        self.min_order_size
    }

    /// The configured maximum order size, if any.
    pub fn max_order_size(&self) -> (r: Option<u64>)
        ensures
            r == self.spec_max_order_size(),
    {
        self.max_order_size
    }

    /// Set the self-trade-prevention mode.
    pub fn set_stp_mode(&mut self, mode: STPMode)
        ensures
            final(self).spec_stp_mode() == mode,
            final(self).bids() == old(self).bids(),
            final(self).asks() == old(self).asks(),
            final(self).spec_last_trade_price() == old(self).spec_last_trade_price(),
            final(self).spec_symbol() == old(self).spec_symbol(),
            final(self).spec_tracker() == old(self).spec_tracker(),
            final(self).wf() == old(self).wf(),
            final(self).spec_kill_switch() == old(self).spec_kill_switch(),
            final(self).spec_market_close() == old(self).spec_market_close(),
            final(self).spec_tick_size() == old(self).spec_tick_size(),
            final(self).spec_lot_size() == old(self).spec_lot_size(),
            final(self).spec_min_order_size() == old(self).spec_min_order_size(),
            final(self).spec_max_order_size() == old(self).spec_max_order_size(),
            final(self).spec_fee_schedule() == old(self).spec_fee_schedule(),
    {
        self.stp_mode = mode;
    }

    /// Whether the kill switch is engaged.
    pub fn is_kill_switch_engaged(&self) -> (r: bool)
        ensures
            r == self.spec_kill_switch(),
    {
        self.kill_switch
    }

    /// Engage the kill switch: new orders and modifications are refused
    /// with [`OrderBookError::KillSwitchActive`] until it is released;
    /// cancels still go through.
    pub fn engage_kill_switch(&mut self)
        ensures
            final(self).wf() == old(self).wf(),
            final(self).view() == (BookView { kill_switch: true, ..old(self).view() }),
            final(self).spec_symbol() == old(self).spec_symbol(),
            final(self).spec_tracker() == old(self).spec_tracker(),
            final(self).spec_fee_schedule() == old(self).spec_fee_schedule(),
            final(self).spec_last_clock_reading() == old(self).spec_last_clock_reading(),
    {
        self.kill_switch = true;
    }

    /// Release the kill switch.
    pub fn release_kill_switch(&mut self)
        ensures
            final(self).wf() == old(self).wf(),
            final(self).view() == (BookView { kill_switch: false, ..old(self).view() }),
            final(self).spec_symbol() == old(self).spec_symbol(),
            final(self).spec_tracker() == old(self).spec_tracker(),
            final(self).spec_fee_schedule() == old(self).spec_fee_schedule(),
            final(self).spec_last_clock_reading() == old(self).spec_last_clock_reading(),
    {
        self.kill_switch = false;
    }

    /// The self-trade-prevention mode.
    pub fn stp_mode(&self) -> (r: STPMode)
        ensures
            r == self.spec_stp_mode(),
    {
        self.stp_mode
    }

    /// Set the market close that DAY orders expire at.
    pub fn set_market_close_timestamp(&mut self, timestamp: u64)
        ensures
            final(self).spec_market_close() == Some(timestamp),
            final(self).bids() == old(self).bids(),
            final(self).asks() == old(self).asks(),
            final(self).spec_last_trade_price() == old(self).spec_last_trade_price(),
            final(self).spec_symbol() == old(self).spec_symbol(),
            final(self).spec_tracker() == old(self).spec_tracker(),
            final(self).wf() == old(self).wf(),
            final(self).spec_kill_switch() == old(self).spec_kill_switch(),
            final(self).spec_tick_size() == old(self).spec_tick_size(),
            final(self).spec_lot_size() == old(self).spec_lot_size(),
            final(self).spec_min_order_size() == old(self).spec_min_order_size(),
            final(self).spec_max_order_size() == old(self).spec_max_order_size(),
            final(self).spec_stp_mode() == old(self).spec_stp_mode(),
            final(self).spec_fee_schedule() == old(self).spec_fee_schedule(),
    {
        self.market_close_timestamp = Some(timestamp);
    }

    /// Clear the market close: DAY orders no longer expire.
    pub fn clear_market_close_timestamp(&mut self)
        ensures
            final(self).spec_market_close() is None,
            final(self).bids() == old(self).bids(),
            final(self).asks() == old(self).asks(),
            final(self).spec_last_trade_price() == old(self).spec_last_trade_price(),
            final(self).spec_symbol() == old(self).spec_symbol(),
            final(self).spec_tracker() == old(self).spec_tracker(),
            final(self).wf() == old(self).wf(),
            final(self).spec_kill_switch() == old(self).spec_kill_switch(),
            final(self).spec_tick_size() == old(self).spec_tick_size(),
            final(self).spec_lot_size() == old(self).spec_lot_size(),
            final(self).spec_min_order_size() == old(self).spec_min_order_size(),
            final(self).spec_max_order_size() == old(self).spec_max_order_size(),
            final(self).spec_stp_mode() == old(self).spec_stp_mode(),
            final(self).spec_fee_schedule() == old(self).spec_fee_schedule(),
    {
        self.market_close_timestamp = None;
    }

    /// The best bid price, if any.
    pub fn best_bid(&self) -> (r: Option<u128>)
        ensures
            r == (if self.bids().len() > 0 {
                Some(self.bids()[0].price)
            } else {
                None::<u128>
            }),
    {
        if self.bids.len() > 0 {
            Some(self.bids[0].price)
        } else {
            None
        }
    }

    /// The best ask price, if any.
    pub fn best_ask(&self) -> (r: Option<u128>)
        ensures
            r == (if self.asks().len() > 0 {
                Some(self.asks()[0].price)
            } else {
                None::<u128>
            }),
    {
        if self.asks.len() > 0 {
            Some(self.asks[0].price)
        } else {
            None
        }
    }

    /// The price of the last execution, if any.
    pub fn last_trade_price(&self) -> (r: Option<u128>)
        ensures
            r == self.spec_last_trade_price(),
    {
        self.last_trade_price
    }

    /// Best ask minus best bid (saturating at zero), when both sides hold
    /// orders.
    pub fn spread(&self) -> (r: Option<u128>)
        ensures
            r == (if self.bids().len() > 0 && self.asks().len() > 0 {
                Some(
                    if self.asks()[0].price >= self.bids()[0].price {
                        (self.asks()[0].price - self.bids()[0].price) as u128
                    } else {
                        0
                    },
                )
            } else {
                None::<u128>
            }),
    {
        match (self.best_bid(), self.best_ask()) {
            (Some(bid), Some(ask)) => Some(ask.saturating_sub(bid)),
            _ => None,
        }
    }

    /// The same as [`Self::spread`].
    pub fn spread_absolute(&self) -> (r: Option<u128>)
        ensures
            r == (if self.bids().len() > 0 && self.asks().len() > 0 {
                Some(
                    if self.asks()[0].price >= self.bids()[0].price {
                        (self.asks()[0].price - self.bids()[0].price) as u128
                    } else {
                        0
                    },
                )
            } else {
                None::<u128>
            }),
    {
        self.spread()
    }

    /// The walk an incoming order would make, computed on a copy of the
    /// opposite side; the book is not touched.
    fn dry_walk(&self, order_id: u128, side: Side, mode: MatchMode, user_id: u128) -> (w: WalkState)
        requires
            self.wf(),
        ensures
            crate::orderbook::walk::wview(w) == self.spec_walk(side, mode, order_id, user_id).1,
    {
        let limit = mode.limit_price();
        let lot = match self.lot_size {
            Some(l) => l,
            None => 1,
        };
        let ctx = WalkCtx {
            side,
            limit,
            lot,
            taker_id: order_id,
            stp: self.stp_mode.is_enabled() && user_id != 0,
            user: user_id,
            mode: self.stp_mode,
        };
        let mut w = WalkState {
            stop: StopCondition::from_mode(&mode),
            trades: Vec::new(),
            filled: Vec::new(),
            stp_cancelled: false,
            last_price: None,
        };
        assert(crate::orderbook::walk::wview(w) == walk_start(mode));
        let opp = match side {
            Side::Buy => clone_side(&self.asks),
            Side::Sell => clone_side(&self.bids),
        };
        assert(forall|i: int| 0 <= i < opp@.len() ==> walkable(#[trigger] sview(opp@)[i], ctx));
        let _ = walk_exec(opp, &mut w, &ctx);
        w
    }

    /// Check an order against the book's shape rules (see
    /// [`Self::spec_validate`]) at time `now`, without touching the book.
    pub fn validate_order_shape(&self, o: &Order, now: u64) -> (r: Result<(), OrderBookError>)
        requires
            self.wf(),
        ensures
            (r is Ok) == (self.spec_validate(*o, now) is Accept),
            rejects_as(r, self.spec_validate(*o, now)),
    {
        let total = match o.checked_total_quantity() {
            Some(t) => t,
            None => {
                return Err(OrderBookError::QuantityOverflow { visible: o.visible_quantity(), hidden: o.hidden_quantity() });
            },
        };
        if let crate::orderbook::types::OrderKind::Reserve { visible, hidden, auto_replenish, .. } = o.kind {
            if !auto_replenish && visible == 0 && hidden > 0 {
                return Err(OrderBookError::ZeroVisibleTranche { order_id: o.id, hidden_quantity: hidden });
            }
        }
        if self.stp_mode.is_enabled() && o.user_id == 0 {
            return Err(OrderBookError::MissingUserId { order_id: o.id });
        }
        if let Some(t) = self.tick_size {
            if t > 0 && o.price % t != 0 {
                return Err(OrderBookError::InvalidTickSize { price: o.price, tick_size: t });
            }
        }
        if let Some(l) = self.lot_size {
            if l > 0 {
                if let Some(q) = lot_violation_exec(o, l) {
                    return Err(OrderBookError::InvalidLotSize { quantity: q, lot_size: l });
                }
            }
        }
        if let Some(m) = self.min_order_size {
            if total < m {
                return Err(OrderBookError::OrderSizeOutOfRange { quantity: total, min: self.min_order_size, max: self.max_order_size });
            }
        }
        if let Some(m) = self.max_order_size {
            if total > m {
                return Err(OrderBookError::OrderSizeOutOfRange { quantity: total, min: self.min_order_size, max: self.max_order_size });
            }
        }
        if o.time_in_force.is_expired(now, self.market_close_timestamp) {
            return Err(expired_error());
        }
        if o.is_post_only() {
            let crosses = match o.side {
                Side::Buy => match self.best_ask() {
                    Some(a) => o.price >= a,
                    None => false,
                },
                Side::Sell => match self.best_bid() {
                    Some(b) => o.price <= b,
                    None => false,
                },
            };
            if crosses {
                let opposite_price = match o.side {
                    Side::Buy => match self.best_ask() {
                        Some(a) => a,
                        None => 0,
                    },
                    Side::Sell => match self.best_bid() {
                        Some(b) => b,
                        None => 0,
                    },
                };
                return Err(OrderBookError::PriceCrossing { price: o.price, side: o.side, opposite_price });
            }
        }
        if o.time_in_force.is_fill_or_kill() {
            let w = self.dry_walk(o.id, o.side, MatchMode::BaseQty { quantity: total, limit_price: Some(o.price) }, o.user_id);
            let rem = match w.stop {
                StopCondition::BaseQty { remaining } => remaining,
                StopCondition::QuoteAmount { .. } => 0,
            };
            let fillable = total.saturating_sub(rem);
            if fillable < total {
                return Err(OrderBookError::InsufficientLiquidity { side: o.side, requested: total, available: fillable });
            }
        }
        Ok(())
    }

    /// Install an order-state tracker; from then on the book records the
    /// lifecycle of the orders it admits and cancels there.
    pub fn set_order_state_tracker(&mut self, tracker: OrderStateTracker<MonotonicClock>)
        requires
            old(self).wf(),
            tracker.wf(),
        ensures
            final(self).wf(),
            final(self).view() == old(self).view(),
            final(self).same_config(old(self)),
            final(self).spec_symbol() == old(self).spec_symbol(),
            final(self).spec_last_clock_reading() == old(self).spec_last_clock_reading(),
            final(self).spec_tracker() == Some(tracker),
    {
        self.order_state_tracker = Some(tracker);
    }

    /// The installed order-state tracker, if any.
    pub fn order_state_tracker(&self) -> (r: Option<&OrderStateTracker<MonotonicClock>>)
        ensures
            r is Some == self.spec_tracker() is Some,
            r matches Some(t) ==> *t == self.spec_tracker()->0,
    {
        match &self.order_state_tracker {
            Some(t) => Some(t),
            None => None,
        }
    }

    /// The recorded status of an order, when a tracker is installed and
    /// tracks it.
    pub fn order_status(&self, order_id: u128) -> (r: Option<OrderStatus>)
        requires
            self.wf(),
        ensures
            r == (match self.spec_tracker() {
                Some(t) => t.status_of(order_id),
                None => None,
            }),
    {
        match &self.order_state_tracker {
            Some(t) => t.get(order_id),
            None => None,
        }
    }

    /// What the installed tracker records as filled for `order_id`.
    pub(crate) fn tracked_filled(&self, order_id: u128) -> (r: u64)
        requires
            self.wf(),
        ensures
            r == (match self.spec_tracker() {
                Some(t) => filled_before(t, order_id),
                None => 0,
            }),
    {
        match &self.order_state_tracker {
            Some(t) => match t.get(order_id) {
                Some(st) => st.filled_quantity(),
                None => 0,
            },
            None => 0,
        }
    }

    /// Record `status` for `order_id` on the installed tracker, if any.
    pub(crate) fn record_status(&mut self, order_id: u128, status: Option<OrderStatus>)
        requires
            old(self).wf(),
        ensures
            final(self).wf(),
            final(self).view() == old(self).view(),
            final(self).same_config(old(self)),
            final(self).spec_symbol() == old(self).spec_symbol(),
            final(self).spec_last_clock_reading() == old(self).spec_last_clock_reading(),
            tracker_after(old(self).spec_tracker(), final(self).spec_tracker(), order_id, status),
    {
        match status {
            Some(st) => {
                let taken = self.order_state_tracker.take();
                match taken {
                    Some(t) => {
                        let mut t = t;
                        t.transition(order_id, st);
                        self.order_state_tracker = Some(t);
                    },
                    None => {},
                }
            },
            None => {},
        }
    }

    /// Record the cancellation of each of `ids`, in order, for `reason`.
    pub(crate) fn record_cancels(&mut self, ids: &Vec<u128>, reason: CancelReason)
        requires
            old(self).wf(),
        ensures
            final(self).wf(),
            final(self).view() == old(self).view(),
            final(self).same_config(old(self)),
            final(self).spec_symbol() == old(self).spec_symbol(),
            final(self).spec_last_clock_reading() == old(self).spec_last_clock_reading(),
            cancels_tracked(old(self).spec_tracker(), final(self).spec_tracker(), ids@, reason),
    {
        let ghost t0 = self.spec_tracker();
        let ghost g0 = *self;
        let ghost mut ts: Seq<Option<OrderStateTracker<MonotonicClock>>> = seq![t0];
        let mut i: usize = 0;
        while i < ids.len()
            invariant
                i <= ids@.len(),
                self.wf(),
                self.view() == g0.view(),
                self.same_config(&g0),
                self.spec_symbol() == g0.spec_symbol(),
                self.spec_last_clock_reading() == g0.spec_last_clock_reading(),
                ts.len() == i + 1,
                ts[0] == t0,
                ts[i as int] == self.spec_tracker(),
                forall|k: int|
                    0 <= k < i ==> tracker_after(#[trigger] ts[k], ts[k + 1], ids@[k], Some(cancel_status(ts[k], ids@[k], reason))),
            decreases ids@.len() - i,
        {
            let id = ids[i];
            let ghost tm = self.spec_tracker();
            let prev = self.tracked_filled(id);
            self.record_status(id, Some(OrderStatus::Cancelled { filled_quantity: prev, reason }));
            proof {
                assert(Some(OrderStatus::Cancelled { filled_quantity: prev, reason }) == Some(cancel_status(tm, id, reason)));
                let ts2 = ts.push(self.spec_tracker());
                assert forall|k: int| 0 <= k < i + 1 implies tracker_after(#[trigger] ts2[k], ts2[k + 1], ids@[k], Some(cancel_status(ts2[k], ids@[k], reason))) by {
                    if k < i {
                        assert(ts2[k] == ts[k] && ts2[k + 1] == ts[k + 1]);
                    } else {
                        assert(ts2[k] == tm && ts2[k + 1] == self.spec_tracker());
                    }
                }
                ts = ts2;
            }
            i += 1;
        }
        proof {
            assert(cancel_steps(ts, ids@, reason));
        }
    }

    /// Record each of `ids`, in order, as filled by the trades `t`.
    pub(crate) fn record_fills(&mut self, t: &Vec<Trade>, ids: &Vec<u128>)
        requires
            old(self).wf(),
        ensures
            final(self).wf(),
            final(self).view() == old(self).view(),
            final(self).same_config(old(self)),
            final(self).spec_symbol() == old(self).spec_symbol(),
            final(self).spec_last_clock_reading() == old(self).spec_last_clock_reading(),
            fills_tracked(old(self).spec_tracker(), final(self).spec_tracker(), ids@, t@),
    {
        let ghost t0 = self.spec_tracker();
        let ghost g0 = *self;
        let ghost mut ts: Seq<Option<OrderStateTracker<MonotonicClock>>> = seq![t0];
        let mut i: usize = 0;
        while i < ids.len()
            invariant
                i <= ids@.len(),
                self.wf(),
                self.view() == g0.view(),
                self.same_config(&g0),
                self.spec_symbol() == g0.spec_symbol(),
                self.spec_last_clock_reading() == g0.spec_last_clock_reading(),
                ts.len() == i + 1,
                ts[0] == t0,
                ts[i as int] == self.spec_tracker(),
                forall|k: int|
                    0 <= k < i ==> tracker_after(
                        #[trigger] ts[k],
                        ts[k + 1],
                        ids@[k],
                        Some(OrderStatus::Filled { filled_quantity: maker_fill(t@, ids@[k]) }),
                    ),
            decreases ids@.len() - i,
        {
            let id = ids[i];
            let mut q: u64 = 0;
            let mut j: usize = 0;
            while j < t.len()
                invariant
                    j <= t@.len(),
                    q == maker_fill(t@.take(j as int), id),
                decreases t@.len() - j,
            {
                assert(t@.take(j as int + 1).drop_last() =~= t@.take(j as int));
                if t[j].maker_order_id == id {
                    q = q.saturating_add(t[j].quantity);
                }
                j += 1;
            }
            assert(t@.take(t@.len() as int) =~= t@);
            let ghost tm = self.spec_tracker();
            self.record_status(id, Some(OrderStatus::Filled { filled_quantity: q }));
            proof {
                let ts2 = ts.push(self.spec_tracker());
                assert forall|k: int| 0 <= k < i + 1 implies tracker_after(
                    #[trigger] ts2[k],
                    ts2[k + 1],
                    ids@[k],
                    Some(OrderStatus::Filled { filled_quantity: maker_fill(t@, ids@[k]) }),
                ) by {
                    if k < i {
                        assert(ts2[k] == ts[k] && ts2[k + 1] == ts[k + 1]);
                    } else {
                        assert(ts2[k] == tm && ts2[k + 1] == self.spec_tracker());
                    }
                }
                ts = ts2;
            }
            i += 1;
        }
        proof {
            assert(fill_steps(ts, ids@, t@));
        }
    }

    /// Read the clock and remember the reading.
    pub(crate) fn read_clock(&mut self) -> (now: u64)
        ensures
            final(self).view() == old(self).view(),
            final(self).same_config(old(self)),
            final(self).spec_last_clock_reading() == now,
            final(self).spec_tracker() == old(self).spec_tracker(),
            final(self).wf() == old(self).wf(),
    {
        let now = self.clock.now_millis();
        self.last_clock_reading = now;
        now
    }

    /// Everything `add_order` checks before it matches (see
    /// [`Self::spec_admission`]); returns the order's total when it passes.
    fn admission_check(&self, order: &Order, now: u64) -> (r: Result<u64, OrderBookError>)
        requires
            self.wf(),
        ensures
            (r is Ok) == (self.spec_admission(*order, now) is Accept),
            r matches Ok(t) ==> t == crate::orderbook::types::total_of(*order),
            rejects_as(r, self.spec_admission(*order, now)),
    {
        if self.kill_switch {
            return Err(OrderBookError::KillSwitchActive);
        }
        let total = match order.checked_total_quantity() {
            Some(t) => t,
            None => {
                return Err(OrderBookError::QuantityOverflow { visible: order.visible_quantity(), hidden: order.hidden_quantity() });
            },
        };
        if side_contains(&self.bids, order.id) || side_contains(&self.asks, order.id) {
            return Err(OrderBookError::DuplicateOrderId { order_id: order.id });
        }
        match self.validate_order_shape(order, now) {
            Ok(()) => {},
            Err(e) => {
                return Err(e);
            },
        }
        let side = order.side;
        if !order.time_in_force.is_immediate() {
            let crosses = match side {
                Side::Buy => match self.best_ask() {
                    Some(a) => order.price >= a,
                    None => false,
                },
                Side::Sell => match self.best_bid() {
                    Some(b) => order.price <= b,
                    None => false,
                },
            };
            if crosses {
                let same = match side {
                    Side::Buy => &self.bids,
                    Side::Sell => &self.asks,
                };
                assert(sview(same@) == self.side_levels(side));
                assert(self.view().spec_will_cross(order.price, side));
                let k = find_price_exec(same, order.price);
                if k < same.len() {
                    proof {
                        lemma_find_price(sview(same@), order.price, 0);
                        assert(lview(same@[k as int]) == sview(same@)[k as int]);
                    }
                    let tc = same[k].total_checked();
                    assert(tc is None ==> queue_total(same@[k as int].orders@) > u64::MAX);
                    let over = match tc {
                        Some(t) => {
                            let sum = t.checked_add(total);
                            assert(sum is None ==> t + total > u64::MAX);
                            assert(t == queue_total(same@[k as int].orders@));
                            match sum {
                                Some(_) => false,
                                None => true,
                            }
                        },
                        None => true,
                    };
                    if over {
                        assert(k == find_price(self.side_levels(side), order.price, 0));
                        assert(self.side_levels(side)[k as int].orders == same@[k as int].orders@);
                        assert(queue_total(same@[k as int].orders@) + total > u64::MAX);
                        assert(queue_total(self.side_levels(side)[find_price(self.side_levels(side), order.price, 0)].orders) + total > u64::MAX);
                        assert(self.spec_admission(*order, now) == Verdict::Invalid(capacity_message(order.id, order.price)));
                        return Err(capacity_error(order.id, order.price));
                    }
                }
            }
        }
        Ok(total)
    }

    /// Settle an admitted order after its walk: report prevention or an
    /// unfillable immediate remainder, discard an exhausted non-replenishing
    /// reserve, or rest the residual.
    fn settle(&mut self, order: Order, total: u64, w: WalkState) -> (r: Result<(Order, Option<MatchResult>), OrderBookError>)
        requires
            old(self).wf(),
            crate::orderbook::types::order_wf(order),
            total == crate::orderbook::types::total_of(order),
            !old(self).has_order_id(order.id),
            w.stop is BaseQty,
            walk_remaining(crate::orderbook::walk::wview(w)) <= total,
        ensures
            final(self).spec_tracker() == old(self).spec_tracker(),
            final(self).wf(),
            final(self).same_config(old(self)),
            final(self).spec_last_clock_reading() == old(self).spec_last_clock_reading(),
            final(self).spec_last_trade_price() == old(self).spec_last_trade_price(),
            final(self).side_levels(spec_opposite(order.side)) == old(self).side_levels(spec_opposite(order.side)),
            settles(r, order, crate::orderbook::walk::wview(w), old(self).side_levels(order.side), final(self).side_levels(order.side), old(self).spec_stp_mode()),
    {
        let ghost wv = crate::orderbook::walk::wview(w);
        let side = order.side;
        if w.stp_cancelled {
            return Err(OrderBookError::SelfTradePrevented { mode: self.stp_mode, taker_order_id: order.id, user_id: order.user_id });
        }
        let rem = match w.stop {
            StopCondition::BaseQty { remaining } => remaining,
            StopCondition::QuoteAmount { .. } => 0,
        };
        let has_trades = w.trades.len() > 0;
        let mr = if has_trades {
            Some(MatchResult { order_id: order.id, remaining_quantity: rem, trades: w.trades, filled_order_ids: w.filled })
        } else {
            None
        };
        assert(reports_walk(mr, order.id, wv));
        if rem > 0 {
            if order.time_in_force.is_immediate() {
                let q = order.visible_quantity();
                return Err(OrderBookError::InsufficientLiquidity { side, requested: q, available: q.saturating_sub(rem) });
            }
            let mut o = order;
            if rem < total {
                o.set_total_remaining(rem);
                if let crate::orderbook::types::OrderKind::Reserve { visible, hidden, replenish_threshold, replenish_amount, auto_replenish } = o.kind {
                    if !auto_replenish && visible == 0 && hidden > 0 {
                        o.kind = crate::orderbook::types::OrderKind::Reserve { visible, hidden: 0, replenish_threshold, replenish_amount, auto_replenish };
                        assert(o == crate::orderbook::order::with_tranches(residual(order, rem), 0, 0));
                        return Ok((o, mr));
                    }
                }
            }
            assert(o == residual(order, rem));
            proof {
                lemma_residual_shape(order, rem);
                assert(!side_has_id(old(self).side_levels(side), order.id));
                lemma_rest_into_wf(old(self).side_levels(side), o, side);
            }
            let ok = match side {
                Side::Buy => rest_order_exec(&mut self.bids, o, side),
                Side::Sell => rest_order_exec(&mut self.asks, o, side),
            };
            if !ok {
                return Err(capacity_error(order.id, order.price));
            }
            Ok((o, mr))
        } else {
            Ok((order, mr))
        }
    }

    /// Admit an order at time `now` (see [`Self::add_order_with_result`]).
    pub(crate) fn add_at(&mut self, order: Order, now: u64) -> (r: Result<(Order, Option<MatchResult>), OrderBookError>)
        requires
            old(self).wf(),
            crate::orderbook::types::order_wf(order),
        ensures
            final(self).wf(),
            final(self).same_config(old(self)),
            final(self).spec_last_clock_reading() == old(self).spec_last_clock_reading(),
            add_holds(old(self).view(), final(self).view(), order, r, now),
            add_tracked(old(self).spec_tracker(), final(self).spec_tracker(), old(self).view(), order, now),
    {
        proof {
            self.lemma_view_sides();
        }
        let total = match self.admission_check(&order, now) {
            Ok(t) => t,
            Err(e) => {
                let st = match &e {
                    OrderBookError::KillSwitchActive => Some(OrderStatus::Rejected { reason: RejectReason::KillSwitchActive }),
                    OrderBookError::MissingUserId { .. } => Some(OrderStatus::Rejected { reason: RejectReason::MissingUserId }),
                    OrderBookError::QuantityOverflow { .. } => Some(OrderStatus::Rejected { reason: RejectReason::InvalidQuantity }),
                    OrderBookError::ZeroVisibleTranche { .. } => Some(OrderStatus::Rejected { reason: RejectReason::InvalidQuantity }),
                    OrderBookError::InvalidLotSize { .. } => Some(OrderStatus::Rejected { reason: RejectReason::InvalidQuantity }),
                    OrderBookError::InvalidTickSize { .. } => Some(OrderStatus::Rejected { reason: RejectReason::InvalidPrice }),
                    OrderBookError::OrderSizeOutOfRange { .. } => Some(
                        OrderStatus::Rejected { reason: RejectReason::OrderSizeOutOfRange },
                    ),
                    OrderBookError::PriceCrossing { .. } => Some(OrderStatus::Rejected { reason: RejectReason::PostOnlyWouldCross }),
                    OrderBookError::InsufficientLiquidity { .. } => Some(
                        OrderStatus::Cancelled { filled_quantity: 0, reason: CancelReason::InsufficientLiquidity },
                    ),
                    OrderBookError::InvalidOperation { .. } => if order.time_in_force.is_expired(now, self.market_close_timestamp) {
                        None
                    } else {
                        Some(OrderStatus::Rejected { reason: RejectReason::InvalidQuantity })
                    },
                    _ => None,
                };
                assert(st == add_status(self.view(), order, now));
                self.record_status(order.id, st);
                return Err(e);
            },
        };
        let ghost mid = *self;
        let w = self.run_walk(order.id, order.side, MatchMode::BaseQty { quantity: total, limit_price: Some(order.price) }, order.user_id);
        proof {
            lemma_walk_base(mid.side_levels(spec_opposite(order.side)), 0, seq![], walk_start(MatchMode::BaseQty { quantity: total, limit_price: Some(order.price) }), mid.walk_ctx(order.side, Some(order.price), order.id, order.user_id));
            lemma_walk_ids(mid.side_levels(spec_opposite(order.side)), 0, seq![], walk_start(MatchMode::BaseQty { quantity: total, limit_price: Some(order.price) }), mid.walk_ctx(order.side, Some(order.price), order.id, order.user_id));
            if self.has_order_id(order.id) {
                assert(side_has_id(self.side_levels(spec_opposite(order.side)), order.id) || side_has_id(self.side_levels(order.side), order.id));
                assert(mid.has_order_id(order.id));
            }
        }
        let stp = w.stp_cancelled;
        let rem = match w.stop {
            StopCondition::BaseQty { remaining } => remaining,
            StopCondition::QuoteAmount { .. } => 0,
        };
        let ghost wv = crate::orderbook::walk::wview(w);
        let ghost same = self.side_levels(order.side);
        assert(wv == mid.spec_add_walk(order).1);
        self.record_fills(&w.trades, &w.filled);
        let ghost tm = self.spec_tracker();
        let r = self.settle(order, total, w);
        let filled = total - rem;
        let st = if stp {
            OrderStatus::Cancelled { filled_quantity: filled, reason: CancelReason::SelfTradePrevention }
        } else if rem > 0 && order.time_in_force.is_immediate() {
            OrderStatus::Cancelled { filled_quantity: filled, reason: CancelReason::InsufficientLiquidity }
        } else {
            match &r {
                Err(_) => OrderStatus::Rejected { reason: RejectReason::InvalidQuantity },
                Ok((o, _)) => if rem == 0 {
                    OrderStatus::Filled { filled_quantity: total }
                } else if o.total_quantity() == 0 {
                    OrderStatus::Filled { filled_quantity: filled }
                } else if rem < total {
                    OrderStatus::PartiallyFilled { original_quantity: total, filled_quantity: filled }
                } else {
                    OrderStatus::Open
                },
            }
        };
        assert(st == settle_status(order, wv, same));
        self.record_status(order.id, Some(st));
        assert(fills_tracked(old(self).spec_tracker(), tm, wv.filled, wv.trades));
        r
    }

    /// Admit an order: check it, match it against the opposite side up to
    /// its price with its whole total, and rest what is left.
    ///
    /// What is left of an immediate (IOC / FOK) order is dropped with
    /// [`OrderBookError::InsufficientLiquidity`]; a cancelled-by-prevention
    /// order ends with [`OrderBookError::SelfTradePrevented`], and any fills
    /// it made before stand. A residual is redistributed over its tranches
    /// (see [`OrderQuantity::set_total_remaining`](crate::orderbook::order::OrderQuantity::set_total_remaining));
    /// a non-replenishing reserve whose visible tranche was exhausted does not
    /// rest and its hidden remainder is discarded, and the returned order then
    /// holds nothing. Returns the order as submitted (fully matched), as it
    /// rests, or as discarded, with the executions when there were any.
    pub fn add_order_with_result(&mut self, order: Order) -> (r: Result<(Order, Option<MatchResult>), OrderBookError>)
        requires
            old(self).wf(),
            crate::orderbook::types::order_wf(order),
        ensures
            final(self).wf(),
            final(self).same_config(old(self)),
            add_holds(old(self).view(), final(self).view(), order, r, final(self).spec_last_clock_reading()),
            add_tracked(old(self).spec_tracker(), final(self).spec_tracker(), old(self).view(), order, final(self).spec_last_clock_reading()),
    {
        let now = self.clock.now_millis();
        self.last_clock_reading = now;
        self.add_at(order, now)
    }

    /// Admit an order (see [`Self::add_order_with_result`]) and return it as
    /// submitted, as it rests, or as discarded.
    pub fn add_order(&mut self, order: Order) -> (r: Result<Order, OrderBookError>)
        requires
            old(self).wf(),
            crate::orderbook::types::order_wf(order),
        ensures
            final(self).wf(),
            final(self).same_config(old(self)),
            exists|full: Result<(Order, Option<MatchResult>), OrderBookError>|
                add_holds(old(self).view(), final(self).view(), order, full, final(self).spec_last_clock_reading())
                && r == (match full {
                    Ok((o, _)) => Ok::<Order, OrderBookError>(o),
                    Err(e) => Err(e),
                }),
            add_tracked(old(self).spec_tracker(), final(self).spec_tracker(), old(self).view(), order, final(self).spec_last_clock_reading()),
    {
        let full = self.add_order_with_result(order);
        let ghost g = full;
        let r = match full {
            Ok((o, _)) => Ok(o),
            Err(e) => Err(e),
        };
        assert(add_holds(old(self).view(), self.view(), order, g, self.spec_last_clock_reading()));
        r
    }

    /// The checks a cancel-then-add modify runs before it cancels (see
    /// [`BookView::modify_verdict`]).
    fn modify_checks(&self, o: &Order, now: u64) -> (r: Result<(), OrderBookError>)
        requires
            self.wf(),
        ensures
            (r is Ok) == (self.view().modify_verdict(*o, now) is Accept),
            rejects_as(r, self.view().modify_verdict(*o, now)),
    {
        match self.validate_order_shape(o, now) {
            Ok(()) => {},
            Err(e) => {
                return Err(e);
            },
        }
        let total = o.visible_quantity() + o.hidden_quantity();
        let w = self.dry_walk(o.id, o.side, MatchMode::BaseQty { quantity: total, limit_price: Some(o.price) }, o.user_id);
        let rem = match w.stop {
            StopCondition::BaseQty { remaining } => remaining,
            StopCondition::QuoteAmount { .. } => 0,
        };
        let cancels_taker = match self.stp_mode {
            STPMode::CancelTaker | STPMode::CancelBoth => true,
            _ => false,
        };
        if cancels_taker && o.user_id != 0 && w.stp_cancelled && rem > 0 {
            return Err(OrderBookError::SelfTradePrevented { mode: self.stp_mode, taker_order_id: o.id, user_id: o.user_id });
        }
        if let crate::orderbook::types::OrderKind::Reserve { visible, hidden, auto_replenish, .. } = o.kind {
            let c = total.saturating_sub(rem);
            if !auto_replenish && hidden > 0 && c > 0 && c >= visible && c < total {
                return Err(OrderBookError::ReserveResidualWouldBeDiscarded {
                    order_id: o.id,
                    visible_quantity: visible,
                    crossable_quantity: c,
                    hidden_quantity: hidden,
                    discarded_quantity: total - c,
                });
            }
        }
        Ok(())
    }

    /// Cancel-then-add modify of the resting order `new_order.id` into
    /// `new_order`, with its checks run first at time `now`.
    fn readd(&mut self, new_order: Order, now: u64) -> (r: Result<Option<Order>, OrderBookError>)
        requires
            old(self).wf(),
            crate::orderbook::types::order_wf(new_order),
        ensures
            final(self).wf(),
            final(self).same_config(old(self)),
            final(self).spec_last_clock_reading() == old(self).spec_last_clock_reading(),
            readd_holds(old(self).view(), final(self).view(), new_order, r, now),
            readd_tracked(old(self).spec_tracker(), final(self).spec_tracker(), old(self).view(), new_order, now),
    {
        match self.modify_checks(&new_order, now) {
            Ok(()) => {},
            Err(e) => {
                return Err(e);
            },
        }
        let _ = self.cancel_order(new_order.id);
        assert(self.view() == cancel_view(old(self).view(), new_order.id));
        let ghost tm = self.spec_tracker();
        let full = self.add_at(new_order, now);
        assert(add_tracked(tm, self.spec_tracker(), cancel_view(old(self).view(), new_order.id), new_order, now));
        let ghost g = full;
        let r = match full {
            Ok((o, _)) => Ok(Some(o)),
            Err(e) => Err(e),
        };
        assert(add_holds(cancel_view(old(self).view(), new_order.id), self.view(), new_order, g, now));
        r
    }

    /// Apply a change to a resting order.
    ///
    /// A quantity update resizes the order where it rests (the visible
    /// tranche of a two-tranche order): it keeps its place in the queue when
    /// its total does not grow and goes to the back when it does; zero
    /// cancels it. A price update, a price-and-quantity update and a replace
    /// are a cancel followed by an add, checked first so that a rejected
    /// change leaves the order resting untouched. `Ok(None)` means the order
    /// does not rest on the book.
    pub fn update_order(&mut self, update: OrderUpdate) -> (r: Result<Option<Order>, OrderBookError>)
        requires
            old(self).wf(),
        ensures
            final(self).wf(),
            final(self).same_config(old(self)),
            old(self).spec_kill_switch() && !(update is Cancel) ==> final(self).spec_tracker() == old(self).spec_tracker(),
            !old(self).spec_kill_switch() || update is Cancel ==> match update {
                OrderUpdate::Cancel { order_id } => tracker_after(
                    old(self).spec_tracker(),
                    final(self).spec_tracker(),
                    order_id,
                    if r matches Ok(Some(_)) { Some(user_cancel_status(old(self).spec_tracker(), order_id)) } else { None },
                ),
                OrderUpdate::UpdateQuantity { order_id, new_quantity } => if new_quantity == 0 {
                    tracker_after(
                        old(self).spec_tracker(),
                        final(self).spec_tracker(),
                        order_id,
                        if r matches Ok(Some(_)) { Some(user_cancel_status(old(self).spec_tracker(), order_id)) } else { None },
                    )
                } else {
                    final(self).spec_tracker() == old(self).spec_tracker()
                },
                OrderUpdate::UpdatePrice { order_id, new_price } => match find_order(old(self).view(), order_id) {
                    None => final(self).spec_tracker() == old(self).spec_tracker(),
                    Some(o) => if o.price == new_price {
                        final(self).spec_tracker() == old(self).spec_tracker()
                    } else {
                        readd_tracked(old(self).spec_tracker(), final(self).spec_tracker(), old(self).view(), with_price(o, new_price),
                            final(self).spec_last_clock_reading())
                    },
                },
                OrderUpdate::UpdatePriceAndQuantity { order_id, new_price, new_quantity } => match find_order(old(self).view(), order_id) {
                    None => final(self).spec_tracker() == old(self).spec_tracker(),
                    Some(o) => readd_tracked(old(self).spec_tracker(), final(self).spec_tracker(), old(self).view(),
                        crate::orderbook::order::with_visible(with_price(o, new_price), new_quantity), final(self).spec_last_clock_reading()),
                },
                OrderUpdate::Replace { order_id, price, quantity, side } => match find_order(old(self).view(), order_id) {
                    None => final(self).spec_tracker() == old(self).spec_tracker(),
                    Some(o) => readd_tracked(old(self).spec_tracker(), final(self).spec_tracker(), old(self).view(),
                        replaced(o, price, quantity, side), final(self).spec_last_clock_reading()),
                },
            },
            ({
                let v0 = old(self).view();
                let v1 = final(self).view();
                let now = final(self).spec_last_clock_reading();
                if v0.kill_switch && !(update is Cancel) {
                    r == Err::<Option<Order>, OrderBookError>(OrderBookError::KillSwitchActive) && v1 == v0
                } else {
                match update {
                    OrderUpdate::Cancel { order_id } => r == Ok::<Option<Order>, OrderBookError>(find_order(v0, order_id))
                        && v1 == cancel_view(v0, order_id),
                    OrderUpdate::UpdateQuantity { order_id, new_quantity } => if new_quantity == 0 {
                        r == Ok::<Option<Order>, OrderBookError>(find_order(v0, order_id)) && v1 == cancel_view(v0, order_id)
                    } else {
                        match find_order(v0, order_id) {
                            None => r == Ok::<Option<Order>, OrderBookError>(None) && v1 == v0,
                            Some(o) => {
                                let p = crate::orderbook::order::with_visible(o, new_quantity);
                                let verdict = v0.spec_validate(p, now);
                                if !(verdict is Accept) {
                                    rejects_as(r, verdict) && r is Err && v1 == v0
                                } else {
                                    &&& r == Ok::<Option<Order>, OrderBookError>(Some(p))
                                    &&& v1 == (if find_in_side(v0.bids, order_id, 0) is Some {
                                        BookView { bids: resize_in_side(v0.bids, order_id, p), ..v0 }
                                    } else {
                                        BookView { asks: resize_in_side(v0.asks, order_id, p), ..v0 }
                                    })
                                }
                            },
                        }
                    },
                    OrderUpdate::UpdatePrice { order_id, new_price } => match find_order(v0, order_id) {
                        None => r == Ok::<Option<Order>, OrderBookError>(None) && v1 == v0,
                        Some(o) => if o.price == new_price {
                            rejects_as(r, Verdict::Invalid("Cannot update price to the same value"@)) && r is Err && v1 == v0
                        } else {
                            readd_holds(v0, v1, with_price(o, new_price), r, now)
                        },
                    },
                    OrderUpdate::UpdatePriceAndQuantity { order_id, new_price, new_quantity } => match find_order(v0, order_id) {
                        None => r == Ok::<Option<Order>, OrderBookError>(None) && v1 == v0,
                        Some(o) => readd_holds(v0, v1, crate::orderbook::order::with_visible(with_price(o, new_price), new_quantity), r, now),
                    },
                    OrderUpdate::Replace { order_id, price, quantity, side } => match find_order(v0, order_id) {
                        None => r == Ok::<Option<Order>, OrderBookError>(None) && v1 == v0,
                        Some(o) => readd_holds(v0, v1, replaced(o, price, quantity, side), r, now),
                    },
                }
                }
            }),
    {
        match update {
            OrderUpdate::Cancel { .. } => {},
            _ => {
                if self.kill_switch {
                    return Err(OrderBookError::KillSwitchActive);
                }
            },
        }
        let now = self.clock.now_millis();
        self.last_clock_reading = now;
        match update {
            OrderUpdate::Cancel { order_id } => self.cancel_order(order_id),
            OrderUpdate::UpdateQuantity { order_id, new_quantity } => {
                if new_quantity == 0 {
                    return self.cancel_order(order_id);
                }
                let in_bids = find_in_side_exec(&self.bids, order_id);
                let found = match in_bids {
                    Some(o) => Some(o),
                    None => find_in_side_exec(&self.asks, order_id),
                };
                match found {
                    None => Ok(None),
                    Some(o) => {
                        let mut p = o;
                        p.set_quantity(new_quantity);
                        match self.validate_order_shape(&p, now) {
                            Ok(()) => {},
                            Err(e) => {
                                return Err(e);
                            },
                        }
                        proof {
                            lemma_find_in_side(self.bids(), order_id, 0);
                            lemma_find_in_side(self.asks(), order_id, 0);
                            lemma_locate(self.bids(), order_id, 0);
                            lemma_locate(self.asks(), order_id, 0);
                        }
                        if in_bids.is_some() {
                            proof {
                                lemma_resize_wf(self.bids(), order_id, p, Side::Buy);
                            }
                            resize_exec(&mut self.bids, order_id, p);
                        } else {
                            proof {
                                lemma_resize_wf(self.asks(), order_id, p, Side::Sell);
                            }
                            resize_exec(&mut self.asks, order_id, p);
                        }
                        Ok(Some(p))
                    },
                }
            },
            OrderUpdate::UpdatePrice { order_id, new_price } => {
                let found = match find_in_side_exec(&self.bids, order_id) {
                    Some(o) => Some(o),
                    None => find_in_side_exec(&self.asks, order_id),
                };
                match found {
                    None => Ok(None),
                    Some(o) => {
                        if o.price == new_price {
                            let mut m = String::new();
                            push_str(&mut m, "Cannot update price to the same value");
                            assert(m@ =~= "Cannot update price to the same value"@);
                            return Err(OrderBookError::InvalidOperation { message: m });
                        }
                        proof {
                            lemma_found_wf(old(self).view(), order_id);
                        }
                        let n = Order { price: new_price, ..o };
                        self.readd(n, now)
                    },
                }
            },
            OrderUpdate::UpdatePriceAndQuantity { order_id, new_price, new_quantity } => {
                let found = match find_in_side_exec(&self.bids, order_id) {
                    Some(o) => Some(o),
                    None => find_in_side_exec(&self.asks, order_id),
                };
                match found {
                    None => Ok(None),
                    Some(o) => {
                        proof {
                            lemma_found_wf(old(self).view(), order_id);
                        }
                        let mut n = Order { price: new_price, ..o };
                        n.set_quantity(new_quantity);
                        self.readd(n, now)
                    },
                }
            },
            OrderUpdate::Replace { order_id, price, quantity, side } => {
                let found = match find_in_side_exec(&self.bids, order_id) {
                    Some(o) => Some(o),
                    None => find_in_side_exec(&self.asks, order_id),
                };
                match found {
                    None => Ok(None),
                    Some(o) => {
                        proof {
                            lemma_found_wf(old(self).view(), order_id);
                        }
                        let mut n = o;
                        n.set_quantity(quantity);
                        n.price = price;
                        n.side = side;
                        self.readd(n, now)
                    },
                }
            },
        }
    }

    /// Cancel the order with `order_id` for `reason`: it leaves the book and
    /// a level it empties goes with it, and an installed tracker records it
    /// cancelled for that reason, keeping what it had filled. Returns the
    /// cancelled order, or `None` (changing nothing) when no order with that
    /// id rests.
    pub fn cancel_order_with_reason(&mut self, order_id: u128, reason: CancelReason) -> (r: Result<Option<Order>, OrderBookError>)
        requires
            old(self).wf(),
        ensures
            final(self).wf(),
            final(self).same_config(old(self)),
            final(self).spec_last_trade_price() == old(self).spec_last_trade_price(),
            final(self).spec_last_clock_reading() == old(self).spec_last_clock_reading(),
            r == Ok::<Option<Order>, OrderBookError>(match find_in_side(old(self).bids(), order_id, 0) {
                Some(o) => Some(o),
                None => find_in_side(old(self).asks(), order_id, 0),
            }),
            final(self).bids() == side_without(old(self).bids(), order_id),
            final(self).asks() == side_without(old(self).asks(), order_id),
            !final(self).has_order_id(order_id),
            tracker_after(
                old(self).spec_tracker(),
                final(self).spec_tracker(),
                order_id,
                if r matches Ok(Some(_)) { Some(cancel_status(old(self).spec_tracker(), order_id, reason)) } else { None },
            ),
    {
        let found = match find_in_side_exec(&self.bids, order_id) {
            Some(o) => Some(o),
            None => find_in_side_exec(&self.asks, order_id),
        };
        proof {
            lemma_side_without(self.bids(), order_id, Side::Buy);
            lemma_side_without(self.asks(), order_id, Side::Sell);
        }
        if found.is_some() {
            let nb = side_without_exec(&self.bids, order_id);
            let na = side_without_exec(&self.asks, order_id);
            self.bids = nb;
            self.asks = na;
            let prev = self.tracked_filled(order_id);
            self.record_status(order_id, Some(OrderStatus::Cancelled { filled_quantity: prev, reason }));
        } else {
            proof {
                lemma_find_in_side(self.bids(), order_id, 0);
                lemma_find_in_side(self.asks(), order_id, 0);
                lemma_side_without_absent(self.bids(), order_id);
                lemma_side_without_absent(self.asks(), order_id);
            }
        }
        Ok(found)
    }

    /// Cancel the order with `order_id` on request (see
    /// [`Self::cancel_order_with_reason`]).
    pub fn cancel_order(&mut self, order_id: u128) -> (r: Result<Option<Order>, OrderBookError>)
        requires
            old(self).wf(),
        ensures
            final(self).wf(),
            final(self).same_config(old(self)),
            final(self).spec_last_trade_price() == old(self).spec_last_trade_price(),
            final(self).spec_last_clock_reading() == old(self).spec_last_clock_reading(),
            r == Ok::<Option<Order>, OrderBookError>(match find_in_side(old(self).bids(), order_id, 0) {
                Some(o) => Some(o),
                None => find_in_side(old(self).asks(), order_id, 0),
            }),
            final(self).bids() == side_without(old(self).bids(), order_id),
            final(self).asks() == side_without(old(self).asks(), order_id),
            !final(self).has_order_id(order_id),
            tracker_after(
                old(self).spec_tracker(),
                final(self).spec_tracker(),
                order_id,
                if r matches Ok(Some(_)) { Some(user_cancel_status(old(self).spec_tracker(), order_id)) } else { None },
            ),
    {
        self.cancel_order_with_reason(order_id, CancelReason::UserRequested)
    }

    /// Walk an incoming order over the opposite side and leave the side as
    /// the walk leaves it; the last trade price follows the walk's last
    /// execution.
    fn run_walk(&mut self, order_id: u128, side: Side, mode: MatchMode, user_id: u128) -> (w: WalkState)
        requires
            old(self).wf(),
        ensures
            final(self).spec_tracker() == old(self).spec_tracker(),
            final(self).wf(),
            final(self).same_config(old(self)),
            final(self).spec_last_clock_reading() == old(self).spec_last_clock_reading(),
            final(self).side_levels(side) == old(self).side_levels(side),
            final(self).side_levels(spec_opposite(side)) == old(self).spec_walk(side, mode, order_id, user_id).0,
            final(self).spec_last_trade_price() == (match old(self).spec_walk(side, mode, order_id, user_id).1.last_price {
                Some(p) => Some(p),
                None => old(self).spec_last_trade_price(),
            }),
            crate::orderbook::walk::wview(w) == old(self).spec_walk(side, mode, order_id, user_id).1,
    {
        let limit = mode.limit_price();
        let lot = match self.lot_size {
            Some(l) => l,
            None => 1,
        };
        let ctx = WalkCtx {
            side,
            limit,
            lot,
            taker_id: order_id,
            stp: self.stp_mode.is_enabled() && user_id != 0,
            user: user_id,
            mode: self.stp_mode,
        };
        let mut w = WalkState {
            stop: StopCondition::from_mode(&mode),
            trades: Vec::new(),
            filled: Vec::new(),
            stp_cancelled: false,
            last_price: None,
        };
        assert(crate::orderbook::walk::wview(w) == walk_start(mode));
        let mut opp: Vec<Level> = Vec::new();
        match side {
            Side::Buy => std::mem::swap(&mut opp, &mut self.asks),
            Side::Sell => std::mem::swap(&mut opp, &mut self.bids),
        }
        assert(forall|i: int| 0 <= i < opp@.len() ==> walkable(#[trigger] sview(opp@)[i], ctx));
        proof {
            assert(sview(opp@) == old(self).side_levels(spec_opposite(side)));
            assert(sview(Seq::<Level>::empty()) =~= Seq::<LevelView>::empty());
            lemma_walk_wf(sview(opp@), 0, seq![], crate::orderbook::walk::wview(w), ctx);
        }
        let out = walk_exec(opp, &mut w, &ctx);
        match side {
            Side::Buy => self.asks = out,
            Side::Sell => self.bids = out,
        }
        if let Some(p) = w.last_price {
            self.last_trade_price = Some(p);
        }
        w
    }

    /// Match an incoming order against the opposite side.
    ///
    /// The walk visits the opposite levels in price priority and stops at the
    /// limit price, when the budget is spent, or when what is left of it
    /// rounds down to less than one lot. Self-trade prevention (when the book
    /// has a mode and `user_id` is not `0`) acts on levels holding resting
    /// orders of the same user. Makers cancelled by prevention and levels
    /// emptied by the walk leave the book even when an error is returned.
    pub fn match_order_inner(&mut self, order_id: u128, side: Side, mode: MatchMode, user_id: u128) -> (r: Result<MatchResult, OrderBookError>)
        requires
            old(self).wf(),
        ensures
            final(self).wf(),
            final(self).same_config(old(self)),
            match_holds(old(self).view(), final(self).view(), side, mode, order_id, user_id, r),
            match_tracked(old(self).spec_tracker(), final(self).spec_tracker(), old(self).view(), side, mode, order_id, user_id),
    {
        let w = self.run_walk(order_id, side, mode, user_id);
        self.record_fills(&w.trades, &w.filled);
        let ghost tm = self.spec_tracker();
        assert(fills_tracked(old(self).spec_tracker(), tm, crate::orderbook::walk::wview(w).filled, crate::orderbook::walk::wview(w).trades));
        let no_fills = w.trades.len() == 0;
        if w.stp_cancelled && no_fills {
            self.record_status(order_id, Some(OrderStatus::Cancelled { filled_quantity: 0, reason: CancelReason::SelfTradePrevention }));
            return Err(OrderBookError::SelfTradePrevented { mode: self.stp_mode, taker_order_id: order_id, user_id });
        }
        if no_fills {
            match mode {
                MatchMode::BaseQty { quantity, limit_price: None } => {
                    return Err(OrderBookError::InsufficientLiquidity { side, requested: quantity, available: 0 });
                },
                MatchMode::QuoteAmount { amount } => {
                    return Err(OrderBookError::InsufficientLiquidityNotional { side, requested: amount, spent: 0 });
                },
                _ => {},
            }
        }
        let remaining = match w.stop {
            StopCondition::BaseQty { remaining } => remaining,
            StopCondition::QuoteAmount { .. } => 0,
        };
        Ok(MatchResult { order_id, remaining_quantity: remaining, trades: w.trades, filled_order_ids: w.filled })
    }
}

impl<C: Clock> OrderBook<C> {
    /// Whether a trailing stop has been reached at `current_market_price`:
    /// a sell stop when the market is at or below its stop price, a buy
    /// stop when it is at or above. Any other kind never triggers.
    pub fn should_trigger_trailing_stop(&self, order: &Order, current_market_price: u128) -> (r: bool)
        ensures
            r == (order.kind is TrailingStop && match order.side {
                Side::Sell => current_market_price <= order.price,
                Side::Buy => current_market_price >= order.price,
            }),
    {
        match order.kind {
            OrderKind::TrailingStop { .. } => match order.side {
                Side::Sell => current_market_price <= order.price,
                Side::Buy => current_market_price >= order.price,
            },
            _ => false,
        }
    }
}

impl OrderBook<MonotonicClock> {
    /// A new empty book on `symbol` reading the wall clock.
    pub fn new(symbol: &str) -> (r: Self)
        ensures
            r.wf(),
            r.bids().len() == 0,
            r.asks().len() == 0,
            r.spec_symbol() == symbol@,
            r.spec_last_trade_price() is None,
            r.spec_market_close() is None,
            r.spec_tick_size() is None,
            r.spec_lot_size() is None,
            r.spec_min_order_size() is None,
            r.spec_max_order_size() is None,
            r.spec_stp_mode() is Disabled,
            r.spec_fee_schedule() is None,
            !r.spec_kill_switch(),
    {
        Self::with_clock(symbol, MonotonicClock)
    }

    /// A new empty book on `symbol` whose orders must be priced in
    /// multiples of `tick_size`.
    pub fn with_tick_size(symbol: &str, tick_size: u128) -> (r: Self)
        ensures
            r.wf(),
            r.bids().len() == 0,
            r.asks().len() == 0,
            r.spec_symbol() == symbol@,
            r.spec_last_trade_price() is None,
            r.spec_market_close() is None,
            r.spec_tick_size() == Some(tick_size),
            r.spec_lot_size() is None,
            r.spec_min_order_size() is None,
            r.spec_max_order_size() is None,
            r.spec_stp_mode() is Disabled,
            r.spec_fee_schedule() is None,
            !r.spec_kill_switch(),
    {
        let mut book = Self::new(symbol);
        book.set_tick_size(tick_size);
        book
    }

    /// A new empty book on `symbol` whose order quantities must be
    /// multiples of `lot_size`.
    pub fn with_lot_size(symbol: &str, lot_size: u64) -> (r: Self)
        ensures
            r.wf(),
            r.bids().len() == 0,
            r.asks().len() == 0,
            r.spec_symbol() == symbol@,
            r.spec_last_trade_price() is None,
            r.spec_market_close() is None,
            r.spec_tick_size() is None,
            r.spec_lot_size() == Some(lot_size),
            r.spec_min_order_size() is None,
            r.spec_max_order_size() is None,
            r.spec_stp_mode() is Disabled,
            r.spec_fee_schedule() is None,
            !r.spec_kill_switch(),
    {
        let mut book = Self::new(symbol);
        book.set_lot_size(lot_size);
        book
    }

    /// A new empty book on `symbol` with self-trade prevention in
    /// `stp_mode`.
    pub fn with_stp_mode(symbol: &str, stp_mode: STPMode) -> (r: Self)
        ensures
            r.wf(),
            r.bids().len() == 0,
            r.asks().len() == 0,
            r.spec_symbol() == symbol@,
            r.spec_last_trade_price() is None,
            r.spec_market_close() is None,
            r.spec_tick_size() is None,
            r.spec_lot_size() is None,
            r.spec_min_order_size() is None,
            r.spec_max_order_size() is None,
            r.spec_stp_mode() == stp_mode,
            r.spec_fee_schedule() is None,
            !r.spec_kill_switch(),
    {
        let mut book = Self::new(symbol);
        book.set_stp_mode(stp_mode);
        book
    }
}

} // verus!
