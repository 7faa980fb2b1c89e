//! The matching walk: an incoming order sweeps the opposite side level by
//! level in price priority, within its limit price and budget, with lot
//! rounding and self-trade prevention.

use crate::orderbook::level::{fills_total, queue_has_id, sweep, Fill, Level};
use crate::orderbook::matching::{spec_consume, spec_is_done, spec_level_qty_cap, StopCondition};
use crate::orderbook::stp::{check_stp_at_level, stp_action, STPAction};
use crate::orderbook::types::{Order, STPMode, Side};
use vstd::prelude::*;

verus! {

/// A level as a mathematical value: its price and its resting orders in time
/// priority.
pub struct LevelView {
    pub price: u128,
    pub orders: Seq<Order>,
}

/// The value of a level.
pub open spec fn lview(l: Level) -> LevelView {
    LevelView { price: l.price, orders: l.orders@ }
}

/// The value of a side (levels in price priority).
pub open spec fn sview(v: Seq<Level>) -> Seq<LevelView> {
    v.map_values(|l: Level| lview(l))
}

/// One execution between the incoming order and a resting order.
#[derive(Debug, Clone, Copy, PartialEq, Eq)]
pub struct Trade {
    /// The incoming order.
    pub taker_order_id: u128,
    /// The resting order.
    pub maker_order_id: u128,
    /// Execution price (the resting level's price).
    pub price: u128,
    /// Executed quantity.
    pub quantity: u64,
    /// Side of the incoming order.
    pub taker_side: Side,
}

/// What stays fixed during one walk.
#[derive(Debug, Clone, Copy)]
pub struct WalkCtx {
    /// Side of the incoming order.
    pub side: Side,
    /// Limit price (`None` for market orders).
    pub limit: Option<u128>,
    /// Lot size (`1` when none is configured).
    pub lot: u64,
    /// Id of the incoming order.
    pub taker_id: u128,
    /// Whether self-trade prevention applies to this order.
    pub stp: bool,
    /// Owner of the incoming order.
    pub user: u128,
    /// The book's prevention mode.
    pub mode: STPMode,
}

/// The progress of a walk as a mathematical value.
pub struct WalkView {
    pub stop: StopCondition,
    pub trades: Seq<Trade>,
    pub filled: Seq<u128>,
    pub stp_cancelled: bool,
    pub last_price: Option<u128>,
}

/// The progress of a walk.
pub struct WalkState {
    /// Budget left.
    pub stop: StopCondition,
    /// Executions so far.
    pub trades: Vec<Trade>,
    /// Resting orders that left the book by being filled.
    pub filled: Vec<u128>,
    /// Whether self-trade prevention cancelled the incoming order.
    pub stp_cancelled: bool,
    /// Price of the last execution of this walk.
    pub last_price: Option<u128>,
}

/// The value of a walk's progress.
pub open spec fn wview(w: WalkState) -> WalkView {
    WalkView {
        stop: w.stop,
        trades: w.trades@,
        filled: w.filled@,
        stp_cancelled: w.stp_cancelled,
        last_price: w.last_price,
    }
}

/// The executions of a level's fills.
pub open spec fn fills_to_trades(f: Seq<Fill>, ctx: WalkCtx, price: u128) -> Seq<Trade>
    decreases f.len(),
{
    if f.len() == 0 {
        seq![]
    } else {
        fills_to_trades(f.drop_last(), ctx, price).push(
            Trade {
                taker_order_id: ctx.taker_id,
                maker_order_id: f.last().maker_order_id,
                price,
                quantity: f.last().quantity,
                taker_side: ctx.side,
            },
        )
    }
}

/// The ids of the makers a level's fills removed.
pub open spec fn filled_ids(f: Seq<Fill>) -> Seq<u128>
    decreases f.len(),
{
    if f.len() == 0 {
        seq![]
    } else if f.last().maker_filled {
        filled_ids(f.drop_last()).push(f.last().maker_order_id)
    } else {
        filled_ids(f.drop_last())
    }
}

/// The sum of the quantities of a sequence of trades.
pub open spec fn trades_total(t: Seq<Trade>) -> int
    decreases t.len(),
{
    if t.len() == 0 {
        0
    } else {
        trades_total(t.drop_last()) + t.last().quantity
    }
}

/// A level swept for `qty`: a level where the incoming id itself rests takes
/// nothing; otherwise the time-priority sweep.
pub open spec fn level_match(l: LevelView, qty: u64, taker: u128) -> (Seq<Order>, Seq<Fill>, u64) {
    if queue_has_id(l.orders, taker) {
        (l.orders, seq![], qty)
    } else {
        sweep(l.orders, qty, seq![])
    }
}

/// A level swept for `qty`, with the walk's budget, executions, filled makers
/// and last price brought up to date.
pub open spec fn apply_match(l: LevelView, qty: u64, w: WalkView, ctx: WalkCtx) -> (LevelView, WalkView) {
    let m = level_match(l, qty, ctx.taker_id);
    (
        LevelView { price: l.price, orders: m.0 },
        WalkView {
            stop: spec_consume(w.stop, (qty - m.2) as u64, l.price),
            trades: w.trades + fills_to_trades(m.1, ctx, l.price),
            filled: w.filled + filled_ids(m.1),
            stp_cancelled: w.stp_cancelled,
            last_price: if m.1.len() > 0 {
                Some(l.price)
            } else {
                w.last_price
            },
        },
    )
}

/// A level kept only while it still holds orders.
pub open spec fn kept(l: LevelView) -> Option<LevelView> {
    if l.orders.len() > 0 {
        Some(l)
    } else {
        None
    }
}

/// Whether a level lies beyond the incoming order's limit price.
pub open spec fn beyond_limit(ctx: WalkCtx, price: u128) -> bool {
    match ctx.limit {
        Some(limit) => match ctx.side {
            Side::Buy => price > limit,
            Side::Sell => price < limit,
        },
        None => false,
    }
}

/// The minimum of two quantities.
pub open spec fn min_q(a: u64, b: u64) -> u64 {
    if a <= b { a } else { b }
}

/// The plain fill of a level up to `cap`; the walk goes on unless the
/// budget is spent.
pub open spec fn plain_step(l: LevelView, cap: u64, w: WalkView, ctx: WalkCtx) -> (Option<LevelView>, WalkView, bool) {
    let (l1, w1) = apply_match(l, cap, w, ctx);
    (kept(l1), w1, !spec_is_done(w1.stop))
}

/// A fill of up to `min(cap, safe)` ahead of a self-trade conflict.
pub open spec fn safe_step(l: LevelView, cap: u64, safe: u64, w: WalkView, ctx: WalkCtx) -> (LevelView, WalkView) {
    if min_q(cap, safe) > 0 {
        apply_match(l, min_q(cap, safe), w, ctx)
    } else {
        (l, w)
    }
}

/// One level of the walk: the level as it stays (if it stays), the walk's
/// progress, and whether the walk goes on to the next level.
pub open spec fn level_step(l: LevelView, w: WalkView, ctx: WalkCtx) -> (Option<LevelView>, WalkView, bool) {
    let cap = spec_level_qty_cap(w.stop, l.price, ctx.lot);
    if beyond_limit(ctx, l.price) || cap <= 0 {
        (Some(l), w, false)
    } else if ctx.stp {
        match stp_action(l.orders, ctx.user, ctx.mode) {
            STPAction::NoConflict => plain_step(l, cap as u64, w, ctx),
            STPAction::CancelTaker { safe_quantity } => {
                let (l1, w1) = safe_step(l, cap as u64, safe_quantity, w, ctx);
                (kept(l1), WalkView { stp_cancelled: true, ..w1 }, false)
            },
            STPAction::CancelMaker => {
                let l1 = LevelView { price: l.price, orders: l.orders.filter(|o: Order| o.user_id != ctx.user) };
                if l1.orders.len() == 0 {
                    (None, w, true)
                } else {
                    plain_step(l1, cap as u64, w, ctx)
                }
            },
            STPAction::CancelBoth { safe_quantity, maker_order_id } => {
                let (l1, w1) = safe_step(l, cap as u64, safe_quantity, w, ctx);
                let l2 = LevelView { price: l1.price, orders: l1.orders.filter(|o: Order| o.id != maker_order_id) };
                (kept(l2), WalkView { stp_cancelled: true, ..w1 }, false)
            },
        }
    } else {
        plain_step(l, cap as u64, w, ctx)
    }
}

/// The walk over `ls` from level `i`, with the levels already passed in
/// `done`: returns the side as it stays and the walk's progress.
pub open spec fn walk(ls: Seq<LevelView>, i: int, done: Seq<LevelView>, w: WalkView, ctx: WalkCtx) -> (Seq<LevelView>, WalkView)
    decreases ls.len() - i,
{
    if i < 0 || i >= ls.len() {
        (done, w)
    } else {
        let (k, w2, cont) = level_step(ls[i], w, ctx);
        let done2 = match k {
            Some(l) => done.push(l),
            None => done,
        };
        if cont {
            walk(ls, i + 1, done2, w2, ctx)
        } else {
            (done2 + ls.subrange(i + 1, ls.len() as int), w2)
        }
    }
}

pub proof fn lemma_sview_push(v: Seq<Level>, l: Level)
    ensures
        sview(v.push(l)) == sview(v).push(lview(l)),
{
    assert(sview(v.push(l)) =~= sview(v).push(lview(l)));
}

pub proof fn lemma_sview_add(a: Seq<Level>, b: Seq<Level>)
    ensures
        sview(a + b) == sview(a) + sview(b),
{
    assert(sview(a + b) =~= sview(a) + sview(b));
}

/// Keep the orders of `orders` whose owner is not `user`.
fn without_user(orders: &Vec<Order>, user: u128) -> (r: Vec<Order>)
    ensures
        r@ == orders@.filter(|o: Order| o.user_id != user),
{
    let mut r: Vec<Order> = Vec::new();
    let mut i: usize = 0;
    while i < orders.len()
        invariant
            i <= orders@.len(),
            r@ == orders@.take(i as int).filter(|o: Order| o.user_id != user),
        decreases orders@.len() - i,
    {
        proof {
            orders@.take(i as int).lemma_filter_push(orders@[i as int], |o: Order| o.user_id != user);
            assert(orders@.take(i as int + 1) =~= orders@.take(i as int).push(orders@[i as int]));
        }
        let ghost r0 = r@;
        if orders[i].user_id != user {
            r.push(orders[i]);
        }
        proof {
            if (orders@[i as int].user_id != user) {
                assert(r@ == r0.push(orders@[i as int]));
            } else {
                assert(r@ == r0);
            }
        }
        i += 1;
    }
    assert(orders@.take(orders@.len() as int) =~= orders@);
    r
}

/// Keep the orders of `orders` whose id is not `id`.
pub fn without_id(orders: &Vec<Order>, id: u128) -> (r: Vec<Order>)
    ensures
        r@ == orders@.filter(|o: Order| o.id != id),
{
    let mut r: Vec<Order> = Vec::new();
    let mut i: usize = 0;
    while i < orders.len()
        invariant
            i <= orders@.len(),
            r@ == orders@.take(i as int).filter(|o: Order| o.id != id),
        decreases orders@.len() - i,
    {
        proof {
            orders@.take(i as int).lemma_filter_push(orders@[i as int], |o: Order| o.id != id);
            assert(orders@.take(i as int + 1) =~= orders@.take(i as int).push(orders@[i as int]));
        }
        let ghost r0 = r@;
        if orders[i].id != id {
            r.push(orders[i]);
        }
        proof {
            if (orders@[i as int].id != id) {
                assert(r@ == r0.push(orders@[i as int]));
            } else {
                assert(r@ == r0);
            }
        }
        i += 1;
    }
    assert(orders@.take(orders@.len() as int) =~= orders@);
    r
}

/// Record a level's fills in the walk's progress.
fn record_fills(w: &mut WalkState, fills: &Vec<Fill>, ctx: &WalkCtx, price: u128)
    ensures
        final(w).stop == old(w).stop,
        final(w).stp_cancelled == old(w).stp_cancelled,
        final(w).trades@ == old(w).trades@ + fills_to_trades(fills@, *ctx, price),
        final(w).filled@ == old(w).filled@ + filled_ids(fills@),
        final(w).last_price == (if fills@.len() > 0 {
            Some(price)
        } else {
            old(w).last_price
        }),
{
    let ghost t0 = w.trades@;
    let ghost f0 = w.filled@;
    let mut i: usize = 0;
    while i < fills.len()
        invariant
            i <= fills@.len(),
            w.stop == old(w).stop,
            w.stp_cancelled == old(w).stp_cancelled,
            w.last_price == old(w).last_price,
            w.trades@ == t0 + fills_to_trades(fills@.take(i as int), *ctx, price),
            w.filled@ == f0 + filled_ids(fills@.take(i as int)),
        decreases fills@.len() - i,
    {
        let f = fills[i];
        proof {
            assert(fills@.take(i as int + 1).drop_last() =~= fills@.take(i as int));
        }
        w.trades.push(Trade {
            taker_order_id: ctx.taker_id,
            maker_order_id: f.maker_order_id,
            price,
            quantity: f.quantity,
            taker_side: ctx.side,
        });
        if f.maker_filled {
            w.filled.push(f.maker_order_id);
        }
        i += 1;
        proof {
            assert(w.trades@ =~= t0 + fills_to_trades(fills@.take(i as int), *ctx, price));
            assert(w.filled@ =~= f0 + filled_ids(fills@.take(i as int)));
        }
    }
    assert(fills@.take(fills@.len() as int) =~= fills@);
    if fills.len() > 0 {
        w.last_price = Some(price);
    }
}

/// Sweep `level` for `qty` and record it in the walk's progress.
fn apply_match_exec(level: &mut Level, qty: u64, w: &mut WalkState, ctx: &WalkCtx)
    requires
        crate::orderbook::level::queue_ok(old(level).orders@, old(level).price, crate::orderbook::types::spec_opposite(ctx.side)),
        crate::orderbook::level::ids_distinct(old(level).orders@),
    ensures
        (lview(*final(level)), wview(*final(w))) == apply_match(lview(*old(level)), qty, wview(*old(w)), *ctx),
{
    let ghost l0 = lview(*level);
    let (fills, rem) = level.match_incoming(qty, ctx.taker_id);
    proof {
        if !queue_has_id(l0.orders, ctx.taker_id) {
            crate::orderbook::level::lemma_sweep_facts(l0.orders, qty, seq![], l0.price, crate::orderbook::types::spec_opposite(ctx.side));
        }
    }
    let executed = qty - rem;
    let price = level.price;
    w.stop.consume(executed, price);
    record_fills(w, &fills, ctx, price);
}


/// Filtering a queue keeps only orders that were there, keeps their ids
/// distinct, and keeps every per-order property.
pub proof fn lemma_filter_queue(q: Seq<Order>, pred: spec_fn(Order) -> bool, price: u128, side: Side)
    requires
        crate::orderbook::level::queue_ok(q, price, side),
        crate::orderbook::level::ids_distinct(q),
    ensures
        crate::orderbook::level::queue_ok(q.filter(pred), price, side),
        crate::orderbook::level::ids_distinct(q.filter(pred)),
        forall|i: int| 0 <= i < q.filter(pred).len() ==> exists|j: int| 0 <= j < q.len() && #[trigger] q.filter(pred)[i] == q[j],
        forall|i: int| 0 <= i < q.filter(pred).len() ==> pred(#[trigger] q.filter(pred)[i]),
    decreases q.len(),
{
    reveal(Seq::filter);
    if q.len() > 0 {
        let d = q.drop_last();
        assert forall|i: int| 0 <= i < d.len() implies (#[trigger] d[i]) == q[i] by {}
        assert(crate::orderbook::level::queue_ok(d, price, side)) by {
            assert forall|i: int| 0 <= i < d.len() implies (#[trigger] d[i]).price == price && d[i].side == side && crate::orderbook::level::step_ok(d[i]) by {
                assert(d[i] == q[i]);
            }
        }
        assert(crate::orderbook::level::ids_distinct(d)) by {
            assert forall|i: int, j: int| 0 <= i < j < d.len() implies (#[trigger] d[i]).id != (#[trigger] d[j]).id by {
                assert(d[i] == q[i]);
                assert(d[j] == q[j]);
            }
        }
        lemma_filter_queue(d, pred, price, side);
        let fd = d.filter(pred);
        let f = q.filter(pred);
        if pred(q.last()) {
            assert(f == fd.push(q.last()));
            assert forall|i: int| 0 <= i < f.len() implies exists|j: int| 0 <= j < q.len() && #[trigger] f[i] == q[j] by {
                if i < fd.len() {
                    let j = choose|j: int| 0 <= j < d.len() && fd[i] == d[j];
                    assert(f[i] == q[j]);
                } else {
                    assert(f[i] == q[q.len() - 1]);
                }
            }
            assert forall|i: int, j: int| 0 <= i < j < f.len() implies (#[trigger] f[i]).id != (#[trigger] f[j]).id by {
                if j < fd.len() {
                    assert(f[i] == fd[i]);
                    assert(f[j] == fd[j]);
                } else {
                    assert(f[i] == fd[i]);
                    let k = choose|k: int| 0 <= k < d.len() && fd[i] == d[k];
                    assert(q[k].id != q[q.len() - 1].id);
                }
            }
            assert forall|i: int| 0 <= i < f.len() implies (#[trigger] f[i]).price == price && f[i].side == side && crate::orderbook::level::step_ok(f[i]) by {
                if i < fd.len() {
                    assert(f[i] == fd[i]);
                }
            }
            assert forall|i: int| 0 <= i < f.len() implies pred(#[trigger] f[i]) by {
                if i < fd.len() {
                    assert(f[i] == fd[i]);
                }
            }
        } else {
            assert(f == fd);
            assert forall|i: int| 0 <= i < f.len() implies exists|j: int| 0 <= j < q.len() && #[trigger] f[i] == q[j] by {
                let j = choose|j: int| 0 <= j < d.len() && fd[i] == d[j];
                assert(f[i] == q[j]);
            }
        }
    }
}

/// Whether a level may enter the walk: its orders rest at its price on the
/// side the incoming order takes from, fit and carry distinct ids.
pub open spec fn walkable(l: LevelView, ctx: WalkCtx) -> bool {
    &&& crate::orderbook::level::queue_ok(l.orders, l.price, crate::orderbook::types::spec_opposite(ctx.side))
    &&& crate::orderbook::level::ids_distinct(l.orders)
}

/// The optional value of an optional level.
pub open spec fn oview(o: Option<Level>) -> Option<LevelView> {
    match o {
        Some(l) => Some(lview(l)),
        None => None,
    }
}

fn kept_exec(level: Level) -> (r: Option<Level>)
    ensures
        oview(r) == kept(lview(level)),
{
    if level.orders.len() > 0 {
        Some(level)
    } else {
        None
    }
}

/// One level of the walk.
fn level_step_exec(level: Level, w: &mut WalkState, ctx: &WalkCtx) -> (res: (Option<Level>, bool))
    requires
        walkable(lview(level), *ctx),
    ensures
        (oview(res.0), wview(*final(w)), res.1) == level_step(lview(level), wview(*old(w)), *ctx),
{
    let ghost l0 = lview(level);
    let mut level = level;
    let cap = w.stop.level_qty_cap(level.price, ctx.lot);
    let beyond = match ctx.limit {
        Some(limit) => match ctx.side {
            Side::Buy => level.price > limit,
            Side::Sell => level.price < limit,
        },
        None => false,
    };
    if beyond || cap == 0 {
        return (Some(level), false);
    }
    if ctx.stp {
        match check_stp_at_level(&level.orders, ctx.user, ctx.mode) {
            STPAction::NoConflict => {},
            STPAction::CancelTaker { safe_quantity } => {
                let m = if cap <= safe_quantity { cap } else { safe_quantity };
                if m > 0 {
                    apply_match_exec(&mut level, m, w, ctx);
                }
                w.stp_cancelled = true;
                return (kept_exec(level), false);
            },
            STPAction::CancelMaker => {
                proof {
                    lemma_filter_queue(l0.orders, |o: Order| o.user_id != ctx.user, l0.price, crate::orderbook::types::spec_opposite(ctx.side));
                }
                level.orders = without_user(&level.orders, ctx.user);
                if level.orders.len() == 0 {
                    return (None, true);
                }
            },
            STPAction::CancelBoth { safe_quantity, maker_order_id } => {
                let m = if cap <= safe_quantity { cap } else { safe_quantity };
                if m > 0 {
                    proof {
                        if !queue_has_id(l0.orders, ctx.taker_id) {
                            crate::orderbook::level::lemma_sweep_facts(l0.orders, m, seq![], l0.price, crate::orderbook::types::spec_opposite(ctx.side));
                        }
                    }
                    apply_match_exec(&mut level, m, w, ctx);
                }
                level.orders = without_id(&level.orders, maker_order_id);
                w.stp_cancelled = true;
                return (kept_exec(level), false);
            },
        }
    }
    apply_match_exec(&mut level, cap, w, ctx);
    let cont = !w.stop.is_done();
    (kept_exec(level), cont)
}

/// Walk the levels of one side in price priority; returns the side as it
/// stays.
pub fn walk_exec(levels: Vec<Level>, w: &mut WalkState, ctx: &WalkCtx) -> (out: Vec<Level>)
    requires
        forall|i: int| 0 <= i < levels@.len() ==> walkable(#[trigger] sview(levels@)[i], *ctx),
    ensures
        (sview(out@), wview(*final(w))) == walk(sview(levels@), 0, seq![], wview(*old(w)), *ctx),
{
    let ghost ls = sview(levels@);
    let ghost w0 = wview(*w);
    let mut rest = levels;
    let mut done: Vec<Level> = Vec::new();
    let ghost mut i: int = 0;
    assert(sview(done@) =~= seq![]);
    assert(sview(rest@) =~= ls.subrange(0, ls.len() as int));
    while rest.len() > 0
        invariant
            0 <= i <= ls.len(),
            sview(rest@) == ls.subrange(i, ls.len() as int),
            walk(ls, i, sview(done@), wview(*w), *ctx) == walk(ls, 0, seq![], w0, *ctx),
            forall|k: int| 0 <= k < ls.len() ==> walkable(#[trigger] ls[k], *ctx),
            ls == sview(levels@),
            w0 == wview(*old(w)),
        decreases rest@.len(),
    {
        let ghost rest0 = rest@;
        let lvl = rest.remove(0);
        assert(sview(rest0).len() == rest0.len());
        assert(i < ls.len());
        assert(sview(rest0)[0] == lview(rest0[0]));
        assert(ls.subrange(i, ls.len() as int)[0] == ls[i]);
        assert(lview(lvl) == ls[i]);
        let ghost done0 = done@;
        let ghost wold = wview(*w);
        let ghost i0 = i;
        let (k, cont) = level_step_exec(lvl, w, ctx);
        match k {
            Some(l) => {
                done.push(l);
                proof { lemma_sview_push(done0, l); }
            },
            None => {},
        }
        proof {
            i = i + 1;
            assert forall|k: int| 0 <= k < rest@.len() implies #[trigger] sview(rest@)[k] == ls.subrange(i, ls.len() as int)[k] by {
                assert(rest@[k] == rest0[k + 1]);
                assert(sview(rest0)[k + 1] == lview(rest0[k + 1]));
            }
            assert(sview(rest@) =~= ls.subrange(i, ls.len() as int));
            assert(walk(ls, i0, sview(done0), wold, *ctx) == (if cont {
                walk(ls, i0 + 1, sview(done@), wview(*w), *ctx)
            } else {
                (sview(done@) + ls.subrange(i0 + 1, ls.len() as int), wview(*w))
            }));
        }
        if !cont {
            let ghost d = done@;
            let ghost r = rest@;
            done.append(&mut rest);
            proof {
                lemma_sview_add(d, r);
                assert(sview(r) == ls.subrange(i0 + 1, ls.len() as int));
                assert(done@ == d + r);
                assert(sview(done@) == sview(d) + ls.subrange(i0 + 1, ls.len() as int));
            }
            return done;
        }
    }
    done
}
} // verus!
