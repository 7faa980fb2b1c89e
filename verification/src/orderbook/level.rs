//! A price level: a FIFO queue of resting orders at one price, and the sweep
//! that fills an incoming quantity against it in time priority.

use crate::orderbook::order::{match_against, spec_match_against, MakerStep};
use crate::orderbook::types::{
    hidden_of, order_wf, total_fits, total_of, visible_of, Order, OrderKind, Side,
};
use vstd::prelude::*;

verus! {

/// One maker's part of a fill at a level.
#[derive(Debug, Clone, Copy, PartialEq, Eq)]
pub struct Fill {
    /// The resting order that traded.
    pub maker_order_id: u128,
    /// Quantity traded.
    pub quantity: u64,
    /// Whether the maker left the level with this fill.
    pub maker_filled: bool,
}

/// The resting orders at one price, oldest first.
#[derive(Debug, Clone)]
pub struct Level {
    /// The level's price.
    pub price: u128,
    /// Resting orders in time priority.
    pub orders: Vec<Order>,
}

/// Termination weight of a resting order: every fill step strictly lowers
/// the sum of the incoming remainder and these weights.
pub open spec fn weight(o: Order) -> int {
    visible_of(o) + 2 * hidden_of(o) + 1
}

/// The sum of the weights of a queue.
pub open spec fn queue_weight(q: Seq<Order>) -> int
    decreases q.len(),
{
    if q.len() == 0 {
        0
    } else {
        weight(q[0]) + queue_weight(q.drop_first())
    }
}

/// Whether a maker can take part in a fill step (its total fits a `u64` and
/// its shape is well formed); a sweep stops at a maker that cannot.
pub open spec fn step_ok(o: Order) -> bool {
    total_fits(o) && order_wf(o)
}

/// The queue after a fill step on its front maker: a maker that left is
/// dropped, a refreshed tranche goes to the back, a partial fill keeps its
/// place at the front.
pub open spec fn queue_after_step(q: Seq<Order>, s: MakerStep) -> Seq<Order> {
    let rest = q.drop_first();
    match s.updated {
        None => rest,
        Some(u) => if s.hidden_reduced > 0 {
            rest.push(u)
        } else {
            seq![u] + rest
        },
    }
}

/// The fills a step reports: one when it consumed anything.
pub open spec fn fills_of_step(m: Order, s: MakerStep) -> Seq<Fill> {
    if s.consumed > 0 {
        seq![Fill { maker_order_id: m.id, quantity: s.consumed, maker_filled: s.updated is None }]
    } else {
        seq![]
    }
}

/// The sweep of an incoming quantity `r` against a queue, accumulating fills:
/// steps on the front maker until the incoming quantity is spent, the queue is
/// empty, or the front maker cannot step. Returns the queue, the fills and
/// the unfilled remainder.
pub open spec fn sweep(q: Seq<Order>, r: u64, fills: Seq<Fill>) -> (Seq<Order>, Seq<Fill>, u64)
    decreases r + queue_weight(q),
{
    if r == 0 || q.len() == 0 || !step_ok(q[0]) {
        (q, fills, r)
    } else {
        let s = spec_match_against(q[0], r);
        proof {
            lemma_step_decreases(q, r);
        }
        sweep(queue_after_step(q, s), s.remaining, fills + fills_of_step(q[0], s))
    }
}

/// The total quantity of a sequence of fills.
pub open spec fn fills_total(f: Seq<Fill>) -> int
    decreases f.len(),
{
    if f.len() == 0 {
        0
    } else {
        fills_total(f.drop_last()) + f.last().quantity
    }
}

/// Whether some order of the queue has id `id`.
pub open spec fn queue_has_id(q: Seq<Order>, id: u128) -> bool {
    exists|i: int| 0 <= i < q.len() && (#[trigger] q[i]).id == id
}

/// No two orders of the queue share an id.
pub open spec fn ids_distinct(q: Seq<Order>) -> bool {
    forall|i: int, j: int| 0 <= i < j < q.len() ==> (#[trigger] q[i]).id != (#[trigger] q[j]).id
}

/// Every order of the queue rests at `price` on `side`, fits and is well
/// formed.
pub open spec fn queue_ok(q: Seq<Order>, price: u128, side: Side) -> bool {
    forall|i: int|
        0 <= i < q.len() ==> (#[trigger] q[i]).price == price && q[i].side == side && step_ok(q[i])
}

/// The visible quantity of a queue.
pub open spec fn queue_visible(q: Seq<Order>) -> int
    decreases q.len(),
{
    if q.len() == 0 {
        0
    } else {
        queue_visible(q.drop_last()) + visible_of(q.last())
    }
}

/// The total (visible plus hidden) quantity of a queue.
pub open spec fn queue_total(q: Seq<Order>) -> int
    decreases q.len(),
{
    if q.len() == 0 {
        0
    } else {
        queue_total(q.drop_last()) + total_of(q.last())
    }
}

/// The hidden quantity of a queue.
pub open spec fn queue_hidden(q: Seq<Order>) -> int
    decreases q.len(),
{
    if q.len() == 0 {
        0
    } else {
        queue_hidden(q.drop_last()) + hidden_of(q.last())
    }
}

/// What the book reads as a level's depth: its total, or `0` when the total
/// does not fit a `u64`.
pub open spec fn queue_depth(q: Seq<Order>) -> u64 {
    if queue_total(q) <= u64::MAX {
        queue_total(q) as u64
    } else {
        0
    }
}

/// Sums over a queue never go down as the queue grows.
pub proof fn lemma_queue_sums_monotone(q: Seq<Order>, i: int, j: int)
    requires
        0 <= i <= j <= q.len(),
    ensures
        queue_total(q.take(i)) <= queue_total(q.take(j)),
        queue_visible(q.take(i)) <= queue_visible(q.take(j)),
        queue_hidden(q.take(i)) <= queue_hidden(q.take(j)),
        queue_total(q.take(i)) >= 0,
        queue_visible(q.take(i)) >= 0,
        queue_hidden(q.take(i)) >= 0,
    decreases j,
{
    if j > 0 {
        assert(q.take(j).drop_last() =~= q.take(j - 1));
        if i < j {
            lemma_queue_sums_monotone(q, i, j - 1);
        } else {
            lemma_queue_sums_monotone(q, i - 1, j - 1);
        }
    } else {
        assert(q.take(0) =~= Seq::<Order>::empty());
    }
}

pub proof fn lemma_queue_weight_nonneg(q: Seq<Order>)
    ensures
        queue_weight(q) >= 0,
    decreases q.len(),
{
    if q.len() > 0 {
        lemma_queue_weight_nonneg(q.drop_first());
    }
}

pub proof fn lemma_queue_weight_push(q: Seq<Order>, x: Order)
    ensures
        queue_weight(q.push(x)) == queue_weight(q) + weight(x),
    decreases q.len(),
{
    if q.len() == 0 {
        assert(q.push(x).drop_first() =~= q);
    } else {
        assert(q.push(x).drop_first() =~= q.drop_first().push(x));
        lemma_queue_weight_push(q.drop_first(), x);
    }
}

/// A fill step lowers the sweep measure.
pub proof fn lemma_step_decreases(q: Seq<Order>, r: u64)
    requires
        r > 0,
        q.len() > 0,
        step_ok(q[0]),
    ensures
        spec_match_against(q[0], r).remaining + queue_weight(
            queue_after_step(q, spec_match_against(q[0], r)),
        ) < r + queue_weight(q),
        queue_weight(queue_after_step(q, spec_match_against(q[0], r))) >= 0,
{
    let s = spec_match_against(q[0], r);
    let rest = q.drop_first();
    lemma_queue_weight_nonneg(rest);
    assert(queue_weight(q) == weight(q[0]) + queue_weight(rest));
    match s.updated {
        None => {},
        Some(u) => {
            if s.hidden_reduced > 0 {
                lemma_queue_weight_push(rest, u);
            } else {
                assert((seq![u] + rest).drop_first() =~= rest);
            }
        },
    }
    lemma_queue_weight_nonneg(queue_after_step(q, s));
}

/// A fill step keeps the maker's identity, keeps it well formed, fits, and
/// never grows its total.
pub proof fn lemma_step_shape(m: Order, r: u64)
    requires
        step_ok(m),
        r > 0,
    ensures
        spec_match_against(m, r).consumed <= r,
        spec_match_against(m, r).remaining == r - spec_match_against(m, r).consumed,
        spec_match_against(m, r).updated matches Some(u) ==> u.id == m.id && u.price == m.price
            && u.side == m.side && u.user_id == m.user_id && u.timestamp == m.timestamp
            && u.time_in_force == m.time_in_force && step_ok(u) && total_of(u) == total_of(m)
            - spec_match_against(m, r).consumed,
        spec_match_against(m, r).updated is None ==> spec_match_against(m, r).consumed
            == visible_of(m),
        spec_match_against(m, r).updated matches Some(u) ==> (spec_match_against(m, r).hidden_reduced
            == 0 ==> spec_match_against(m, r).remaining == 0),
{
}

/// The fills of a queue step accumulate the consumed quantity.
pub proof fn lemma_fills_total_step(f: Seq<Fill>, m: Order, s: MakerStep)
    ensures
        fills_total(f + fills_of_step(m, s)) == fills_total(f) + s.consumed,
{
    if s.consumed > 0 {
        assert((f + fills_of_step(m, s)).drop_last() =~= f);
    } else {
        assert(f + fills_of_step(m, s) =~= f);
    }
}

/// What a sweep keeps: every resting order still rests at the same price and
/// side, fits and is well formed, ids stay distinct and no id appears that
/// was not there; the fills add up to what the incoming quantity lost.
pub proof fn lemma_sweep_facts(q: Seq<Order>, r: u64, f: Seq<Fill>, price: u128, side: Side)
    requires
        queue_ok(q, price, side),
        ids_distinct(q),
    ensures
        queue_ok(sweep(q, r, f).0, price, side),
        ids_distinct(sweep(q, r, f).0),
        forall|id: u128| queue_has_id(sweep(q, r, f).0, id) ==> queue_has_id(q, id),
        sweep(q, r, f).2 <= r,
        fills_total(sweep(q, r, f).1) == fills_total(f) + r - sweep(q, r, f).2,
    decreases r + queue_weight(q),
{
    if r == 0 || q.len() == 0 || !step_ok(q[0]) {
    } else {
        let m = q[0];
        let s = spec_match_against(m, r);
        let rest = q.drop_first();
        let q2 = queue_after_step(q, s);
        lemma_step_decreases(q, r);
        lemma_step_shape(m, r);
        lemma_fills_total_step(f, m, s);
        assert forall|i: int| 0 <= i < rest.len() implies (#[trigger] rest[i]) == q[i + 1] by {}
        match s.updated {
            None => {
                assert(q2 == rest);
            },
            Some(u) => {
                if s.hidden_reduced > 0 {
                    assert(q2 == rest.push(u));
                    assert forall|i: int| 0 <= i < q2.len() implies (#[trigger] q2[i]).price == price
                        && q2[i].side == side && step_ok(q2[i]) by {
                        if i < rest.len() {
                            assert(q2[i] == q[i + 1]);
                        }
                    }
                    assert forall|i: int, j: int| 0 <= i < j < q2.len() implies (#[trigger] q2[i]).id
                        != (#[trigger] q2[j]).id by {
                        assert(q2[i] == q[i + 1]);
                        if j < rest.len() {
                            assert(q2[j] == q[j + 1]);
                        } else {
                            assert(q2[j] == u);
                            assert(q[0].id != q[i + 1].id);
                        }
                    }
                } else {
                    assert(q2 == seq![u] + rest);
                    assert forall|i: int| 0 <= i < q2.len() implies (#[trigger] q2[i]).price == price
                        && q2[i].side == side && step_ok(q2[i]) by {
                        if i > 0 {
                            assert(q2[i] == q[i]);
                        }
                    }
                    assert forall|i: int, j: int| 0 <= i < j < q2.len() implies (#[trigger] q2[i]).id
                        != (#[trigger] q2[j]).id by {
                        assert(q2[j] == q[j]);
                        if i > 0 {
                            assert(q2[i] == q[i]);
                        } else {
                            assert(q2[i] == u);
                            assert(q[0].id != q[j].id);
                        }
                    }
                }
            },
        }
        assert forall|id: u128| queue_has_id(q2, id) implies queue_has_id(q, id) by {
            let i = choose|i: int| 0 <= i < q2.len() && (#[trigger] q2[i]).id == id;
            match s.updated {
                None => {
                    assert(q[i + 1].id == id);
                },
                Some(u) => {
                    if s.hidden_reduced > 0 {
                        if i < rest.len() {
                            assert(q[i + 1].id == id);
                        } else {
                            assert(q[0].id == id);
                        }
                    } else {
                        if i > 0 {
                            assert(q2[i] == q[i]);
                            assert(q[i].id == id);
                        } else {
                            assert(q[0].id == id);
                        }
                    }
                },
            }
        }
        lemma_sweep_facts(q2, s.remaining, f + fills_of_step(m, s), price, side);
    }
}

impl Level {
    /// Whether an order with `id` rests here.
    pub fn has_order(&self, id: u128) -> (r: bool)
        ensures
            r == queue_has_id(self.orders@, id),
    {
        let mut i: usize = 0;
        while i < self.orders.len()
            invariant
                i <= self.orders@.len(),
                forall|k: int| 0 <= k < i ==> (#[trigger] self.orders@[k]).id != id,
            decreases self.orders@.len() - i,
        {
            if self.orders[i].id == id {
                return true;
            }
            i += 1;
        }
        false
    }

    /// The level's total, or `None` when it does not fit a `u64`.
    pub fn total_checked(&self) -> (r: Option<u64>)
        ensures
            queue_total(self.orders@) >= 0,
            r == (if queue_total(self.orders@) <= u64::MAX {
                Some(queue_total(self.orders@) as u64)
            } else {
                None::<u64>
            }),
    {
        let q = &self.orders;
        let mut acc: Option<u64> = Some(0);
        let mut i: usize = 0;
        while i < q.len()
            invariant
                i <= q@.len(),
                q@ == self.orders@,
                acc == (if queue_total(q@.take(i as int)) <= u64::MAX {
                    Some(queue_total(q@.take(i as int)) as u64)
                } else {
                    None::<u64>
                }),
            decreases q@.len() - i,
        {
            proof {
                assert(q@.take(i as int + 1).drop_last() =~= q@.take(i as int));
                assert(q@.take(i as int + 1).last() == q@[i as int]);
                lemma_queue_sums_monotone(q@, i as int, i as int);
            }
            acc = match acc {
                Some(a) => match a.checked_add(q[i].visible_quantity()) {
                    Some(b) => b.checked_add(q[i].hidden_quantity()),
                    None => None,
                },
                None => None,
            };
            i += 1;
        }
        assert(q@.take(q@.len() as int) =~= q@);
        proof {
            lemma_queue_sums_monotone(q@, q@.len() as int, q@.len() as int);
        }
        acc
    }

    /// The level's depth: the total of its orders, or `0` when it does not
    /// fit a `u64`.
    pub fn depth(&self) -> (r: u64)
        ensures
            r == queue_depth(self.orders@),
    {
        match self.total_checked() {
            Some(a) => a,
            None => 0,
        }
    }

    /// Whether the level's visible and hidden aggregates can absorb
    /// `visible` and `hidden` more without overflowing a `u64`.
    pub fn has_headroom(&self, visible: u64, hidden: u64) -> (r: bool)
        ensures
            r == (queue_visible(self.orders@) + visible <= u64::MAX && queue_hidden(self.orders@)
                + hidden <= u64::MAX),
    {
        let q = &self.orders;
        let mut v: u64 = visible;
        let mut h: u64 = hidden;
        let mut i: usize = 0;
        while i < q.len()
            invariant
                i <= q@.len(),
                q@ == self.orders@,
                v == visible + queue_visible(q@.take(i as int)),
                h == hidden + queue_hidden(q@.take(i as int)),
            decreases q@.len() - i,
        {
            proof {
                assert(q@.take(i as int + 1).drop_last() =~= q@.take(i as int));
                assert(q@.take(i as int + 1).last() == q@[i as int]);
                assert(queue_visible(q@.take(i as int + 1)) == queue_visible(q@.take(i as int)) + visible_of(q@[i as int]));
                assert(queue_hidden(q@.take(i as int + 1)) == queue_hidden(q@.take(i as int)) + hidden_of(q@[i as int]));
                lemma_queue_sums_monotone(q@, i as int + 1, q@.len() as int);
                lemma_queue_sums_monotone(q@, i as int, i as int);
                assert(q@.take(q@.len() as int) =~= q@);
            }
            match v.checked_add(q[i].visible_quantity()) {
                Some(nv) => v = nv,
                None => {
                    proof {
                        assert(v + visible_of(q@[i as int]) > u64::MAX);
                        assert(visible + queue_visible(q@.take(i as int + 1)) > u64::MAX);
                        assert(queue_visible(q@.take(i as int + 1)) <= queue_visible(q@.take(q@.len() as int)));
                        assert(queue_visible(q@) + visible > u64::MAX);
                    }
                    return false;
                },
            }
            match h.checked_add(q[i].hidden_quantity()) {
                Some(nh) => h = nh,
                None => {
                    proof {
                        lemma_queue_sums_monotone(q@, i as int + 1, q@.len() as int);
                        assert(q@.take(q@.len() as int) =~= q@);
                    }
                    return false;
                },
            }
            i += 1;
        }
        assert(q@.take(q@.len() as int) =~= q@);
        true
    }

    /// Fill an incoming quantity against this level in time priority. A
    /// taker whose own id rests here takes nothing at this level.
    pub fn match_incoming(&mut self, incoming: u64, taker_id: u128) -> (res: (Vec<Fill>, u64))
        ensures
            final(self).price == old(self).price,
            queue_has_id(old(self).orders@, taker_id) ==> final(self).orders@ == old(
                self,
            ).orders@ && res.0@.len() == 0 && res.1 == incoming,
            !queue_has_id(old(self).orders@, taker_id) ==> (final(self).orders@, res.0@, res.1)
                == sweep(old(self).orders@, incoming, seq![]),
    {
        if self.has_order(taker_id) {
            return (Vec::new(), incoming);
        }
        let ghost q0 = self.orders@;
        let mut fills: Vec<Fill> = Vec::new();
        let mut r = incoming;
        let mut stopped = false;
        while r > 0 && self.orders.len() > 0 && !stopped
            invariant
                sweep(self.orders@, r, fills@) == sweep(q0, incoming, seq![]),
                stopped ==> sweep(self.orders@, r, fills@) == (self.orders@, fills@, r),
                self.price == old(self).price,
            decreases r + queue_weight(self.orders@), if stopped { 0int } else { 1int },
        {
            let m = self.orders[0];
            let fits = m.visible_quantity().checked_add(m.hidden_quantity()).is_some();
            let wf = match m.kind {
                OrderKind::Reserve { replenish_amount, .. } => match replenish_amount {
                    Some(a) => a != 0,
                    None => true,
                },
                _ => true,
            };
            if !(fits && wf) {
                stopped = true;
                assert(!step_ok(self.orders@[0]));
            } else {
                let ghost q = self.orders@;
                proof {
                    lemma_step_decreases(q, r);
                }
                let s = match_against(&m, r);
                self.orders.remove(0);
                assert(self.orders@ =~= q.drop_first());
                match s.updated {
                    None => {},
                    Some(u) => {
                        if s.hidden_reduced > 0 {
                            self.orders.push(u);
                        } else {
                            self.orders.insert(0, u);
                            assert(self.orders@ =~= seq![u] + q.drop_first());
                        }
                    },
                }
                assert(self.orders@ == queue_after_step(q, s));
                let ghost f0 = fills@;
                if s.consumed > 0 {
                    fills.push(Fill { maker_order_id: m.id, quantity: s.consumed, maker_filled: s.updated.is_none() });
                }
                assert(fills@ =~= f0 + fills_of_step(m, s));
                r = s.remaining;
            }
        }
        (fills, r)
    }
}

} // verus!
