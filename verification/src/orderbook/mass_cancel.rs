//! Mass cancellation: everything, one side, one user, a price range, or
//! every order whose time in force has expired.

use crate::orderbook::book::{better, cancels_tracked, side_wf, OrderBook};
use crate::orderbook::order_state::CancelReason;
use crate::orderbook::clock::Clock;
use crate::orderbook::level::{ids_distinct, queue_ok, Level};
use crate::orderbook::text::{decimal_chars, push_decimal, push_str};
use crate::orderbook::types::{spec_is_expired, Order, Side};
use crate::orderbook::walk::{lemma_filter_queue, lemma_sview_push, lview, sview, LevelView};
use vstd::prelude::*;

verus! {

/// Which resting orders a mass cancel removes.
#[derive(Debug, Clone, Copy, PartialEq, Eq)]
pub enum Criterion {
    /// Every order.
    All,
    /// Orders of one user.
    User(u128),
    /// Orders priced within `[min, max]`.
    PriceRange(u128, u128),
    /// Orders whose time in force has expired at `now`, given the market
    /// close.
    Expired(u64, Option<u64>),
}

/// Whether an order survives a mass cancel.
pub open spec fn keeps(c: Criterion, o: Order) -> bool {
    match c {
        Criterion::All => false,
        Criterion::User(u) => o.user_id != u,
        Criterion::PriceRange(lo, hi) => !(lo <= o.price && o.price <= hi),
        Criterion::Expired(now, close) => !spec_is_expired(o.time_in_force, now, close),
    }
}

fn keeps_exec(c: Criterion, o: &Order) -> (r: bool)
    ensures
        r == keeps(c, *o),
{
    match c {
        Criterion::All => false,
        Criterion::User(u) => o.user_id != u,
        Criterion::PriceRange(lo, hi) => !(lo <= o.price && o.price <= hi),
        Criterion::Expired(now, close) => !o.time_in_force.is_expired(now, close),
    }
}

/// The side with the orders `c` removes taken out, and levels left empty
/// dropped.
pub open spec fn side_keep(ls: Seq<LevelView>, c: Criterion) -> Seq<LevelView>
    decreases ls.len(),
{
    if ls.len() == 0 {
        seq![]
    } else {
        let prev = side_keep(ls.drop_last(), c);
        let q = ls.last().orders.filter(|o: Order| keeps(c, o));
        if q.len() > 0 {
            prev.push(LevelView { price: ls.last().price, orders: q })
        } else {
            prev
        }
    }
}

/// The orders `c` removes from the side, level by level in price priority,
/// each level oldest first.
pub open spec fn side_dropped(ls: Seq<LevelView>, c: Criterion) -> Seq<Order>
    decreases ls.len(),
{
    if ls.len() == 0 {
        seq![]
    } else {
        side_dropped(ls.drop_last(), c) + ls.last().orders.filter(|o: Order| !keeps(c, o))
    }
}

/// The ids of a sequence of orders.
pub open spec fn ids_of(s: Seq<Order>) -> Seq<u128> {
    s.map_values(|o: Order| o.id)
}

/// The outcome of a mass cancel.
#[derive(Debug, Clone, PartialEq, Eq)]
pub struct MassCancelResult {
    cancelled_count: usize,
    cancelled_order_ids: Vec<u128>,
}

impl MassCancelResult {
    /// The number of orders cancelled.
    pub closed spec fn spec_count(&self) -> usize {
        self.cancelled_count
    }

    /// The ids of the orders cancelled.
    pub closed spec fn spec_ids(&self) -> Seq<u128> {
        self.cancelled_order_ids@
    }

    /// A result for `ids`.
    pub fn new(cancelled_order_ids: Vec<u128>) -> (r: Self)
        ensures
            r.spec_ids() == cancelled_order_ids@,
            r.spec_count() == cancelled_order_ids@.len(),
    {
        MassCancelResult { cancelled_count: cancelled_order_ids.len(), cancelled_order_ids }
    }

    /// The number of orders cancelled.
    pub fn cancelled_count(&self) -> (r: usize)
        ensures
            r == self.spec_count(),
    {
        self.cancelled_count
    }

    /// The ids of the orders cancelled.
    pub fn cancelled_order_ids(&self) -> (r: &[u128])
        ensures
            r@ == self.spec_ids(),
    {
        self.cancelled_order_ids.as_slice()
    }

    /// Whether nothing was cancelled.
    pub fn is_empty(&self) -> (r: bool)
        ensures
            r == (self.spec_count() == 0),
    {
        self.cancelled_count == 0
    }

    /// `MassCancelResult { cancelled: <count> }`.
    pub fn to_text(&self) -> (s: String)
        ensures
            s@ == "MassCancelResult { cancelled: "@ + decimal_chars(self.spec_count() as nat) + " }"@,
    {
        let mut s = String::new();
        push_str(&mut s, "MassCancelResult { cancelled: ");
        push_decimal(&mut s, self.cancelled_count as u128);
        push_str(&mut s, " }");
        s
    }
}

impl Default for MassCancelResult {
    fn default() -> (r: Self)
        ensures
            r.spec_count() == 0,
            r.spec_ids().len() == 0,
    {
        MassCancelResult { cancelled_count: 0, cancelled_order_ids: Vec::new() }
    }
}

/// Filtering a side keeps it well formed.
pub proof fn lemma_side_keep(ls: Seq<LevelView>, c: Criterion, side: Side)
    requires
        side_wf(ls, side),
    ensures
        side_wf(side_keep(ls, c), side),
        forall|k: int| 0 <= k < side_keep(ls, c).len() ==> exists|j: int| 0 <= j < ls.len() && (#[trigger] side_keep(ls, c)[k]).price == ls[j].price,
        forall|k: int, a: int| 0 <= k < side_keep(ls, c).len() && 0 <= a < side_keep(ls, c)[k].orders.len()
            ==> keeps(c, #[trigger] side_keep(ls, c)[k].orders[a]),
    decreases ls.len(),
{
    if ls.len() > 0 {
        let d = ls.drop_last();
        assert forall|i: int| 0 <= i < d.len() implies #[trigger] d[i] == ls[i] by {}
        assert(side_wf(d, side)) by {
            assert forall|i: int, j: int| 0 <= i < j < d.len() implies better(side, (#[trigger] d[i]).price, (#[trigger] d[j]).price) by {
                assert(d[i] == ls[i]);
                assert(d[j] == ls[j]);
            }
        }
        lemma_side_keep(d, c, side);
        let prev = side_keep(d, c);
        let l = ls.last();
        let pred = |o: Order| keeps(c, o);
        let q = l.orders.filter(pred);
        lemma_filter_queue(l.orders, pred, l.price, side);
        let out = side_keep(ls, c);
        if q.len() > 0 {
            let nl = LevelView { price: l.price, orders: q };
            assert(out == prev.push(nl));
            assert forall|k: int| 0 <= k < out.len() implies exists|j: int| 0 <= j < ls.len() && (#[trigger] out[k]).price == ls[j].price by {
                if k < prev.len() {
                    assert(out[k] == prev[k]);
                    let j = choose|j: int| 0 <= j < d.len() && prev[k].price == d[j].price;
                    assert(ls[j] == d[j]);
                } else {
                    assert(out[k].price == ls[ls.len() - 1].price);
                }
            }
            assert forall|a: int, b: int| 0 <= a < b < out.len() implies better(side, (#[trigger] out[a]).price, (#[trigger] out[b]).price) by {
                if b < prev.len() {
                    assert(out[a] == prev[a]);
                    assert(out[b] == prev[b]);
                } else {
                    assert(out[a] == prev[a]);
                    let j = choose|j: int| 0 <= j < d.len() && prev[a].price == d[j].price;
                    assert(better(side, ls[j].price, ls[ls.len() - 1].price));
                }
            }
            assert forall|a: int| 0 <= a < out.len() implies (#[trigger] out[a]).orders.len() > 0 && ids_distinct(out[a].orders) && queue_ok(out[a].orders, out[a].price, side) by {
                if a < prev.len() {
                    assert(out[a] == prev[a]);
                }
            }
            assert forall|k: int, a: int| 0 <= k < out.len() && 0 <= a < out[k].orders.len() implies keeps(c, #[trigger] out[k].orders[a]) by {
                if k < prev.len() {
                    assert(out[k] == prev[k]);
                }
            }
        } else {
            assert(out == prev);
            assert forall|k: int| 0 <= k < out.len() implies exists|j: int| 0 <= j < ls.len() && (#[trigger] out[k]).price == ls[j].price by {
                let j = choose|j: int| 0 <= j < d.len() && prev[k].price == d[j].price;
                assert(ls[j] == d[j]);
            }
        }
    }
}


/// The orders `c` removes from `v`, levels taken from the last to the
/// first, each level oldest first.
fn dropped_ascending(v: &Vec<Level>, c: Criterion) -> (r: Vec<Order>)
    ensures
        r@ == side_dropped(sview(v@).reverse(), c),
{
    let ghost ls = sview(v@);
    let mut out: Vec<Order> = Vec::new();
    let mut i: usize = v.len();
    while i > 0
        invariant
            i <= v@.len(),
            ls == sview(v@),
            out@ == side_dropped(ls.subrange(i as int, v@.len() as int).reverse(), c),
        decreases i,
    {
        i -= 1;
        let (_, dropped) = filter_queue_exec(&v[i].orders, c);
        let ghost prev = ls.subrange(i as int + 1, v@.len() as int).reverse();
        let ghost next = ls.subrange(i as int, v@.len() as int).reverse();
        assert(next =~= prev.push(ls[i as int]));
        assert(next.drop_last() =~= prev);
        assert(ls[i as int] == lview(v@[i as int]));
        let mut j: usize = 0;
        let ghost base = out@;
        while j < dropped.len()
            invariant
                j <= dropped@.len(),
                out@ == base + dropped@.take(j as int),
            decreases dropped@.len() - j,
        {
            out.push(dropped[j]);
            assert(dropped@.take(j + 1) =~= dropped@.take(j as int).push(dropped@[j as int]));
            j += 1;
        }
        assert(dropped@.take(dropped@.len() as int) =~= dropped@);
    }
    assert(ls.subrange(0, v@.len() as int) =~= ls);
    out
}

/// A queue whose every order survives a criterion loses none to it.
proof fn lemma_filter_none(q: Seq<Order>, c: Criterion)
    requires
        forall|i: int| 0 <= i < q.len() ==> keeps(c, #[trigger] q[i]),
    ensures
        q.filter(|o: Order| !keeps(c, o)).len() == 0,
    decreases q.len(),
{
    reveal(Seq::filter);
    if q.len() > 0 {
        let d = q.drop_last();
        assert forall|i: int| 0 <= i < d.len() implies keeps(c, #[trigger] d[i]) by {
            assert(d[i] == q[i]);
        }
        lemma_filter_none(d, c);
        assert(keeps(c, q[q.len() - 1]));
    }
}

/// A side whose every order survives a criterion is what the criterion
/// keeps of it, and the criterion removes nothing from it.
proof fn lemma_keep_fixed(ls: Seq<LevelView>, c: Criterion)
    requires
        forall|k: int| 0 <= k < ls.len() ==> (#[trigger] ls[k]).orders.len() > 0,
        forall|k: int, a: int| 0 <= k < ls.len() && 0 <= a < ls[k].orders.len() ==> keeps(c, #[trigger] ls[k].orders[a]),
    ensures
        side_keep(ls, c) == ls,
        side_dropped(ls, c) == Seq::<Order>::empty(),
    decreases ls.len(),
{
    if ls.len() > 0 {
        let d = ls.drop_last();
        assert forall|k: int| 0 <= k < d.len() implies (#[trigger] d[k]).orders.len() > 0 by {
            assert(d[k] == ls[k]);
        }
        assert forall|k: int, a: int| 0 <= k < d.len() && 0 <= a < d[k].orders.len() implies keeps(c, #[trigger] d[k].orders[a]) by {
            assert(d[k] == ls[k]);
        }
        lemma_keep_fixed(d, c);
        let q = ls.last().orders;
        assert forall|i: int| 0 <= i < q.len() implies keeps(c, #[trigger] q[i]) by {
            assert(ls[ls.len() - 1] == ls.last());
        }
        crate::orderbook::book::lemma_filter_all(q, |o: Order| keeps(c, o));
        reveal(Seq::filter);
        lemma_filter_none(q, c);
        assert(q.filter(|o: Order| !keeps(c, o)) =~= Seq::<Order>::empty());
        assert(d.push(LevelView { price: ls.last().price, orders: q }) =~= ls);
    }
}

/// Law: a mass cancel leaves no order it targets: applying the same
/// criterion again removes nothing and changes nothing. In particular a
/// second eviction at the same time finds nothing to evict.
pub proof fn law_mass_cancel_idempotent(ls: Seq<LevelView>, c: Criterion, side: Side)
    requires
        side_wf(ls, side),
    ensures
        side_keep(side_keep(ls, c), c) == side_keep(ls, c),
        side_dropped(side_keep(ls, c), c) == Seq::<Order>::empty(),
{
    lemma_side_keep(ls, c, side);
    let k = side_keep(ls, c);
    lemma_keep_fixed(k, c);
}

/// Law: cancelling everything leaves an empty side and removes every
/// resting order, level by level in price priority.
pub proof fn law_cancel_all_empties(ls: Seq<LevelView>, side: Side)
    requires
        side_wf(ls, side),
    ensures
        side_keep(ls, Criterion::All) == Seq::<LevelView>::empty(),
{
    lemma_side_keep(ls, Criterion::All, side);
    let k = side_keep(ls, Criterion::All);
    if k.len() > 0 {
        assert(k[0].orders.len() > 0);
        assert(keeps(Criterion::All, k[0].orders[0]));
    }
}

fn filter_queue_exec(q: &Vec<Order>, c: Criterion) -> (r: (Vec<Order>, Vec<Order>))
    ensures
        r.0@ == q@.filter(|o: Order| keeps(c, o)),
        r.1@ == q@.filter(|o: Order| !keeps(c, o)),
{
    let mut kept: Vec<Order> = Vec::new();
    let mut dropped: Vec<Order> = Vec::new();
    let mut i: usize = 0;
    while i < q.len()
        invariant
            i <= q@.len(),
            kept@ == q@.take(i as int).filter(|o: Order| keeps(c, o)),
            dropped@ == q@.take(i as int).filter(|o: Order| !keeps(c, o)),
        decreases q@.len() - i,
    {
        proof {
            q@.take(i as int).lemma_filter_push(q@[i as int], |o: Order| keeps(c, o));
            q@.take(i as int).lemma_filter_push(q@[i as int], |o: Order| !keeps(c, o));
            assert(q@.take(i as int + 1) =~= q@.take(i as int).push(q@[i as int]));
        }
        let ghost k0 = kept@;
        let ghost d0 = dropped@;
        if keeps_exec(c, &q[i]) {
            kept.push(q[i]);
        } else {
            dropped.push(q[i]);
        }
        proof {
            if keeps(c, q@[i as int]) {
                assert(kept@ == k0.push(q@[i as int]));
                assert(dropped@ == d0);
            } else {
                assert(kept@ == k0);
                assert(dropped@ == d0.push(q@[i as int]));
            }
        }
        i += 1;
    }
    assert(q@.take(q@.len() as int) =~= q@);
    (kept, dropped)
}

/// Remove from `v` the orders `c` removes; returns them.
fn side_keep_exec(v: &mut Vec<Level>, c: Criterion) -> (r: Vec<Order>)
    ensures
        sview(final(v)@) == side_keep(sview(old(v)@), c),
        r@ == side_dropped(sview(old(v)@), c),
{
    let ghost ls = sview(v@);
    let mut out: Vec<Level> = Vec::new();
    let mut dropped: Vec<Order> = Vec::new();
    let mut i: usize = 0;
    assert(sview(out@) =~= side_keep(ls.take(0), c));
    assert(dropped@ =~= side_dropped(ls.take(0), c));
    while i < v.len()
        invariant
            i <= v@.len(),
            ls == sview(v@),
            sview(out@) == side_keep(ls.take(i as int), c),
            dropped@ == side_dropped(ls.take(i as int), c),
        decreases v@.len() - i,
    {
        proof {
            assert(ls.take(i as int + 1).drop_last() =~= ls.take(i as int));
            assert(ls.take(i as int + 1).last() == ls[i as int]);
            assert(ls[i as int] == lview(v@[i as int]));
        }
        let (kept, gone) = filter_queue_exec(&v[i].orders, c);
        let ghost d0 = dropped@;
        let mut gone = gone;
        dropped.append(&mut gone);
        assert(dropped@ =~= side_dropped(ls.take(i as int + 1), c));
        if kept.len() > 0 {
            let l = Level { price: v[i].price, orders: kept };
            let ghost o0 = out@;
            out.push(l);
            proof {
                lemma_sview_push(o0, l);
            }
        }
        i += 1;
    }
    assert(ls.take(v@.len() as int) =~= ls);
    *v = out;
    dropped
}

fn ids_exec(s: &Vec<Order>) -> (r: Vec<u128>)
    ensures
        r@ == ids_of(s@),
{
    let mut r: Vec<u128> = Vec::new();
    let mut i: usize = 0;
    while i < s.len()
        invariant
            i <= s@.len(),
            r@ == ids_of(s@.take(i as int)),
        decreases s@.len() - i,
    {
        r.push(s[i].id);
        i += 1;
        assert(r@ =~= ids_of(s@.take(i as int)));
    }
    assert(s@.take(s@.len() as int) =~= s@);
    r
}

impl<C: Clock> OrderBook<C> {
    /// Remove the orders `c` removes from both sides; returns them, bids
    /// first.
    fn cancel_where(&mut self, c: Criterion, on_bids: bool, on_asks: bool) -> (r: Vec<Order>)
        requires
            old(self).wf(),
        ensures
            final(self).wf(),
            final(self).same_config(old(self)),
            final(self).spec_last_trade_price() == old(self).spec_last_trade_price(),
            final(self).spec_last_clock_reading() == old(self).spec_last_clock_reading(),
            final(self).bids() == (if on_bids { side_keep(old(self).bids(), c) } else { old(self).bids() }),
            final(self).asks() == (if on_asks { side_keep(old(self).asks(), c) } else { old(self).asks() }),
            r@ == (if on_bids { side_dropped(old(self).bids(), c) } else { Seq::<Order>::empty() })
                + (if on_asks { side_dropped(old(self).asks(), c) } else { Seq::<Order>::empty() }),
            final(self).spec_tracker() == old(self).spec_tracker(),
    {
        proof {
            self.lemma_view_sides();
            old(self).lemma_view_sides();
            lemma_side_keep(self.bids(), c, Side::Buy);
            lemma_side_keep(self.asks(), c, Side::Sell);
        }
        let mut r = if on_bids { side_keep_exec(&mut self.bids, c) } else { Vec::new() };
        let mut a = if on_asks { side_keep_exec(&mut self.asks, c) } else { Vec::new() };
        let ghost r0 = r@;
        let ghost a0 = a@;
        r.append(&mut a);
        proof {
            self.lemma_view_sides();
            old(self).lemma_view_sides();
            assert(r@ == r0 + a0);
        }
        r
    }

    /// Cancel every resting order. Both sides end empty.
    pub fn cancel_all_orders(&mut self) -> (r: MassCancelResult)
        requires
            old(self).wf(),
        ensures
            final(self).wf(),
            final(self).same_config(old(self)),
            final(self).spec_last_trade_price() == old(self).spec_last_trade_price(),
            final(self).bids() == side_keep(old(self).bids(), Criterion::All),
            final(self).asks() == side_keep(old(self).asks(), Criterion::All),
            r.spec_ids() == ids_of(side_dropped(old(self).bids(), Criterion::All) + side_dropped(old(self).asks(), Criterion::All)),
            r.spec_count() == r.spec_ids().len(),
            cancels_tracked(old(self).spec_tracker(), final(self).spec_tracker(), r.spec_ids(), CancelReason::MassCancelAll),
    {
        let gone = self.cancel_where(Criterion::All, true, true);
        let ids = ids_exec(&gone);
        self.record_cancels(&ids, CancelReason::MassCancelAll);
        MassCancelResult::new(ids)
    }

    /// Cancel every resting order on `side`; the other side is untouched.
    pub fn cancel_orders_by_side(&mut self, side: Side) -> (r: MassCancelResult)
        requires
            old(self).wf(),
        ensures
            final(self).wf(),
            final(self).same_config(old(self)),
            final(self).spec_last_trade_price() == old(self).spec_last_trade_price(),
            final(self).side_levels(side) == side_keep(old(self).side_levels(side), Criterion::All),
            final(self).side_levels(crate::orderbook::types::spec_opposite(side)) == old(self).side_levels(crate::orderbook::types::spec_opposite(side)),
            r.spec_ids() == ids_of(side_dropped(old(self).side_levels(side), Criterion::All)),
            r.spec_count() == r.spec_ids().len(),
            cancels_tracked(old(self).spec_tracker(), final(self).spec_tracker(), r.spec_ids(), CancelReason::MassCancelBySide),
    {
        let gone = match side {
            Side::Buy => self.cancel_where(Criterion::All, true, false),
            Side::Sell => self.cancel_where(Criterion::All, false, true),
        };
        assert(gone@ =~= side_dropped(old(self).side_levels(side), Criterion::All));
        let ids = ids_exec(&gone);
        self.record_cancels(&ids, CancelReason::MassCancelBySide);
        MassCancelResult::new(ids)
    }

    /// Cancel every resting order of `user_id`, on both sides.
    pub fn cancel_orders_by_user(&mut self, user_id: u128) -> (r: MassCancelResult)
        requires
            old(self).wf(),
        ensures
            final(self).wf(),
            final(self).same_config(old(self)),
            final(self).spec_last_trade_price() == old(self).spec_last_trade_price(),
            final(self).bids() == side_keep(old(self).bids(), Criterion::User(user_id)),
            final(self).asks() == side_keep(old(self).asks(), Criterion::User(user_id)),
            r.spec_ids() == ids_of(side_dropped(old(self).bids(), Criterion::User(user_id)) + side_dropped(old(self).asks(), Criterion::User(user_id))),
            r.spec_count() == r.spec_ids().len(),
            cancels_tracked(old(self).spec_tracker(), final(self).spec_tracker(), r.spec_ids(), CancelReason::MassCancelByUser),
    {
        let gone = self.cancel_where(Criterion::User(user_id), true, true);
        let ids = ids_exec(&gone);
        self.record_cancels(&ids, CancelReason::MassCancelByUser);
        MassCancelResult::new(ids)
    }

    /// Cancel every resting order on `side` priced within
    /// `[min_price, max_price]`; nothing when the range is empty.
    pub fn cancel_orders_by_price_range(&mut self, side: Side, min_price: u128, max_price: u128) -> (r: MassCancelResult)
        requires
            old(self).wf(),
        ensures
            final(self).wf(),
            final(self).same_config(old(self)),
            final(self).spec_last_trade_price() == old(self).spec_last_trade_price(),
            min_price > max_price ==> final(self).bids() == old(self).bids() && final(self).asks() == old(self).asks()
                && r.spec_count() == 0 && r.spec_ids().len() == 0,
            min_price <= max_price ==> {
                &&& final(self).side_levels(side) == side_keep(old(self).side_levels(side), Criterion::PriceRange(min_price, max_price))
                &&& final(self).side_levels(crate::orderbook::types::spec_opposite(side)) == old(self).side_levels(crate::orderbook::types::spec_opposite(side))
                &&& r.spec_ids() == ids_of(side_dropped(old(self).side_levels(side), Criterion::PriceRange(min_price, max_price)))
                &&& r.spec_count() == r.spec_ids().len()
            },
            cancels_tracked(old(self).spec_tracker(), final(self).spec_tracker(), r.spec_ids(), CancelReason::MassCancelByPriceRange),
    {
        if min_price > max_price {
            proof {
                crate::orderbook::book::lemma_no_cancels(self.spec_tracker(), CancelReason::MassCancelByPriceRange);
            }
            let none = MassCancelResult::default();
            assert(none.spec_ids() =~= Seq::<u128>::empty());
            return none;
        }
        let c = Criterion::PriceRange(min_price, max_price);
        let gone = match side {
            Side::Buy => self.cancel_where(c, true, false),
            Side::Sell => self.cancel_where(c, false, true),
        };
        assert(gone@ =~= side_dropped(old(self).side_levels(side), c));
        let ids = ids_exec(&gone);
        self.record_cancels(&ids, CancelReason::MassCancelByPriceRange);
        MassCancelResult::new(ids)
    }

    /// Cancel every resting order whose time in force has expired at
    /// `now_ms` (GTD at its deadline, DAY at the market close when one is
    /// set); returns them bids first, then asks, each side in ascending
    /// price order and each level oldest first.
    pub fn evict_expired_orders(&mut self, now_ms: u64) -> (r: Vec<Order>)
        requires
            old(self).wf(),
        ensures
            final(self).wf(),
            final(self).same_config(old(self)),
            final(self).spec_last_trade_price() == old(self).spec_last_trade_price(),
            final(self).bids() == side_keep(old(self).bids(), Criterion::Expired(now_ms, old(self).spec_market_close())),
            final(self).asks() == side_keep(old(self).asks(), Criterion::Expired(now_ms, old(self).spec_market_close())),
            r@ == side_dropped(old(self).bids().reverse(), Criterion::Expired(now_ms, old(self).spec_market_close()))
                + side_dropped(old(self).asks(), Criterion::Expired(now_ms, old(self).spec_market_close())),
            cancels_tracked(old(self).spec_tracker(), final(self).spec_tracker(), crate::orderbook::mass_cancel::ids_of(r@), CancelReason::TimeInForceExpired),
    {
        let close = self.market_close_timestamp;
        proof {
            self.lemma_view_sides();
        }
        assert(close == self.spec_market_close());
        let c = Criterion::Expired(now_ms, close);
        let mut out = dropped_ascending(&self.bids, c);
        let _ = self.cancel_where(c, true, false);
        let gone = self.cancel_where(c, false, true);
        let ghost ga = gone@;
        let ghost start = out@;
        let mut i: usize = 0;
        while i < gone.len()
            invariant
                i <= gone@.len(),
                ga == gone@,
                out@ == start + ga.take(i as int),
            decreases gone@.len() - i,
        {
            out.push(gone[i]);
            assert(ga.take(i + 1) =~= ga.take(i as int).push(ga[i as int]));
            i += 1;
        }
        assert(ga.take(ga.len() as int) =~= ga);
        assert(ga =~= side_dropped(old(self).asks(), c));
        let ids = ids_exec(&out);
        self.record_cancels(&ids, CancelReason::TimeInForceExpired);
        out
    }
}

} // verus!
