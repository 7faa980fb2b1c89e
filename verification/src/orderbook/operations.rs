//! Convenience entry points: limit, iceberg and post-only orders built from
//! their fields, and market / limit matches by quantity or by notional.

use crate::orderbook::book::{add_holds, add_tracked, match_holds, match_tracked, BookView, MatchResult, OrderBook};
use crate::orderbook::clock::Clock;
use crate::orderbook::error::OrderBookError;
use crate::orderbook::matching::MatchMode;
use crate::orderbook::types::{Order, OrderKind, Side, TimeInForce};
use vstd::prelude::*;

verus! {

/// The order a convenience entry point builds, stamped `now`.
pub open spec fn built(id: u128, price: u128, side: Side, user_id: u128, tif: TimeInForce, kind: OrderKind, now: u64) -> Order {
    Order { id, price, side, user_id, timestamp: now, time_in_force: tif, kind }
}

/// The order alone out of an admission result.
pub open spec fn order_part(full: Result<(Order, Option<MatchResult>), OrderBookError>) -> Result<Order, OrderBookError> {
    match full {
        Ok((o, _)) => Ok(o),
        Err(e) => Err(e),
    }
}

impl<C: Clock> OrderBook<C> {
    /// Build an order stamped with the clock and admit it.
    fn add_new(&mut self, id: u128, price: u128, side: Side, user_id: u128, tif: TimeInForce, kind: OrderKind) -> (r: Result<(Order, Option<MatchResult>), OrderBookError>)
        requires
            old(self).wf(),
            !(kind is Reserve),
        ensures
            final(self).wf(),
            final(self).same_config(old(self)),
            add_holds(old(self).view(), final(self).view(), built(id, price, side, user_id, tif, kind, final(self).spec_last_clock_reading()), r, final(self).spec_last_clock_reading()),
            add_tracked(old(self).spec_tracker(), final(self).spec_tracker(), old(self).view(), built(id, price, side, user_id, tif, kind, final(self).spec_last_clock_reading()), final(self).spec_last_clock_reading()),
    {
        let now = self.read_clock();
        let order = Order { id, price, side, user_id, timestamp: now, time_in_force: tif, kind };
        self.add_at(order, now)
    }

    /// Admit a standard limit order from anonymous user `0`.
    pub fn add_limit_order(&mut self, id: u128, price: u128, quantity: u64, side: Side, time_in_force: TimeInForce) -> (r: Result<Order, OrderBookError>)
        requires
            old(self).wf(),
        ensures
            final(self).wf(),
            final(self).same_config(old(self)),
            exists|full: Result<(Order, Option<MatchResult>), OrderBookError>|
                add_holds(old(self).view(), final(self).view(), built(id, price, side, 0, time_in_force, OrderKind::Standard { quantity }, final(self).spec_last_clock_reading()), full, final(self).spec_last_clock_reading())
                && r == order_part(full),
            add_tracked(old(self).spec_tracker(), final(self).spec_tracker(), old(self).view(), built(id, price, side, 0, time_in_force, OrderKind::Standard { quantity }, final(self).spec_last_clock_reading()), final(self).spec_last_clock_reading()),
    {
        self.add_limit_order_with_user(id, price, quantity, side, time_in_force, 0)
    }

    /// Admit a standard limit order owned by `user_id`.
    pub fn add_limit_order_with_user(&mut self, id: u128, price: u128, quantity: u64, side: Side, time_in_force: TimeInForce, user_id: u128) -> (r: Result<Order, OrderBookError>)
        requires
            old(self).wf(),
        ensures
            final(self).wf(),
            final(self).same_config(old(self)),
            exists|full: Result<(Order, Option<MatchResult>), OrderBookError>|
                add_holds(old(self).view(), final(self).view(), built(id, price, side, user_id, time_in_force, OrderKind::Standard { quantity }, final(self).spec_last_clock_reading()), full, final(self).spec_last_clock_reading())
                && r == order_part(full),
            add_tracked(old(self).spec_tracker(), final(self).spec_tracker(), old(self).view(), built(id, price, side, user_id, time_in_force, OrderKind::Standard { quantity }, final(self).spec_last_clock_reading()), final(self).spec_last_clock_reading()),
    {
        let full = self.add_new(id, price, side, user_id, time_in_force, OrderKind::Standard { quantity });
        let ghost g = full;
        let r = match full {
            Ok((o, _)) => Ok(o),
            Err(e) => Err(e),
        };
        assert(add_holds(old(self).view(), self.view(), built(id, price, side, user_id, time_in_force, OrderKind::Standard { quantity }, self.spec_last_clock_reading()), g, self.spec_last_clock_reading()));
        assert(r == order_part(g));
        r
    }

    /// Admit a standard limit order from anonymous user `0` and return its
    /// executions.
    pub fn add_limit_order_with_result(&mut self, id: u128, price: u128, quantity: u64, side: Side, time_in_force: TimeInForce) -> (r: Result<(Order, Option<MatchResult>), OrderBookError>)
        requires
            old(self).wf(),
        ensures
            final(self).wf(),
            final(self).same_config(old(self)),
            add_holds(old(self).view(), final(self).view(), built(id, price, side, 0, time_in_force, OrderKind::Standard { quantity }, final(self).spec_last_clock_reading()), r, final(self).spec_last_clock_reading()),
            add_tracked(old(self).spec_tracker(), final(self).spec_tracker(), old(self).view(), built(id, price, side, 0, time_in_force, OrderKind::Standard { quantity }, final(self).spec_last_clock_reading()), final(self).spec_last_clock_reading()),
    {
        self.add_new(id, price, side, 0, time_in_force, OrderKind::Standard { quantity })
    }

    /// Admit a standard limit order owned by `user_id` and return its
    /// executions.
    pub fn add_limit_order_with_user_and_result(&mut self, id: u128, price: u128, quantity: u64, side: Side, time_in_force: TimeInForce, user_id: u128) -> (r: Result<(Order, Option<MatchResult>), OrderBookError>)
        requires
            old(self).wf(),
        ensures
            final(self).wf(),
            final(self).same_config(old(self)),
            add_holds(old(self).view(), final(self).view(), built(id, price, side, user_id, time_in_force, OrderKind::Standard { quantity }, final(self).spec_last_clock_reading()), r, final(self).spec_last_clock_reading()),
            add_tracked(old(self).spec_tracker(), final(self).spec_tracker(), old(self).view(), built(id, price, side, user_id, time_in_force, OrderKind::Standard { quantity }, final(self).spec_last_clock_reading()), final(self).spec_last_clock_reading()),
    {
        self.add_new(id, price, side, user_id, time_in_force, OrderKind::Standard { quantity })
    }

    /// Admit an iceberg order from anonymous user `0`.
    pub fn add_iceberg_order(&mut self, id: u128, price: u128, visible_quantity: u64, hidden_quantity: u64, side: Side, time_in_force: TimeInForce) -> (r: Result<Order, OrderBookError>)
        requires
            old(self).wf(),
        ensures
            final(self).wf(),
            final(self).same_config(old(self)),
            exists|full: Result<(Order, Option<MatchResult>), OrderBookError>|
                add_holds(old(self).view(), final(self).view(), built(id, price, side, 0, time_in_force, OrderKind::Iceberg { visible: visible_quantity, hidden: hidden_quantity }, final(self).spec_last_clock_reading()), full, final(self).spec_last_clock_reading())
                && r == order_part(full),
            add_tracked(old(self).spec_tracker(), final(self).spec_tracker(), old(self).view(), built(id, price, side, 0, time_in_force, OrderKind::Iceberg { visible: visible_quantity, hidden: hidden_quantity }, final(self).spec_last_clock_reading()), final(self).spec_last_clock_reading()),
    {
        self.add_iceberg_order_with_user(id, price, visible_quantity, hidden_quantity, side, time_in_force, 0)
    }

    /// Admit an iceberg order owned by `user_id`.
    pub fn add_iceberg_order_with_user(&mut self, id: u128, price: u128, visible_quantity: u64, hidden_quantity: u64, side: Side, time_in_force: TimeInForce, user_id: u128) -> (r: Result<Order, OrderBookError>)
        requires
            old(self).wf(),
        ensures
            final(self).wf(),
            final(self).same_config(old(self)),
            exists|full: Result<(Order, Option<MatchResult>), OrderBookError>|
                add_holds(old(self).view(), final(self).view(), built(id, price, side, user_id, time_in_force, OrderKind::Iceberg { visible: visible_quantity, hidden: hidden_quantity }, final(self).spec_last_clock_reading()), full, final(self).spec_last_clock_reading())
                && r == order_part(full),
            add_tracked(old(self).spec_tracker(), final(self).spec_tracker(), old(self).view(), built(id, price, side, user_id, time_in_force, OrderKind::Iceberg { visible: visible_quantity, hidden: hidden_quantity }, final(self).spec_last_clock_reading()), final(self).spec_last_clock_reading()),
    {
        let kind = OrderKind::Iceberg { visible: visible_quantity, hidden: hidden_quantity };
        let full = self.add_new(id, price, side, user_id, time_in_force, kind);
        let ghost g = full;
        let r = match full {
            Ok((o, _)) => Ok(o),
            Err(e) => Err(e),
        };
        assert(add_holds(old(self).view(), self.view(), built(id, price, side, user_id, time_in_force, kind, self.spec_last_clock_reading()), g, self.spec_last_clock_reading()));
        assert(r == order_part(g));
        r
    }

    /// Admit a post-only order from anonymous user `0`.
    pub fn add_post_only_order(&mut self, id: u128, price: u128, quantity: u64, side: Side, time_in_force: TimeInForce) -> (r: Result<Order, OrderBookError>)
        requires
            old(self).wf(),
        ensures
            final(self).wf(),
            final(self).same_config(old(self)),
            exists|full: Result<(Order, Option<MatchResult>), OrderBookError>|
                add_holds(old(self).view(), final(self).view(), built(id, price, side, 0, time_in_force, OrderKind::PostOnly { quantity }, final(self).spec_last_clock_reading()), full, final(self).spec_last_clock_reading())
                && r == order_part(full),
            add_tracked(old(self).spec_tracker(), final(self).spec_tracker(), old(self).view(), built(id, price, side, 0, time_in_force, OrderKind::PostOnly { quantity }, final(self).spec_last_clock_reading()), final(self).spec_last_clock_reading()),
    {
        self.add_post_only_order_with_user(id, price, quantity, side, time_in_force, 0)
    }

    /// Admit a post-only order owned by `user_id`.
    pub fn add_post_only_order_with_user(&mut self, id: u128, price: u128, quantity: u64, side: Side, time_in_force: TimeInForce, user_id: u128) -> (r: Result<Order, OrderBookError>)
        requires
            old(self).wf(),
        ensures
            final(self).wf(),
            final(self).same_config(old(self)),
            exists|full: Result<(Order, Option<MatchResult>), OrderBookError>|
                add_holds(old(self).view(), final(self).view(), built(id, price, side, user_id, time_in_force, OrderKind::PostOnly { quantity }, final(self).spec_last_clock_reading()), full, final(self).spec_last_clock_reading())
                && r == order_part(full),
            add_tracked(old(self).spec_tracker(), final(self).spec_tracker(), old(self).view(), built(id, price, side, user_id, time_in_force, OrderKind::PostOnly { quantity }, final(self).spec_last_clock_reading()), final(self).spec_last_clock_reading()),
    {
        let kind = OrderKind::PostOnly { quantity };
        let full = self.add_new(id, price, side, user_id, time_in_force, kind);
        let ghost g = full;
        let r = match full {
            Ok((o, _)) => Ok(o),
            Err(e) => Err(e),
        };
        assert(add_holds(old(self).view(), self.view(), built(id, price, side, user_id, time_in_force, kind, self.spec_last_clock_reading()), g, self.spec_last_clock_reading()));
        assert(r == order_part(g));
        r
    }

    /// Match a market order of `quantity` from anonymous user `0`.
    pub fn match_market_order(&mut self, order_id: u128, quantity: u64, side: Side) -> (r: Result<MatchResult, OrderBookError>)
        requires
            old(self).wf(),
        ensures
            final(self).wf(),
            final(self).same_config(old(self)),
            match_holds(old(self).view(), final(self).view(), side, MatchMode::BaseQty { quantity, limit_price: None }, order_id, 0, r),
            match_tracked(old(self).spec_tracker(), final(self).spec_tracker(), old(self).view(), side, MatchMode::BaseQty { quantity, limit_price: None }, order_id, 0),
    {
        self.match_order_inner(order_id, side, MatchMode::BaseQty { quantity, limit_price: None }, 0)
    }

    /// Match a market order of `quantity` owned by `user_id`.
    pub fn match_market_order_with_user(&mut self, order_id: u128, quantity: u64, side: Side, user_id: u128) -> (r: Result<MatchResult, OrderBookError>)
        requires
            old(self).wf(),
        ensures
            final(self).wf(),
            final(self).same_config(old(self)),
            match_holds(old(self).view(), final(self).view(), side, MatchMode::BaseQty { quantity, limit_price: None }, order_id, user_id, r),
            match_tracked(old(self).spec_tracker(), final(self).spec_tracker(), old(self).view(), side, MatchMode::BaseQty { quantity, limit_price: None }, order_id, user_id),
    {
        self.match_order_inner(order_id, side, MatchMode::BaseQty { quantity, limit_price: None }, user_id)
    }

    /// Match a limit order of `quantity` at `limit_price` from anonymous user
    /// `0`; nothing rests.
    pub fn match_limit_order(&mut self, order_id: u128, quantity: u64, side: Side, limit_price: u128) -> (r: Result<MatchResult, OrderBookError>)
        requires
            old(self).wf(),
        ensures
            final(self).wf(),
            final(self).same_config(old(self)),
            match_holds(old(self).view(), final(self).view(), side, MatchMode::BaseQty { quantity, limit_price: Some(limit_price) }, order_id, 0, r),
            match_tracked(old(self).spec_tracker(), final(self).spec_tracker(), old(self).view(), side, MatchMode::BaseQty { quantity, limit_price: Some(limit_price) }, order_id, 0),
    {
        self.match_order_inner(order_id, side, MatchMode::BaseQty { quantity, limit_price: Some(limit_price) }, 0)
    }

    /// Match a limit order of `quantity` at `limit_price` owned by
    /// `user_id`; nothing rests.
    pub fn match_limit_order_with_user(&mut self, order_id: u128, quantity: u64, side: Side, limit_price: u128, user_id: u128) -> (r: Result<MatchResult, OrderBookError>)
        requires
            old(self).wf(),
        ensures
            final(self).wf(),
            final(self).same_config(old(self)),
            match_holds(old(self).view(), final(self).view(), side, MatchMode::BaseQty { quantity, limit_price: Some(limit_price) }, order_id, user_id, r),
            match_tracked(old(self).spec_tracker(), final(self).spec_tracker(), old(self).view(), side, MatchMode::BaseQty { quantity, limit_price: Some(limit_price) }, order_id, user_id),
    {
        self.match_order_inner(order_id, side, MatchMode::BaseQty { quantity, limit_price: Some(limit_price) }, user_id)
    }

    /// Match `quantity` on `side` within an optional limit, from anonymous
    /// user `0`.
    pub fn match_order(&mut self, order_id: u128, side: Side, quantity: u64, limit_price: Option<u128>) -> (r: Result<MatchResult, OrderBookError>)
        requires
            old(self).wf(),
        ensures
            final(self).wf(),
            final(self).same_config(old(self)),
            match_holds(old(self).view(), final(self).view(), side, MatchMode::BaseQty { quantity, limit_price }, order_id, 0, r),
            match_tracked(old(self).spec_tracker(), final(self).spec_tracker(), old(self).view(), side, MatchMode::BaseQty { quantity, limit_price }, order_id, 0),
    {
        self.match_order_inner(order_id, side, MatchMode::BaseQty { quantity, limit_price }, 0)
    }

    /// Match `quantity` on `side` within an optional limit, owned by
    /// `user_id`.
    pub fn match_order_with_user(&mut self, order_id: u128, side: Side, quantity: u64, limit_price: Option<u128>, user_id: u128) -> (r: Result<MatchResult, OrderBookError>)
        requires
            old(self).wf(),
        ensures
            final(self).wf(),
            final(self).same_config(old(self)),
            match_holds(old(self).view(), final(self).view(), side, MatchMode::BaseQty { quantity, limit_price }, order_id, user_id, r),
            match_tracked(old(self).spec_tracker(), final(self).spec_tracker(), old(self).view(), side, MatchMode::BaseQty { quantity, limit_price }, order_id, user_id),
    {
        self.match_order_inner(order_id, side, MatchMode::BaseQty { quantity, limit_price }, user_id)
    }

    /// Submit a market order of `quantity` from anonymous user `0`.
    pub fn submit_market_order(&mut self, id: u128, quantity: u64, side: Side) -> (r: Result<MatchResult, OrderBookError>)
        requires
            old(self).wf(),
        ensures
            final(self).wf(),
            final(self).same_config(old(self)),
            old(self).spec_kill_switch() ==> r == Err::<MatchResult, OrderBookError>(OrderBookError::KillSwitchActive)
                && final(self).view() == old(self).view() && final(self).spec_tracker() == old(self).spec_tracker(),
            !old(self).spec_kill_switch() ==> match_holds(old(self).view(), final(self).view(), side, MatchMode::BaseQty { quantity, limit_price: None }, id, 0, r),
            !old(self).spec_kill_switch() ==> match_tracked(old(self).spec_tracker(), final(self).spec_tracker(), old(self).view(), side, MatchMode::BaseQty { quantity, limit_price: None }, id, 0),
    {
        proof {
            self.lemma_view_sides();
        }
        if self.kill_switch {
            return Err(OrderBookError::KillSwitchActive);
        }
        self.match_market_order(id, quantity, side)
    }

    /// Submit a market order of `quantity` owned by `user_id`.
    pub fn submit_market_order_with_user(&mut self, id: u128, quantity: u64, side: Side, user_id: u128) -> (r: Result<MatchResult, OrderBookError>)
        requires
            old(self).wf(),
        ensures
            final(self).wf(),
            final(self).same_config(old(self)),
            old(self).spec_kill_switch() ==> r == Err::<MatchResult, OrderBookError>(OrderBookError::KillSwitchActive)
                && final(self).view() == old(self).view() && final(self).spec_tracker() == old(self).spec_tracker(),
            !old(self).spec_kill_switch() ==> match_holds(old(self).view(), final(self).view(), side, MatchMode::BaseQty { quantity, limit_price: None }, id, user_id, r),
            !old(self).spec_kill_switch() ==> match_tracked(old(self).spec_tracker(), final(self).spec_tracker(), old(self).view(), side, MatchMode::BaseQty { quantity, limit_price: None }, id, user_id),
    {
        proof {
            self.lemma_view_sides();
        }
        if self.kill_switch {
            return Err(OrderBookError::KillSwitchActive);
        }
        self.match_market_order_with_user(id, quantity, side, user_id)
    }

    /// Submit a market order spending up to `amount` of quote notional,
    /// from anonymous user `0`.
    pub fn submit_market_order_by_amount(&mut self, id: u128, amount: u128, side: Side) -> (r: Result<MatchResult, OrderBookError>)
        requires
            old(self).wf(),
        ensures
            final(self).wf(),
            final(self).same_config(old(self)),
            old(self).spec_kill_switch() ==> r == Err::<MatchResult, OrderBookError>(OrderBookError::KillSwitchActive)
                && final(self).view() == old(self).view() && final(self).spec_tracker() == old(self).spec_tracker(),
            !old(self).spec_kill_switch() ==> match_holds(old(self).view(), final(self).view(), side, MatchMode::QuoteAmount { amount }, id, 0, r),
            !old(self).spec_kill_switch() ==> match_tracked(old(self).spec_tracker(), final(self).spec_tracker(), old(self).view(), side, MatchMode::QuoteAmount { amount }, id, 0),
    {
        proof {
            self.lemma_view_sides();
        }
        if self.kill_switch {
            return Err(OrderBookError::KillSwitchActive);
        }
        self.match_order_inner(id, side, MatchMode::QuoteAmount { amount }, 0)
    }

    /// Submit a market order spending up to `amount` of quote notional,
    /// owned by `user_id`.
    pub fn submit_market_order_by_amount_with_user(&mut self, id: u128, amount: u128, side: Side, user_id: u128) -> (r: Result<MatchResult, OrderBookError>)
        requires
            old(self).wf(),
        ensures
            final(self).wf(),
            final(self).same_config(old(self)),
            old(self).spec_kill_switch() ==> r == Err::<MatchResult, OrderBookError>(OrderBookError::KillSwitchActive)
                && final(self).view() == old(self).view() && final(self).spec_tracker() == old(self).spec_tracker(),
            !old(self).spec_kill_switch() ==> match_holds(old(self).view(), final(self).view(), side, MatchMode::QuoteAmount { amount }, id, user_id, r),
            !old(self).spec_kill_switch() ==> match_tracked(old(self).spec_tracker(), final(self).spec_tracker(), old(self).view(), side, MatchMode::QuoteAmount { amount }, id, user_id),
    {
        proof {
            self.lemma_view_sides();
        }
        if self.kill_switch {
            return Err(OrderBookError::KillSwitchActive);
        }
        self.match_order_inner(id, side, MatchMode::QuoteAmount { amount }, user_id)
    }
}

/// The book views of a batch of matches: `vs[i + 1]` follows `vs[i]` by
/// matching request `i`, which answered `rs[i]`.
pub open spec fn batch_holds(vs: Seq<BookView>, orders: Seq<(u128, Side, u64, Option<u128>)>, rs: Seq<Result<MatchResult, OrderBookError>>) -> bool {
    &&& vs.len() == orders.len() + 1
    &&& rs.len() == orders.len()
    &&& forall|i: int| 0 <= i < orders.len() ==> match_holds(
        #[trigger] vs[i],
        vs[i + 1],
        orders[i].1,
        MatchMode::BaseQty { quantity: orders[i].2, limit_price: orders[i].3 },
        orders[i].0,
        0,
        rs[i],
    )
}

impl<C: Clock> OrderBook<C> {
    /// Match each `(order_id, side, quantity, limit_price)` in turn, as
    /// [`OrderBook::match_order`] does, collecting each result.
    pub fn match_orders_batch(&mut self, orders: &Vec<(u128, Side, u64, Option<u128>)>) -> (r: Vec<Result<MatchResult, OrderBookError>>)
        requires
            old(self).wf(),
        ensures
            final(self).wf(),
            final(self).same_config(old(self)),
            exists|vs: Seq<BookView>| {
                &&& batch_holds(vs, orders@, r@)
                &&& vs[0] == old(self).view()
                &&& vs[orders@.len() as int] == final(self).view()
            },
    {
        let mut results: Vec<Result<MatchResult, OrderBookError>> = Vec::new();
        let ghost mut vs: Seq<BookView> = seq![self.view()];
        let mut i: usize = 0;
        while i < orders.len()
            invariant
                i <= orders@.len(),
                self.wf(),
                self.same_config(old(self)),
                vs.len() == i + 1,
                results@.len() == i,
                vs[0] == old(self).view(),
                vs[i as int] == self.view(),
                forall|j: int| 0 <= j < i ==> match_holds(
                    #[trigger] vs[j],
                    vs[j + 1],
                    orders@[j].1,
                    MatchMode::BaseQty { quantity: orders@[j].2, limit_price: orders@[j].3 },
                    orders@[j].0,
                    0,
                    results@[j],
                ),
            decreases orders@.len() - i,
        {
            let (id, side, quantity, limit_price) = orders[i];
            let res = self.match_order(id, side, quantity, limit_price);
            proof {
                vs = vs.push(self.view());
            }
            results.push(res);
            i += 1;
        }
        proof {
            assert(batch_holds(vs, orders@, results@));
        }
        results
    }
}

} // verus!
