//! Self-trade prevention: what a sweep must do at a level that holds resting
//! orders of the incoming order's own user.

use crate::orderbook::order::sat_add;
use crate::orderbook::types::{visible_of, Order, STPMode};
use vstd::prelude::*;

verus! {

/// The decision for one level.
#[derive(Debug, Clone, Copy, PartialEq, Eq)]
pub enum STPAction {
    /// No resting order of the same user at this level.
    NoConflict,
    /// Fill up to `safe_quantity` (the visible depth queued ahead of the
    /// first same-user order), then cancel the incoming order.
    CancelTaker { safe_quantity: u64 },
    /// Cancel every resting order of the same user, then match normally.
    CancelMaker,
    /// Fill up to `safe_quantity`, cancel the first same-user resting order
    /// `maker_order_id`, then cancel the incoming order.
    CancelBoth { safe_quantity: u64, maker_order_id: u128 },
}

/// The index of the first order of `q` at or after `i` owned by `user`, or
/// `q.len()` when there is none.
pub open spec fn first_of_user(q: Seq<Order>, user: u128, i: int) -> int
    decreases q.len() - i,
{
    if i >= q.len() {
        q.len() as int
    } else if q[i].user_id == user {
        i
    } else {
        first_of_user(q, user, i + 1)
    }
}

/// The visible quantity of the first `k` orders of `q`, saturating at
/// `u64::MAX`.
pub open spec fn visible_prefix(q: Seq<Order>, k: int) -> u64
    decreases k,
{
    if k <= 0 {
        0
    } else {
        sat_add(visible_prefix(q, k - 1), visible_of(q[k - 1]))
    }
}

/// The decision at a level whose orders are `q` (in time priority) for an
/// incoming order of `user` under `mode`.
pub open spec fn stp_action(q: Seq<Order>, user: u128, mode: STPMode) -> STPAction {
    let k = first_of_user(q, user, 0);
    if k >= q.len() {
        STPAction::NoConflict
    } else {
        match mode {
            STPMode::CancelMaker => STPAction::CancelMaker,
            STPMode::CancelBoth => STPAction::CancelBoth {
                safe_quantity: visible_prefix(q, k),
                maker_order_id: q[k].id,
            },
            _ => STPAction::CancelTaker { safe_quantity: visible_prefix(q, k) },
        }
    }
}

pub proof fn lemma_first_of_user_bounds(q: Seq<Order>, user: u128, i: int)
    requires
        0 <= i <= q.len(),
    ensures
        i <= first_of_user(q, user, i) <= q.len(),
        first_of_user(q, user, i) < q.len() ==> q[first_of_user(q, user, i)].user_id == user,
        forall|j: int| i <= j < first_of_user(q, user, i) ==> (#[trigger] q[j]).user_id != user,
    decreases q.len() - i,
{
    if i < q.len() && q[i].user_id != user {
        lemma_first_of_user_bounds(q, user, i + 1);
    }
}

/// The self-trade-prevention decision at a level (orders in time priority).
pub fn check_stp_at_level(orders: &Vec<Order>, user: u128, mode: STPMode) -> (r: STPAction)
    ensures
        r == stp_action(orders@, user, mode),
{
    let mut k: usize = 0;
    let mut safe: u64 = 0;
    while k < orders.len() && orders[k].user_id != user
        invariant
            k <= orders@.len(),
            first_of_user(orders@, user, k as int) == first_of_user(orders@, user, 0),
            safe == visible_prefix(orders@, k as int),
        decreases orders@.len() - k,
    {
        safe = safe.saturating_add(orders[k].visible_quantity());
        k += 1;
    }
    if k >= orders.len() {
        STPAction::NoConflict
    } else {
        match mode {
            STPMode::CancelMaker => STPAction::CancelMaker,
            STPMode::CancelBoth => STPAction::CancelBoth {
                safe_quantity: safe,
                maker_order_id: orders[k].id,
            },
            _ => STPAction::CancelTaker { safe_quantity: safe },
        }
    }
}

} // verus!
