//! Laws on time priority within a level, resizing, depth targets, level-size
//! statistics and crossable-quantity estimates, each stated directly over
//! the inputs and the result.

use crate::orderbook::analytics::{depth_prefix, first_reaching, peek_from};
use crate::orderbook::book::{better, locate, resize_in_side, side_wf};
use crate::orderbook::level::{queue_depth, step_ok, sweep, Fill};
use crate::orderbook::order::{min_u64, sat_add};
use crate::orderbook::statistics::{totals_from, totals_start, TotalsAcc};
use crate::orderbook::types::{hidden_of, spec_opposite, total_of, visible_of, Order, Side};
use crate::orderbook::walk::LevelView;
use vstd::prelude::*;

verus! {

/// Law: time priority within a level. When the incoming quantity `r` only
/// partly fills the front order of a queue (one that is no reserve, so
/// nothing refreshes), that order stays at the front with `r` less showing,
/// every other order keeps its place behind it, and one fill of `r` is
/// reported against it.
pub proof fn law_partial_fill_keeps_front(q: Seq<Order>, r: u64, f: Seq<Fill>)
    requires
        q.len() > 0,
        step_ok(q[0]),
        !(q[0].kind is Reserve),
        0 < r < visible_of(q[0]),
    ensures
        ({
            let (q2, f2, left) = sweep(q, r, f);
            &&& left == 0
            &&& q2.len() == q.len()
            &&& q2[0].id == q[0].id
            &&& q2[0].price == q[0].price
            &&& visible_of(q2[0]) == visible_of(q[0]) - r
            &&& hidden_of(q2[0]) == hidden_of(q[0])
            &&& q2.drop_first() == q.drop_first()
            &&& f2 == f.push(Fill { maker_order_id: q[0].id, quantity: r, maker_filled: false })
        }),
{
    let s = crate::orderbook::order::spec_match_against(q[0], r);
    crate::orderbook::level::lemma_step_decreases(q, r);
    let rest = q.drop_first();
    match s.updated {
        Some(u) => {
            assert(s.hidden_reduced == 0);
            let q2 = seq![u] + rest;
            assert(q2.drop_first() =~= rest);
            assert(sweep(q2, 0, f + seq![Fill { maker_order_id: q[0].id, quantity: r, maker_filled: false }])
                == (q2, f + seq![Fill { maker_order_id: q[0].id, quantity: r, maker_filled: false }], 0u64));
            assert(f + seq![Fill { maker_order_id: q[0].id, quantity: r, maker_filled: false }] =~= f.push(
                Fill { maker_order_id: q[0].id, quantity: r, maker_filled: false },
            ));
        },
        None => {
            assert(false);
        },
    }
}

/// Law: resizing keeps time priority unless the order grows. The order `id`
/// found at level `a`, position `b` becomes `p`: when `p`'s total is larger
/// it leaves its place and goes last in its level, the others keeping their
/// order; otherwise it stays at position `b` and the level's queue is
/// otherwise untouched. No other level changes.
pub proof fn law_resize_priority(ls: Seq<LevelView>, id: u128, p: Order, a: int, b: int)
    requires
        locate(ls, id, 0) == Some((a, b)),
    ensures
        0 <= a < ls.len(),
        0 <= b < ls[a].orders.len(),
        ls[a].orders[b].id == id,
        ({
            let r = resize_in_side(ls, id, p);
            let old_q = ls[a].orders;
            &&& r.len() == ls.len()
            &&& forall|k: int| 0 <= k < ls.len() && k != a ==> r[k] == ls[k]
            &&& r[a].price == ls[a].price
            &&& r[a].orders.len() == old_q.len()
            &&& (total_of(p) > total_of(old_q[b]) ==> {
                &&& r[a].orders.last() == p
                &&& r[a].orders.drop_last() == old_q.remove(b)
            })
            &&& (total_of(p) <= total_of(old_q[b]) ==> {
                &&& r[a].orders[b] == p
                &&& forall|j: int| 0 <= j < old_q.len() && j != b ==> r[a].orders[j] == old_q[j]
            })
        }),
{
    crate::orderbook::book::lemma_locate(ls, id, 0);
    let old_q = ls[a].orders;
    if total_of(p) > total_of(old_q[b]) {
        assert(old_q.remove(b).push(p).drop_last() =~= old_q.remove(b));
    }
}

/// Law: the level a depth target stops at is the first, in price priority,
/// whose cumulative depth reaches the target: every earlier level's
/// cumulative depth is below it and its own is at least it; when no level
/// is returned, no cumulative depth reaches the target.
pub proof fn law_depth_target_first_reaching(ls: Seq<LevelView>, target: u64)
    ensures
        0 <= first_reaching(ls, target, 0) <= ls.len(),
        forall|j: int| 0 <= j < first_reaching(ls, target, 0) ==> #[trigger] depth_prefix(ls, j + 1) < target,
        first_reaching(ls, target, 0) < ls.len() ==> depth_prefix(ls, first_reaching(ls, target, 0) + 1) >= target,
{
    lemma_first_reaching(ls, target, 0);
}

proof fn lemma_first_reaching(ls: Seq<LevelView>, target: u64, i: int)
    requires
        0 <= i <= ls.len(),
    ensures
        i <= first_reaching(ls, target, i) <= ls.len(),
        forall|j: int| i <= j < first_reaching(ls, target, i) ==> #[trigger] depth_prefix(ls, j + 1) < target,
        first_reaching(ls, target, i) < ls.len() ==> depth_prefix(ls, first_reaching(ls, target, i) + 1) >= target,
    decreases ls.len() - i,
{
    if i < ls.len() && depth_prefix(ls, i + 1) < target {
        lemma_first_reaching(ls, target, i + 1);
    }
}

/// The facts every scan state keeps: the count is the number of sizes
/// recorded, and once any is recorded the minimum and maximum are the
/// smallest and largest of them, each one of the recorded sizes.
pub open spec fn extremes_hold(a: TotalsAcc) -> bool {
    &&& a.count == a.sizes.len()
    &&& a.count == 0 ==> a.min == u64::MAX && a.max == 0
    &&& a.count > 0 ==> {
        &&& forall|k: int| 0 <= k < a.sizes.len() ==> a.min <= #[trigger] a.sizes[k] <= a.max
        &&& exists|k: int| 0 <= k < a.sizes.len() && #[trigger] a.sizes[k] == a.min
        &&& exists|k: int| 0 <= k < a.sizes.len() && #[trigger] a.sizes[k] == a.max
    }
}

proof fn lemma_totals_extremes(ls: Seq<LevelView>, i: int, limit: nat, a: TotalsAcc)
    requires
        extremes_hold(a),
    ensures
        extremes_hold(totals_from(ls, i, limit, a)),
    decreases ls.len() - i,
{
    if i < 0 || i >= ls.len() {
    } else if limit > 0 && a.count >= limit {
    } else {
        let q = queue_depth(ls[i].orders);
        if q == 0 {
            lemma_totals_extremes(ls, i + 1, limit, a);
        } else {
            let b = TotalsAcc {
                volume: sat_add(a.volume, q),
                wsum: crate::orderbook::analytics::sat_add128(a.wsum, crate::orderbook::analytics::sat_mul(ls[i].price, q as u128)),
                sizes: a.sizes.push(q),
                min: if q < a.min { q } else { a.min },
                max: if q > a.max { q } else { a.max },
                count: a.count + 1,
            };
            let n = a.sizes.len() as int;
            assert(b.sizes[n] == q);
            assert forall|k: int| 0 <= k < b.sizes.len() implies b.min <= #[trigger] b.sizes[k] <= b.max by {
                if k < n {
                    assert(b.sizes[k] == a.sizes[k]);
                }
            }
            if a.count == 0 {
                assert(b.sizes[0] == b.min);
                assert(b.sizes[0] == b.max);
            } else {
                if q < a.min {
                    assert(b.sizes[n] == b.min);
                } else {
                    let k = choose|k: int| 0 <= k < a.sizes.len() && #[trigger] a.sizes[k] == a.min;
                    assert(b.sizes[k] == b.min);
                }
                if q > a.max {
                    assert(b.sizes[n] == b.max);
                } else {
                    let k = choose|k: int| 0 <= k < a.sizes.len() && #[trigger] a.sizes[k] == a.max;
                    assert(b.sizes[k] == b.max);
                }
            }
            lemma_totals_extremes(ls, i + 1, limit, b);
        }
    }
}

/// Law: the level-size statistics of a side are the extremes of the sizes
/// they count: when any level is counted, the minimum is at most and the
/// maximum at least every counted size, and each equals one of them.
pub proof fn law_level_size_extremes(ls: Seq<LevelView>, limit: nat)
    ensures
        ({
            let a = totals_from(ls, 0, limit, totals_start());
            &&& a.count == a.sizes.len()
            &&& a.count > 0 ==> {
                &&& forall|k: int| 0 <= k < a.sizes.len() ==> a.min <= #[trigger] a.sizes[k] <= a.max
                &&& exists|k: int| 0 <= k < a.sizes.len() && #[trigger] a.sizes[k] == a.min
                &&& exists|k: int| 0 <= k < a.sizes.len() && #[trigger] a.sizes[k] == a.max
            }
        }),
{
    assert(totals_start().sizes.len() == 0);
    lemma_totals_extremes(ls, 0, limit, totals_start());
}

/// Whether a level priced `price` may be taken by a taker of `side` limited
/// at `limit`: a buyer takes asks priced at most its limit, a seller bids
/// priced at least its limit.
pub open spec fn takeable(side: Side, limit: Option<u128>, price: u128) -> bool {
    match limit {
        None => true,
        Some(l) => match side {
            Side::Buy => price <= l,
            Side::Sell => price >= l,
        },
    }
}

/// The exact depth of the takeable levels among the first `k`.
pub open spec fn takeable_depth(ls: Seq<LevelView>, side: Side, limit: Option<u128>, k: int) -> int
    decreases k,
{
    if k <= 0 {
        0
    } else {
        takeable_depth(ls, side, limit, k - 1) + (if takeable(side, limit, ls[k - 1].price) {
            queue_depth(ls[k - 1].orders) as int
        } else {
            0
        })
    }
}

proof fn lemma_takeable_depth_mono(ls: Seq<LevelView>, side: Side, limit: Option<u128>, i: int, k: int)
    requires
        0 <= i <= k,
    ensures
        takeable_depth(ls, side, limit, i) <= takeable_depth(ls, side, limit, k),
    decreases k - i,
{
    if i < k {
        lemma_takeable_depth_mono(ls, side, limit, i, k - 1);
    }
}

/// Past the first level a taker cannot take, it can take none.
proof fn lemma_untakeable_tail(ls: Seq<LevelView>, side: Side, limit: Option<u128>, i: int, k: int)
    requires
        side_wf(ls, spec_opposite(side)),
        0 <= i < ls.len(),
        i <= k <= ls.len(),
        !takeable(side, limit, ls[i].price),
    ensures
        takeable_depth(ls, side, limit, k) == takeable_depth(ls, side, limit, i),
    decreases k - i,
{
    if k > i {
        lemma_untakeable_tail(ls, side, limit, i, k - 1);
        if k - 1 > i {
            assert(better(spec_opposite(side), ls[i].price, ls[k - 1].price));
        }
    }
}

proof fn lemma_peek(ls: Seq<LevelView>, side: Side, qty: u64, limit: Option<u128>, i: int, m: u64)
    requires
        side_wf(ls, spec_opposite(side)),
        0 <= i <= ls.len(),
        m as int == if takeable_depth(ls, side, limit, i) < qty { takeable_depth(ls, side, limit, i) } else { qty as int },
    ensures
        peek_from(ls, side, qty, limit, i, m) as int == if takeable_depth(ls, side, limit, ls.len() as int) < qty {
            takeable_depth(ls, side, limit, ls.len() as int)
        } else {
            qty as int
        },
    decreases ls.len() - i,
{
    let n = ls.len() as int;
    lemma_takeable_depth_mono(ls, side, limit, i, n);
    if i >= n {
    } else if m >= qty {
    } else if !takeable(side, limit, ls[i].price) {
        lemma_untakeable_tail(ls, side, limit, i, n);
    } else {
        let d = queue_depth(ls[i].orders);
        let take = min_u64((qty - m) as u64, d);
        assert(takeable_depth(ls, side, limit, i + 1) == takeable_depth(ls, side, limit, i) + d);
        lemma_peek(ls, side, qty, limit, i + 1, sat_add(m, take));
    }
}

/// Law: what a taker could cross is all of the takeable depth, up to its
/// quantity. For a buyer limited at `L` every ask priced at most `L` counts
/// (for a seller every bid priced at least `L`), so the estimate is the
/// smaller of the quantity and that depth.
pub proof fn law_peek_takes_takeable_depth(ls: Seq<LevelView>, side: Side, qty: u64, limit: Option<u128>)
    requires
        side_wf(ls, spec_opposite(side)),
    ensures
        peek_from(ls, side, qty, limit, 0, 0) as int == if takeable_depth(ls, side, limit, ls.len() as int) < qty {
            takeable_depth(ls, side, limit, ls.len() as int)
        } else {
            qty as int
        },
{
    lemma_peek(ls, side, qty, limit, 0, 0);
}

} // verus!
