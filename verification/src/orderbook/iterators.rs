//! Per-level views of one side in price priority: with cumulative depth,
//! until a target depth, or within a price range.

use crate::orderbook::analytics::{depth_prefix, first_reaching};
use crate::orderbook::book::OrderBook;
use crate::orderbook::clock::Clock;
use crate::orderbook::level::{queue_depth, Level};
use crate::orderbook::types::Side;
use crate::orderbook::walk::{lview, sview, LevelView};
use vstd::prelude::*;

verus! {

/// One level: its price, its depth, and the depth up to and including it.
#[derive(Debug, Clone, Copy, PartialEq, Eq)]
pub struct LevelInfo {
    pub price: u128,
    pub quantity: u64,
    pub cumulative_depth: u64,
}

/// The first `k` levels with their cumulative depth.
pub open spec fn cumulative_infos(ls: Seq<LevelView>, k: int) -> Seq<LevelInfo>
    decreases k,
{
    if k <= 0 {
        seq![]
    } else {
        cumulative_infos(ls, k - 1).push(
            LevelInfo { price: ls[k - 1].price, quantity: queue_depth(ls[k - 1].orders), cumulative_depth: depth_prefix(ls, k) },
        )
    }
}

/// Whether a level priced `p` lies past the far edge of `[lo, hi]` in the
/// walk order of `side`.
pub open spec fn past_far_edge(side: Side, p: u128, lo: u128, hi: u128) -> bool {
    match side {
        Side::Buy => p < lo,
        Side::Sell => p > hi,
    }
}

/// The first level from `i` past the far edge, or the side's length.
pub open spec fn range_end(ls: Seq<LevelView>, side: Side, lo: u128, hi: u128, i: int) -> int
    decreases ls.len() - i,
{
    if i < 0 || i >= ls.len() {
        ls.len() as int
    } else if past_far_edge(side, ls[i].price, lo, hi) {
        i
    } else {
        range_end(ls, side, lo, hi, i + 1)
    }
}

/// The levels among the first `k` priced within `[lo, hi]`, with no
/// cumulative depth.
pub open spec fn range_infos(ls: Seq<LevelView>, lo: u128, hi: u128, k: int) -> Seq<LevelInfo>
    decreases k,
{
    if k <= 0 {
        seq![]
    } else if lo <= ls[k - 1].price <= hi {
        range_infos(ls, lo, hi, k - 1).push(
            LevelInfo { price: ls[k - 1].price, quantity: queue_depth(ls[k - 1].orders), cumulative_depth: 0 },
        )
    } else {
        range_infos(ls, lo, hi, k - 1)
    }
}

fn side_levels_ref<C: Clock>(book: &OrderBook<C>, side: Side) -> (r: &Vec<Level>)
    ensures
        sview(r@) == book.side_levels(side),
{
    proof {
        book.lemma_view_sides();
    }
    match side {
        Side::Buy => &book.bids,
        Side::Sell => &book.asks,
    }
}

impl<C: Clock> OrderBook<C> {
    /// Every level of `side` in price priority with its depth and the
    /// cumulative depth up to it.
    pub fn levels_with_cumulative_depth(&self, side: Side) -> (r: Vec<LevelInfo>)
        ensures
            r@ == cumulative_infos(self.side_levels(side), self.side_levels(side).len() as int),
    {
        self.levels_until_depth_inner(side, None)
    }

    /// The levels of `side` in price priority up to and including the first
    /// whose cumulative depth reaches `target_depth`.
    pub fn levels_until_depth(&self, target_depth: u64, side: Side) -> (r: Vec<LevelInfo>)
        ensures
            ({
                let ls = self.side_levels(side);
                let k = first_reaching(ls, target_depth, 0);
                r@ == cumulative_infos(ls, if k < ls.len() { k + 1 } else { ls.len() as int })
            }),
    {
        self.levels_until_depth_inner(side, Some(target_depth))
    }

    fn levels_until_depth_inner(&self, side: Side, target: Option<u64>) -> (r: Vec<LevelInfo>)
        ensures
            ({
                let ls = self.side_levels(side);
                match target {
                    None => r@ == cumulative_infos(ls, ls.len() as int),
                    Some(t) => {
                        let k = first_reaching(ls, t, 0);
                        r@ == cumulative_infos(ls, if k < ls.len() { k + 1 } else { ls.len() as int })
                    },
                }
            }),
    {
        let v = side_levels_ref(self, side);
        let ghost ls = sview(v@);
        let mut r: Vec<LevelInfo> = Vec::new();
        let mut cum: u64 = 0;
        let mut i: usize = 0;
        while i < v.len()
            invariant
                i <= v@.len(),
                ls == sview(v@),
                ls == self.side_levels(side),
                cum == depth_prefix(ls, i as int),
                r@ == cumulative_infos(ls, i as int),
                target matches Some(t) ==> first_reaching(ls, t, i as int) == first_reaching(ls, t, 0),
            decreases v@.len() - i,
        {
            assert(ls[i as int] == lview(v@[i as int]));
            let q = v[i].depth();
            cum = cum.saturating_add(q);
            r.push(LevelInfo { price: v[i].price, quantity: q, cumulative_depth: cum });
            i += 1;
            if let Some(t) = target {
                if cum >= t {
                    return r;
                }
            }
        }
        r
    }

    /// The first level of `side`, in price priority and with its cumulative
    /// depth, on which `predicate` holds; each level before it was tried and
    /// refused.
    pub fn find_level<F: Fn(&LevelInfo) -> bool>(&self, side: Side, predicate: F) -> (r: Option<LevelInfo>)
        requires
            forall|l: LevelInfo| predicate.requires((&l,)),
        ensures
            ({
                let infos = cumulative_infos(self.side_levels(side), self.side_levels(side).len() as int);
                match r {
                    Some(l) => exists|i: int|
                        0 <= i < infos.len() && #[trigger] infos[i] == l && predicate.ensures((&infos[i],), true)
                            && forall|j: int| 0 <= j < i ==> predicate.ensures((&infos[j],), false),
                    None => forall|j: int| 0 <= j < infos.len() ==> predicate.ensures((&infos[j],), false),
                }
            }),
    {
        let infos = self.levels_with_cumulative_depth(side);
        let mut i: usize = 0;
        while i < infos.len()
            invariant
                i <= infos@.len(),
                infos@ == cumulative_infos(self.side_levels(side), self.side_levels(side).len() as int),
                forall|l: LevelInfo| predicate.requires((&l,)),
                forall|j: int| 0 <= j < i ==> predicate.ensures((&infos@[j],), false),
            decreases infos@.len() - i,
        {
            let l = infos[i];
            let hit = predicate(&l);
            if hit {
                let ghost all = cumulative_infos(self.side_levels(side), self.side_levels(side).len() as int);
                assert(all[i as int] == l && predicate.ensures((&all[i as int],), true));
                return Some(l);
            }
            i += 1;
        }
        None
    }

    /// The levels of `side` priced within `[min_price, max_price]`, in price
    /// priority, without cumulative depth; the walk stops at the first level
    /// past the far edge of the range.
    pub fn levels_in_range(&self, min_price: u128, max_price: u128, side: Side) -> (r: Vec<LevelInfo>)
        ensures
            ({
                let ls = self.side_levels(side);
                r@ == range_infos(ls, min_price, max_price, range_end(ls, side, min_price, max_price, 0))
            }),
    {
        let v = side_levels_ref(self, side);
        let ghost ls = sview(v@);
        let mut r: Vec<LevelInfo> = Vec::new();
        let mut i: usize = 0;
        while i < v.len()
            invariant
                i <= v@.len(),
                ls == sview(v@),
                ls == self.side_levels(side),
                range_end(ls, side, min_price, max_price, i as int) == range_end(ls, side, min_price, max_price, 0),
                r@ == range_infos(ls, min_price, max_price, i as int),
            decreases v@.len() - i,
        {
            assert(ls[i as int] == lview(v@[i as int]));
            let p = v[i].price;
            let past = match side {
                Side::Buy => p < min_price,
                Side::Sell => p > max_price,
            };
            if past {
                return r;
            }
            if min_price <= p && p <= max_price {
                r.push(LevelInfo { price: p, quantity: v[i].depth(), cumulative_depth: 0 });
            }
            i += 1;
        }
        r
    }
}

} // verus!
