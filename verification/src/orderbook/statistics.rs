//! Depth statistics over one side of the book: the distribution of depth
//! over equal-width price bins, the integer aggregates behind level-size
//! statistics, the cost of sweeping a quantity, and per-level volumes.

use crate::orderbook::analytics::{sat_add128, sat_mul, side_ref};
use crate::orderbook::book::{clone_side, OrderBook};
use crate::orderbook::clock::Clock;
use crate::orderbook::level::{queue_depth, Level};
use crate::orderbook::order::sat_add;
use crate::orderbook::types::{spec_opposite, Side};
use crate::orderbook::walk::{lview, sview, LevelView};
use vstd::prelude::*;

verus! {

/// One price bin of a depth distribution.
#[derive(Debug, Clone, Copy, PartialEq, Eq)]
pub struct DistributionBin {
    /// Lowest price in the bin.
    pub min_price: u128,
    /// Price bound above the bin (exclusive).
    pub max_price: u128,
    /// Saturating total depth of the bin's levels.
    pub volume: u64,
    /// Number of non-empty levels in the bin.
    pub level_count: usize,
}

/// The lowest price of `ls`, `u128::MAX` when it is empty.
pub open spec fn lowest_price(ls: Seq<LevelView>) -> u128
    decreases ls.len(),
{
    if ls.len() == 0 {
        u128::MAX
    } else {
        let m = lowest_price(ls.drop_last());
        if ls.last().price < m { ls.last().price } else { m }
    }
}

/// The highest price of `ls`, `0` when it is empty.
pub open spec fn highest_price(ls: Seq<LevelView>) -> u128
    decreases ls.len(),
{
    if ls.len() == 0 {
        0
    } else {
        let m = highest_price(ls.drop_last());
        if ls.last().price > m { ls.last().price } else { m }
    }
}

/// The width of each of `bins` bins over `[lo, hi]`: the range divided by
/// the number of bins, rounded up, and `1` for a single price.
pub open spec fn bin_width(lo: u128, hi: u128, bins: nat) -> nat {
    let r = (hi - lo) as nat;
    if r == 0 {
        1
    } else {
        r / bins + (if r % bins == 0 { 0nat } else { 1nat })
    }
}

/// The bin a price falls in: its offset from `lo` divided by the width,
/// capped at the last bin. Bin `i` spans `[lo + i * w, lo + (i + 1) * w)`,
/// and the last bin runs on to the highest price.
pub open spec fn bin_index(price: u128, lo: u128, w: nat, bins: nat) -> nat {
    let q = ((price - lo) as nat) / w;
    if q < bins - 1 { q } else { (bins - 1) as nat }
}

/// Whether the `k`-th level (from 0) of `ls` counts towards bin `i`: it is
/// non-empty and falls in it.
pub open spec fn in_bin(ls: Seq<LevelView>, k: int, i: nat, lo: u128, hi: u128, w: nat, bins: nat) -> bool {
    queue_depth(ls[k].orders) > 0 && bin_index(ls[k].price, lo, w, bins) == i
}

/// The saturating volume of bin `i` over the first `k` levels.
pub open spec fn bin_volume(ls: Seq<LevelView>, k: int, i: nat, lo: u128, hi: u128, w: nat, bins: nat) -> u64
    decreases k,
{
    if k <= 0 {
        0
    } else {
        let prev = bin_volume(ls, k - 1, i, lo, hi, w, bins);
        if in_bin(ls, k - 1, i, lo, hi, w, bins) {
            sat_add(prev, queue_depth(ls[k - 1].orders))
        } else {
            prev
        }
    }
}

/// The number of levels among the first `k` that count towards bin `i`.
pub open spec fn bin_count(ls: Seq<LevelView>, k: int, i: nat, lo: u128, hi: u128, w: nat, bins: nat) -> nat
    decreases k,
{
    if k <= 0 {
        0
    } else {
        let prev = bin_count(ls, k - 1, i, lo, hi, w, bins);
        if in_bin(ls, k - 1, i, lo, hi, w, bins) { prev + 1 } else { prev }
    }
}

/// Bin `i` of the distribution of `ls` over `bins` bins.
pub open spec fn bin_of(ls: Seq<LevelView>, i: nat, bins: nat) -> DistributionBin {
    let lo = lowest_price(ls);
    let hi = highest_price(ls);
    let w = bin_width(lo, hi, bins);
    let bmin = lo + i * w;
    DistributionBin {
        min_price: bmin as u128,
        max_price: (if i == bins - 1 { hi + 1 } else { bmin + w }) as u128,
        volume: bin_volume(ls, ls.len() as int, i, lo, hi, w, bins),
        level_count: bin_count(ls, ls.len() as int, i, lo, hi, w, bins) as usize,
    }
}

/// The inputs on which the distribution is computed without overflow: when
/// some level is priced below `u128::MAX`, the highest price is below it and
/// the last bin's lower bound fits.
pub open spec fn distribution_defined(ls: Seq<LevelView>, bins: nat) -> bool {
    (bins > 0 && ls.len() > 0 && lowest_price(ls) < u128::MAX) ==> {
        let lo = lowest_price(ls);
        let hi = highest_price(ls);
        &&& hi < u128::MAX
        &&& lo + (bins - 1) * bin_width(lo, hi, bins) <= u128::MAX
    }
}

proof fn lemma_price_bounds(ls: Seq<LevelView>)
    ensures
        forall|k: int| 0 <= k < ls.len() ==> lowest_price(ls) <= #[trigger] ls[k].price <= highest_price(ls),
        ls.len() > 0 ==> lowest_price(ls) <= highest_price(ls),
    decreases ls.len(),
{
    if ls.len() > 0 {
        lemma_price_bounds(ls.drop_last());
        assert forall|k: int| 0 <= k < ls.len() implies lowest_price(ls) <= #[trigger] ls[k].price <= highest_price(ls) by {
            if k < ls.len() - 1 {
                assert(ls[k] == ls.drop_last()[k]);
            }
        }
    }
}

proof fn lemma_bin_count_le(ls: Seq<LevelView>, k: int, i: nat, lo: u128, hi: u128, w: nat, bins: nat)
    requires
        k >= 0,
    ensures
        bin_count(ls, k, i, lo, hi, w, bins) <= k,
    decreases k,
{
    if k > 0 {
        lemma_bin_count_le(ls, k - 1, i, lo, hi, w, bins);
    }
}

/// Law: every non-empty level of the side counts in exactly one bin, and
/// that bin's range `[min_price, max_price)` holds the level's price.
pub proof fn law_level_in_its_bin(ls: Seq<LevelView>, k: int, bins: nat)
    requires
        distribution_defined(ls, bins),
        bins > 0,
        lowest_price(ls) < u128::MAX,
        0 <= k < ls.len(),
        queue_depth(ls[k].orders) > 0,
    ensures
        ({
            let lo = lowest_price(ls);
            let hi = highest_price(ls);
            let w = bin_width(lo, hi, bins);
            let i = bin_index(ls[k].price, lo, w, bins);
            &&& i < bins
            &&& in_bin(ls, k, i, lo, hi, w, bins)
            &&& forall|j: nat| j != i ==> !in_bin(ls, k, j, lo, hi, w, bins)
            &&& bin_of(ls, i, bins).min_price <= ls[k].price < bin_of(ls, i, bins).max_price
        }),
{
    lemma_price_bounds(ls);
    let lo = lowest_price(ls);
    let hi = highest_price(ls);
    let w = bin_width(lo, hi, bins);
    let p = ls[k].price;
    let off = (p - lo) as nat;
    assert(w >= 1) by {
        let r = (hi - lo) as nat;
        if r != 0 {
            assert(r / bins + (if r % bins == 0 { 0nat } else { 1nat }) >= 1) by (nonlinear_arith)
                requires
                    r > 0,
                    bins > 0,
            ;
        }
    }
    let q = off / w;
    let i = bin_index(p, lo, w, bins);
    assert(q * w <= off < q * w + w) by (nonlinear_arith)
        requires
            w >= 1,
            q == off / w,
    ;
    if q < bins - 1 {
        assert(i == q);
        assert((q + 1) * w <= (bins - 1) * w) by (nonlinear_arith)
            requires
                q + 1 <= bins - 1,
        ;
        assert(q * w + w == (q + 1) * w) by (nonlinear_arith);
    } else {
        assert(i == bins - 1);
        assert(i * w <= q * w) by (nonlinear_arith)
            requires
                i <= q,
        ;
    }
}

impl<C: Clock> OrderBook<C> {
    /// The depth of `side` distributed over `bins` equal-width price bins
    /// spanning its lowest to its highest price.
    ///
    /// Each bin is `[min_price, max_price)`; the last one ends one past the
    /// highest price. A non-empty level adds its depth (saturating) and one
    /// to the bin its price falls in. Empty when `bins` is `0`, the side
    /// has no levels, or every level is priced `u128::MAX`.
    pub fn depth_distribution(&self, side: Side, bins: usize) -> (r: Vec<DistributionBin>)
        requires
            distribution_defined(self.side_levels(side), bins as nat),
        ensures
            r@.len() == (if bins == 0 || self.side_levels(side).len() == 0 || lowest_price(self.side_levels(side)) == u128::MAX {
                0
            } else {
                bins as int
            }),
            forall|j: int| 0 <= j < r@.len() ==> #[trigger] r@[j] == bin_of(self.side_levels(side), j as nat, bins as nat),
    {
        let v = side_ref(self, side);
        let ghost ls = sview(v@);
        if bins == 0 || v.len() == 0 {
            return Vec::new();
        }
        let mut lo: u128 = u128::MAX;
        let mut hi: u128 = 0;
        let mut k: usize = 0;
        while k < v.len()
            invariant
                k <= v@.len(),
                ls == sview(v@),
                lo == lowest_price(ls.take(k as int)),
                hi == highest_price(ls.take(k as int)),
            decreases v@.len() - k,
        {
            assert(ls.take(k as int + 1).drop_last() =~= ls.take(k as int));
            assert(ls.take(k as int + 1).last() == lview(v@[k as int]));
            let p = v[k].price;
            if p < lo {
                lo = p;
            }
            if p > hi {
                hi = p;
            }
            k += 1;
        }
        assert(ls.take(v@.len() as int) =~= ls);
        proof {
            lemma_price_bounds(ls);
        }
        if lo == u128::MAX {
            return Vec::new();
        }
        let range = hi - lo;
        let bins128 = bins as u128;
        let w: u128 = if range == 0 {
            1
        } else {
            range / bins128 + (if range % bins128 == 0 { 0 } else { 1 })
        };
        assert(w as nat == bin_width(lo, hi, bins as nat));
        assert(w >= 1) by {
            if range != 0 {
                assert(range / bins128 + (if range % bins128 == 0 { 0int } else { 1int }) >= 1) by (nonlinear_arith)
                    requires
                        range > 0,
                        bins128 > 0,
                ;
            }
        }
        let ghost gw = w as nat;
        let mut dist: Vec<DistributionBin> = Vec::new();
        let mut i: usize = 0;
        while i < bins
            invariant
                i <= bins,
                bins > 0,
                ls.len() > 0,
                dist@.len() == i,
                lo == lowest_price(ls),
                hi == highest_price(ls),
                w as nat == bin_width(lo, hi, bins as nat),
                hi < u128::MAX,
                lo + (bins - 1) * bin_width(lo, hi, bins as nat) <= u128::MAX,
                forall|j: int| 0 <= j < i ==> #[trigger] dist@[j] == (DistributionBin {
                    min_price: (lo + j * w) as u128,
                    max_price: (if j == bins - 1 { hi + 1 } else { lo + j * w + w }) as u128,
                    volume: 0,
                    level_count: 0,
                }),
            decreases bins - i,
        {
            assert((i as int) * (w as int) <= (bins as int - 1) * (w as int)) by (nonlinear_arith)
                requires
                    i < bins,
                    w >= 0,
            ;
            let off = (i as u128) * w;
            let bmin = lo + off;
            let bmax = if i == bins - 1 {
                hi + 1
            } else {
                assert(((i as int) + 1) * (w as int) <= (bins as int - 1) * (w as int)) by (nonlinear_arith)
                    requires
                        i + 1 <= bins - 1,
                        w >= 0,
                ;
                assert((i as int) * (w as int) + (w as int) == ((i as int) + 1) * (w as int)) by (nonlinear_arith);
                bmin + w
            };
            dist.push(DistributionBin { min_price: bmin, max_price: bmax, volume: 0, level_count: 0 });
            i += 1;
        }
        let mut k: usize = 0;
        while k < v.len()
            invariant
                k <= v@.len(),
                ls == sview(v@),
                ls.len() > 0,
                bins > 0,
                dist@.len() == bins,
                lo == lowest_price(ls),
                hi == highest_price(ls),
                w as nat == bin_width(lo, hi, bins as nat),
                w >= 1,
                forall|j: int| 0 <= j < ls.len() ==> lo <= #[trigger] ls[j].price <= hi,
                forall|j: int| 0 <= j < bins ==> {
                    &&& (#[trigger] dist@[j]).min_price == (lo + j * w) as u128
                    &&& dist@[j].max_price == (if j == bins - 1 { hi + 1 } else { lo + j * w + w }) as u128
                    &&& dist@[j].volume == bin_volume(ls, k as int, j as nat, lo, hi, w as nat, bins as nat)
                    &&& dist@[j].level_count == bin_count(ls, k as int, j as nat, lo, hi, w as nat, bins as nat)
                },
            decreases v@.len() - k,
        {
            assert(ls[k as int] == lview(v@[k as int]));
            let d = v[k].depth();
            let p = v[k].price;
            assert(ls[k as int].price == p);
            if d > 0 {
                let q = (p - lo) / w;
                let idx: usize = if q < (bins - 1) as u128 { q as usize } else { bins - 1 };
                assert(idx as nat == bin_index(p, lo, w as nat, bins as nat));
                let old_bin = dist[idx];
                proof {
                    lemma_bin_count_le(ls, k as int, idx as nat, lo, hi, w as nat, bins as nat);
                }
                let nb = DistributionBin {
                    min_price: old_bin.min_price,
                    max_price: old_bin.max_price,
                    volume: old_bin.volume.saturating_add(d),
                    level_count: old_bin.level_count + 1,
                };
                dist.set(idx, nb);
            }
            k += 1;
        }
        proof {
            assert forall|j: int| 0 <= j < dist@.len() implies #[trigger] dist@[j] == bin_of(ls, j as nat, bins as nat) by {
                assert(v@.len() == ls.len());
            }
        }
        dist
    }
}

/// The integer aggregates of the level sizes of one side.
#[derive(Debug, Clone)]
pub struct DepthTotals {
    /// Saturating sum of the counted levels' depths.
    pub total_volume: u64,
    /// Number of counted levels.
    pub levels_count: usize,
    /// Saturating sum of price times depth over the counted levels.
    pub weighted_price_sum: u128,
    /// Smallest counted depth (`0` when none).
    pub min_level_size: u64,
    /// Largest counted depth (`0` when none).
    pub max_level_size: u64,
    /// The counted depths, in price priority.
    pub level_sizes: Vec<u64>,
}

/// Running aggregates of a scan over levels.
pub struct TotalsAcc {
    pub volume: u64,
    pub wsum: u128,
    pub sizes: Seq<u64>,
    pub min: u64,
    pub max: u64,
    pub count: nat,
}

/// The aggregates at the start of a scan.
pub open spec fn totals_start() -> TotalsAcc {
    TotalsAcc { volume: 0, wsum: 0, sizes: Seq::empty(), min: u64::MAX, max: 0, count: 0 }
}

/// Scan `ls` from level `i` in price priority: empty levels are skipped,
/// and once `limit > 0` levels are counted the scan stops.
pub open spec fn totals_from(ls: Seq<LevelView>, i: int, limit: nat, a: TotalsAcc) -> TotalsAcc
    decreases ls.len() - i,
{
    if i < 0 || i >= ls.len() {
        a
    } else if limit > 0 && a.count >= limit {
        a
    } else {
        let q = queue_depth(ls[i].orders);
        if q == 0 {
            totals_from(ls, i + 1, limit, a)
        } else {
            totals_from(ls, i + 1, limit, TotalsAcc {
                volume: sat_add(a.volume, q),
                wsum: sat_add128(a.wsum, sat_mul(ls[i].price, q as u128)),
                sizes: a.sizes.push(q),
                min: if q < a.min { q } else { a.min },
                max: if q > a.max { q } else { a.max },
                count: a.count + 1,
            })
        }
    }
}

/// `r` holds the aggregates `a` describes: all zero when nothing was
/// counted or the counted volume is zero.
pub open spec fn totals_match(r: DepthTotals, a: TotalsAcc) -> bool {
    if a.count == 0 || a.volume == 0 {
        &&& r.total_volume == 0
        &&& r.levels_count == 0
        &&& r.weighted_price_sum == 0
        &&& r.min_level_size == 0
        &&& r.max_level_size == 0
        &&& r.level_sizes@ == Seq::<u64>::empty()
    } else {
        &&& r.total_volume == a.volume
        &&& r.levels_count == a.count
        &&& r.weighted_price_sum == a.wsum
        &&& r.min_level_size == (if a.min == u64::MAX { 0 } else { a.min })
        &&& r.max_level_size == a.max
        &&& r.level_sizes@ == a.sizes
    }
}

/// Sweep `ls` from level `i` with `remaining` to fill: each non-empty level
/// fills what it can, adding price times fill to the saturating cost.
pub open spec fn vwap_from(ls: Seq<LevelView>, i: int, remaining: u64, cost: u128, filled: u64) -> (u128, u64)
    decreases ls.len() - i,
{
    if i < 0 || i >= ls.len() || remaining == 0 {
        (cost, filled)
    } else {
        let a = queue_depth(ls[i].orders);
        if a == 0 {
            vwap_from(ls, i + 1, remaining, cost, filled)
        } else {
            let f = if remaining < a { remaining } else { a };
            vwap_from(ls, i + 1, (remaining - f) as u64, sat_add128(cost, (ls[i].price * f) as u128), sat_add(filled, f))
        }
    }
}

/// The sweep's products of price and fill each fit in `u128`.
pub open spec fn vwap_defined(ls: Seq<LevelView>, i: int, remaining: u64) -> bool
    decreases ls.len() - i,
{
    if i < 0 || i >= ls.len() || remaining == 0 {
        true
    } else {
        let a = queue_depth(ls[i].orders);
        if a == 0 {
            vwap_defined(ls, i + 1, remaining)
        } else {
            let f = if remaining < a { remaining } else { a };
            ls[i].price * f <= u128::MAX && vwap_defined(ls, i + 1, (remaining - f) as u64)
        }
    }
}

/// Each level's price and depth.
pub open spec fn volumes(ls: Seq<LevelView>) -> Seq<(u128, u64)> {
    ls.map_values(|l: LevelView| (l.price, queue_depth(l.orders)))
}

fn volumes_exec(v: &Vec<Level>) -> (r: Vec<(u128, u64)>)
    ensures
        r@ == volumes(sview(v@)),
{
    let ghost ls = sview(v@);
    let mut r: Vec<(u128, u64)> = Vec::new();
    let mut i: usize = 0;
    while i < v.len()
        invariant
            i <= v@.len(),
            ls == sview(v@),
            r@ == volumes(ls.take(i as int)),
        decreases v@.len() - i,
    {
        assert(ls[i as int] == lview(v@[i as int]));
        r.push((v[i].price, v[i].depth()));
        assert(volumes(ls.take(i as int + 1)) =~= volumes(ls.take(i as int)).push((v@[i as int].price, queue_depth(v@[i as int].orders@))));
        i += 1;
    }
    assert(ls.take(v@.len() as int) =~= ls);
    r
}

fn reversed_side(v: &Vec<Level>) -> (r: Vec<Level>)
    ensures
        sview(r@) == sview(v@).reverse(),
{
    let ghost ls = sview(v@);
    let mut r: Vec<Level> = Vec::new();
    let mut i: usize = v.len();
    while i > 0
        invariant
            i <= v@.len(),
            ls == sview(v@),
            sview(r@) == ls.subrange(i as int, v@.len() as int).reverse(),
        decreases i,
    {
        i -= 1;
        let l = Level { price: v[i].price, orders: crate::orderbook::book::clone_orders(&v[i].orders) };
        let ghost before = r@;
        r.push(l);
        proof {
            crate::orderbook::walk::lemma_sview_push(before, l);
            assert(ls[i as int] == lview(v@[i as int]));
            assert(ls.subrange(i as int, v@.len() as int).reverse() =~= ls.subrange(i as int + 1, v@.len() as int).reverse().push(ls[i as int]));
        }
    }
    assert(ls.subrange(0, v@.len() as int) =~= ls);
    r
}

impl<C: Clock> OrderBook<C> {
    /// The integer aggregates behind the level-size statistics of `side`:
    /// its non-empty levels in price priority, the first `levels` of them
    /// when `levels > 0`.
    pub fn depth_totals(&self, side: Side, levels: usize) -> (r: DepthTotals)
        ensures
            totals_match(r, totals_from(self.side_levels(side), 0, levels as nat, totals_start())),
    {
        let v = side_ref(self, side);
        let ghost ls = sview(v@);
        let ghost target = totals_from(ls, 0, levels as nat, totals_start());
        let mut volume: u64 = 0;
        let mut wsum: u128 = 0;
        let mut sizes: Vec<u64> = Vec::new();
        let mut min: u64 = u64::MAX;
        let mut max: u64 = 0;
        let mut count: usize = 0;
        let mut i: usize = 0;
        while i < v.len()
            invariant_except_break
                i <= v@.len(),
                ls == sview(v@),
                count <= i,
                target == totals_from(ls, i as int, levels as nat, TotalsAcc {
                    volume, wsum, sizes: sizes@, min, max, count: count as nat,
                }),
            ensures
                target == (TotalsAcc { volume, wsum, sizes: sizes@, min, max, count: count as nat }),
            decreases v@.len() - i,
        {
            if levels > 0 && count >= levels {
                break;
            }
            assert(ls[i as int] == lview(v@[i as int]));
            let q = v[i].depth();
            if q > 0 {
                volume = volume.saturating_add(q);
                wsum = wsum.saturating_add(crate::orderbook::analytics::sat_mul_exec(v[i].price, q as u128));
                sizes.push(q);
                if q < min {
                    min = q;
                }
                if q > max {
                    max = q;
                }
                count += 1;
            }
            i += 1;
        }
        if count == 0 || volume == 0 {
            return DepthTotals {
                total_volume: 0,
                levels_count: 0,
                weighted_price_sum: 0,
                min_level_size: 0,
                max_level_size: 0,
                level_sizes: Vec::new(),
            };
        }
        DepthTotals {
            total_volume: volume,
            levels_count: count,
            weighted_price_sum: wsum,
            min_level_size: if min == u64::MAX { 0 } else { min },
            max_level_size: max,
            level_sizes: sizes,
        }
    }

    /// The cost and filled quantity of sweeping `quantity` from the side a
    /// `side` order executes against, in price priority; `None` when the
    /// quantity is zero, that side is empty, or it cannot fill the whole
    /// quantity. Dividing cost by quantity gives the volume-weighted price.
    pub fn vwap_totals(&self, quantity: u64, side: Side) -> (r: Option<(u128, u64)>)
        requires
            vwap_defined(self.side_levels(spec_opposite(side)), 0, quantity),
        ensures
            ({
                let ls = self.side_levels(spec_opposite(side));
                let (c, f) = vwap_from(ls, 0, quantity, 0, 0);
                r == if quantity == 0 || ls.len() == 0 || f != quantity {
                    None::<(u128, u64)>
                } else {
                    Some((c, f))
                }
            }),
    {
        let opp = match side {
            Side::Buy => Side::Sell,
            Side::Sell => Side::Buy,
        };
        let v = side_ref(self, opp);
        let ghost ls = sview(v@);
        if quantity == 0 || v.len() == 0 {
            return None;
        }
        let ghost target = vwap_from(ls, 0, quantity, 0, 0);
        let mut remaining = quantity;
        let mut cost: u128 = 0;
        let mut filled: u64 = 0;
        let mut i: usize = 0;
        while i < v.len()
            invariant_except_break
                i <= v@.len(),
                ls == sview(v@),
                target == vwap_from(ls, i as int, remaining, cost, filled),
                vwap_defined(ls, i as int, remaining),
            ensures
                target == (cost, filled),
            decreases v@.len() - i,
        {
            if remaining == 0 {
                break;
            }
            assert(ls[i as int] == lview(v@[i as int]));
            let a = v[i].depth();
            if a > 0 {
                let f = if remaining < a { remaining } else { a };
                let p = v[i].price;
                cost = cost.saturating_add(p * (f as u128));
                filled = filled.saturating_add(f);
                remaining = remaining - f;
            }
            i += 1;
        }
        if filled == quantity {
            Some((cost, filled))
        } else {
            None
        }
    }

    /// The price and depth of the best level of `side`, if any.
    pub fn best_level_depth(&self, side: Side) -> (r: Option<(u128, u64)>)
        ensures
            r == if self.side_levels(side).len() > 0 {
                Some((self.side_levels(side)[0].price, queue_depth(self.side_levels(side)[0].orders)))
            } else {
                None::<(u128, u64)>
            },
    {
        let v = side_ref(self, side);
        if v.len() > 0 {
            assert(sview(v@)[0] == lview(v@[0]));
            Some((v[0].price, v[0].depth()))
        } else {
            None
        }
    }

    /// Each bid level's price and depth, best first, and the same for the
    /// asks.
    pub fn get_volume_by_price(&self) -> (r: (Vec<(u128, u64)>, Vec<(u128, u64)>))
        ensures
            r.0@ == volumes(self.bids()),
            r.1@ == volumes(self.asks()),
    {
        let b = side_ref(self, Side::Buy);
        let a = side_ref(self, Side::Sell);
        (volumes_exec(b), volumes_exec(a))
    }

    /// A copy of the bid levels, best (highest) first.
    pub fn get_bids(&self) -> (r: Vec<Level>)
        ensures
            sview(r@) == self.bids(),
    {
        clone_side(side_ref(self, Side::Buy))
    }

    /// A copy of the ask levels, best (lowest) first.
    pub fn get_asks(&self) -> (r: Vec<Level>)
        ensures
            sview(r@) == self.asks(),
    {
        clone_side(side_ref(self, Side::Sell))
    }

    /// A copy of the bid levels in ascending price order.
    pub fn get_bt_bids(&self) -> (r: Vec<Level>)
        ensures
            sview(r@) == self.bids().reverse(),
    {
        reversed_side(side_ref(self, Side::Buy))
    }

    /// A copy of the ask levels in ascending price order.
    pub fn get_bt_asks(&self) -> (r: Vec<Level>)
        ensures
            sview(r@) == self.asks(),
    {
        clone_side(side_ref(self, Side::Sell))
    }
}

impl<C: Clock> OrderBook<C> {
    /// Whether sweeping `quantity` for a `side` order keeps every price
    /// times fill within `u128` (see [`vwap_defined`]).
    pub fn vwap_completes(&self, quantity: u64, side: Side) -> (b: bool)
        ensures
            b == vwap_defined(self.side_levels(spec_opposite(side)), 0, quantity),
    {
        let opp = match side {
            Side::Buy => Side::Sell,
            Side::Sell => Side::Buy,
        };
        let v = side_ref(self, opp);
        let ghost ls = sview(v@);
        let ghost target = vwap_defined(ls, 0, quantity);
        assert(opp == spec_opposite(side));
        let mut remaining = quantity;
        let mut i: usize = 0;
        while i < v.len()
            invariant
                i <= v@.len(),
                ls == sview(v@),
                ls == self.side_levels(spec_opposite(side)),
                target == vwap_defined(ls, 0, quantity),
                target == vwap_defined(ls, i as int, remaining),
            decreases v@.len() - i,
        {
            if remaining == 0 {
                return true;
            }
            assert(ls[i as int] == lview(v@[i as int]));
            let a = v[i].depth();
            if a > 0 {
                let f = if remaining < a { remaining } else { a };
                if v[i].price.checked_mul(f as u128).is_none() {
                    return false;
                }
                remaining = remaining - f;
            }
            i += 1;
        }
        true
    }

    /// Whether the depth distribution of `side` over `bins` bins stays
    /// within `u128` (see [`distribution_defined`]).
    pub fn distribution_completes(&self, side: Side, bins: usize) -> (b: bool)
        ensures
            b == distribution_defined(self.side_levels(side), bins as nat),
    {
        let v = side_ref(self, side);
        let ghost ls = sview(v@);
        if bins == 0 || v.len() == 0 {
            return true;
        }
        let mut lo: u128 = u128::MAX;
        let mut hi: u128 = 0;
        let mut k: usize = 0;
        while k < v.len()
            invariant
                k <= v@.len(),
                ls == sview(v@),
                lo == lowest_price(ls.take(k as int)),
                hi == highest_price(ls.take(k as int)),
            decreases v@.len() - k,
        {
            assert(ls.take(k as int + 1).drop_last() =~= ls.take(k as int));
            assert(ls.take(k as int + 1).last() == lview(v@[k as int]));
            let p = v[k].price;
            if p < lo {
                lo = p;
            }
            if p > hi {
                hi = p;
            }
            k += 1;
        }
        assert(ls.take(v@.len() as int) =~= ls);
        proof {
            lemma_price_bounds(ls);
        }
        if lo == u128::MAX {
            return true;
        }
        if hi == u128::MAX {
            return false;
        }
        let range = hi - lo;
        let bins128 = bins as u128;
        let w: u128 = if range == 0 {
            1
        } else {
            range / bins128 + (if range % bins128 == 0 { 0 } else { 1 })
        };
        assert(w as nat == bin_width(lo, hi, bins as nat));
        match ((bins - 1) as u128).checked_mul(w) {
            None => false,
            Some(off) => lo.checked_add(off).is_some(),
        }
    }
}

impl<C: Clock> OrderBook<C> {
    /// The depth of the level of `side` priced `price`, `0` when there is
    /// none.
    pub fn quantity_at_price(&self, price: u128, side: Side) -> (r: u64)
        ensures
            ({
                let ls = self.side_levels(side);
                let k = crate::orderbook::book::find_price(ls, price, 0);
                r == if k < ls.len() { queue_depth(ls[k].orders) } else { 0 }
            }),
    {
        let v = side_ref(self, side);
        let ghost ls = sview(v@);
        let mut i: usize = 0;
        while i < v.len()
            invariant
                i <= v@.len(),
                ls == sview(v@),
                ls == self.side_levels(side),
                crate::orderbook::book::find_price(ls, price, i as int) == crate::orderbook::book::find_price(ls, price, 0),
            decreases v@.len() - i,
        {
            assert(ls[i as int] == lview(v@[i as int]));
            if v[i].price == price {
                return v[i].depth();
            }
            i += 1;
        }
        0
    }
}

} // verus!
