//! Maker / taker fee schedule expressed in basis points.

use crate::orderbook::text::{decimal_chars, push_decimal, push_str};
use vstd::prelude::*;

verus! {

/// Denominator for basis-point fee math: 1 bps = 1 / 10_000 of the notional.
pub const BPS_DENOMINATOR: u128 = 10_000;

/// Magnitude of a basis-point rate.
pub open spec fn bps_magnitude(bps: i32) -> nat {
    if bps < 0 { (-bps) as nat } else { bps as nat }
}

/// The multiplication-safety bound: the largest notional whose product with
/// `|bps|` still fits in `u128`.
pub open spec fn exact_bound(bps: i32) -> int {
    if bps_magnitude(bps) == 0 { u128::MAX as int } else { u128::MAX as int / bps_magnitude(bps) as int }
}

/// The exact fee `sign(bps) × ⌊notional × |bps| / 10_000⌋`.
pub open spec fn exact_fee(notional: u128, bps: i32) -> int {
    let magnitude = (notional as int * bps_magnitude(bps) as int) / 10_000;
    if bps < 0 { -magnitude } else { magnitude }
}

/// The clamped magnitude `calculate_fee` falls back to when the product
/// does not fit in `u128`.
pub open spec fn clamp_magnitude() -> int {
    u128::MAX as int / 10_000
}

/// The fee `calculate_fee` returns: exact where the product fits, otherwise
/// the signed clamp.
pub open spec fn saturated_fee(notional: u128, bps: i32) -> int {
    if notional as int * bps_magnitude(bps) as int <= u128::MAX as int {
        exact_fee(notional, bps)
    } else if bps < 0 {
        -clamp_magnitude()
    } else {
        clamp_magnitude()
    }
}

/// The overflow record reported for `notional` at `bps`.
pub open spec fn overflow_record(notional: u128, bps: i32) -> FeeOverflow {
    FeeOverflow { notional, bps, max_guaranteed_exact_notional: exact_bound(bps) as u128 }
}

/// Fee computation would overflow its `u128` intermediate product.
///
/// Returned by [`FeeSchedule::try_calculate_fee`] when `notional × |bps|`
/// overflows `u128`, exactly where [`FeeSchedule::calculate_fee`] clamps.
#[derive(Debug, Clone, Copy, PartialEq, Eq)]
pub struct FeeOverflow {
    /// The notional value (price × quantity) that was passed in.
    pub notional: u128,
    /// The signed fee rate in basis points that applied (maker or taker).
    pub bps: i32,
    /// Largest notional guaranteed exact at this rate.
    pub max_guaranteed_exact_notional: u128,
}

impl FeeOverflow {
    /// Build the overflow record for `notional` at `bps`.
    pub fn new(notional: u128, bps: i32) -> (r: Self)
        ensures
            r.notional == notional,
            r.bps == bps,
            r.max_guaranteed_exact_notional == exact_bound(bps),
    {
        FeeOverflow {
            notional,
            bps,
            max_guaranteed_exact_notional: FeeSchedule::max_guaranteed_exact_notional_for_bps(bps),
        }
    }
}

/// Decimal text of a signed integer.
pub open spec fn signed_chars(x: int) -> Seq<char> {
    if x < 0 {
        seq!['-'] + decimal_chars((-x) as nat)
    } else {
        decimal_chars(x as nat)
    }
}

/// The human-readable text of a fee overflow.
pub open spec fn overflow_text(e: FeeOverflow) -> Seq<char> {
    "fee overflow: notional "@ + decimal_chars(e.notional as nat) + " × |"@ + signed_chars(e.bps as int)
        + "| bps exceeds the u128 domain; max guaranteed-exact notional at this rate is "@
        + decimal_chars(e.max_guaranteed_exact_notional as nat)
}

impl FeeOverflow {
    /// The human-readable text of this error.
    pub fn to_text(&self) -> (t: String)
        ensures
            t@ == overflow_text(*self),
    {
        let mut t = String::new();
        push_str(&mut t, "fee overflow: notional ");
        push_decimal(&mut t, self.notional);
        push_str(&mut t, " × |");
        let ghost before_sign = t@;
        if self.bps < 0 {
            proof {
                reveal_strlit("-");
            }
            push_str(&mut t, "-");
            let mag: u128 = (-(self.bps as i64)) as u128;
            push_decimal(&mut t, mag);
        } else {
            push_decimal(&mut t, self.bps as u128);
        }
        assert(t@ =~= before_sign + signed_chars(self.bps as int));
        push_str(&mut t, "| bps exceeds the u128 domain; max guaranteed-exact notional at this rate is ");
        push_decimal(&mut t, self.max_guaranteed_exact_notional);
        assert(t@ =~= overflow_text(*self));
        t
    }
}

/// Configurable fee schedule for maker and taker fees, in basis points.
/// Negative values are rebates.
#[derive(Debug, Clone, Copy, PartialEq, Eq)]
pub struct FeeSchedule {
    /// Maker fee in basis points (negative = rebate).
    pub maker_fee_bps: i32,
    /// Taker fee in basis points.
    pub taker_fee_bps: i32,
}

impl FeeSchedule {
    /// The rate that applies to one leg.
    pub open spec fn rate(self, is_maker: bool) -> i32 {
        if is_maker { self.maker_fee_bps } else { self.taker_fee_bps }
    }

    /// Create a new fee schedule.
    pub fn new(maker_fee_bps: i32, taker_fee_bps: i32) -> (r: Self)
        ensures
            r.maker_fee_bps == maker_fee_bps,
            r.taker_fee_bps == taker_fee_bps,
    {
        FeeSchedule { maker_fee_bps, taker_fee_bps }
    }

    /// Calculate the fee for a transaction, clamping instead of overflowing.
    ///
    /// Exact (`sign(bps) × ⌊notional × |bps| / 10_000⌋`, truncating toward
    /// zero) whenever `notional × |bps|` fits in `u128`; otherwise the
    /// magnitude clamps to `u128::MAX / 10_000`, signed per the rate.
    pub fn calculate_fee(&self, notional: u128, is_maker: bool) -> (fee: i128)
        ensures
            fee == saturated_fee(notional, self.rate(is_maker)),
    {
        match self.try_calculate_fee(notional, is_maker) {
            Ok(fee) => fee,
            Err(overflow) => {
                let magnitude: i128 = (u128::MAX / BPS_DENOMINATOR) as i128;
                if overflow.bps < 0 {
                    -magnitude
                } else {
                    magnitude
                }
            },
        }
    }

    /// Calculate the fee for a transaction, or fail instead of clamping.
    ///
    /// `Ok` carries the exact fee; `Err` is returned if and only if
    /// `notional × |bps|` does not fit in `u128`, i.e. iff `notional`
    /// exceeds [`Self::max_guaranteed_exact_notional_for_bps`].
    pub fn try_calculate_fee(&self, notional: u128, is_maker: bool) -> (r: Result<i128, FeeOverflow>)
        ensures
            (notional as int * bps_magnitude(self.rate(is_maker)) as int <= u128::MAX as int)
                <==> (r is Ok),
            (notional as int <= exact_bound(self.rate(is_maker))) <==> (r is Ok),
            r matches Ok(fee) ==> fee == exact_fee(notional, self.rate(is_maker)),
            r matches Err(e) ==> e == overflow_record(notional, self.rate(is_maker)),
    {
        let bps = if is_maker { self.maker_fee_bps } else { self.taker_fee_bps };
        let magnitude_bps: u128 = if bps < 0 { (-(bps as i64)) as u128 } else { bps as u128 };
        proof { lemma_bound_matches_product(notional, bps); }
        match notional.checked_mul(magnitude_bps) {
            None => Err(FeeOverflow::new(notional, bps)),
            Some(product) => {
                let q = product / BPS_DENOMINATOR;
                assert(q <= u128::MAX / 10_000);
                let magnitude = q as i128;
                if bps < 0 {
                    Ok(-magnitude)
                } else {
                    Ok(magnitude)
                }
            },
        }
    }

    /// Largest notional whose fee at `bps` is guaranteed exact:
    /// `u128::MAX / |bps|`, or `u128::MAX` for a zero rate.
    pub fn max_guaranteed_exact_notional_for_bps(bps: i32) -> (r: u128)
        ensures
            r == exact_bound(bps),
    {
        let magnitude: u128 = if bps < 0 { (-(bps as i64)) as u128 } else { bps as u128 };
        if magnitude == 0 {
            u128::MAX
        } else {
            u128::MAX / magnitude
        }
    }

    /// Largest notional guaranteed exact for both legs of this schedule:
    /// the minimum of the two per-rate bounds.
    pub fn max_guaranteed_exact_notional(&self) -> (r: u128)
        ensures
            r == if exact_bound(self.maker_fee_bps) < exact_bound(self.taker_fee_bps) {
                exact_bound(self.maker_fee_bps)
            } else {
                exact_bound(self.taker_fee_bps)
            },
    {
        let maker = Self::max_guaranteed_exact_notional_for_bps(self.maker_fee_bps);
        let taker = Self::max_guaranteed_exact_notional_for_bps(self.taker_fee_bps);
        if maker < taker {
            maker
        } else {
            taker
        }
    }

    /// `true` iff the maker fee is negative (a rebate).
    pub fn has_maker_rebate(&self) -> (r: bool)
        ensures
            r == (self.maker_fee_bps < 0),
    {
        self.maker_fee_bps < 0
    }

    /// `true` iff both fees are zero.
    pub fn is_zero_fee(&self) -> (r: bool)
        ensures
            r == (self.maker_fee_bps == 0 && self.taker_fee_bps == 0),
    {
        self.maker_fee_bps == 0 && self.taker_fee_bps == 0
    }

    /// A schedule with zero fees on both legs.
    pub fn zero_fee() -> (r: Self)
        ensures
            r.maker_fee_bps == 0,
            r.taker_fee_bps == 0,
    {
        Self::new(0, 0)
    }

    /// A schedule that charges only takers.
    pub fn taker_only(taker_fee_bps: i32) -> (r: Self)
        ensures
            r.maker_fee_bps == 0,
            r.taker_fee_bps == taker_fee_bps,
    {
        Self::new(0, taker_fee_bps)
    }

    /// A schedule with a maker rebate of `|maker_rebate_bps|`.
    pub fn with_maker_rebate(maker_rebate_bps: i32, taker_fee_bps: i32) -> (r: Self)
        requires
            maker_rebate_bps != i32::MIN,
        ensures
            r.maker_fee_bps == -(bps_magnitude(maker_rebate_bps) as int),
            r.taker_fee_bps == taker_fee_bps,
    {
        let magnitude: i32 = if maker_rebate_bps < 0 { -maker_rebate_bps } else { maker_rebate_bps };
        Self::new(-magnitude, taker_fee_bps)
    }
}

impl Default for FeeSchedule {
    fn default() -> (r: Self)
        ensures
            r.maker_fee_bps == 0 && r.taker_fee_bps == 0,
    {
        Self::zero_fee()
    }
}

/// `notional × |bps|` fits in `u128` exactly when `notional` is at most the
/// per-rate bound.
proof fn lemma_bound_matches_product(notional: u128, bps: i32)
    ensures
        (notional as int * bps_magnitude(bps) as int <= u128::MAX as int) <==> (notional as int
            <= exact_bound(bps)),
{
    let m = bps_magnitude(bps) as int;
    let n = notional as int;
    let max = u128::MAX as int;
    if m != 0 {
        assert(m > 0);
        assert(n <= max / m ==> n * m <= max) by (nonlinear_arith)
            requires
                m > 0,
        ;
        assert(n * m <= max ==> n <= max / m) by (nonlinear_arith)
            requires
                m > 0,
        ;
    }
}

/// Law: where the product fits, the clamping and the fallible computations
/// agree, and both give the exact fee.
pub proof fn law_fee_paths_agree(schedule: FeeSchedule, notional: u128, is_maker: bool)
    requires
        notional as int <= exact_bound(schedule.rate(is_maker)),
    ensures
        saturated_fee(notional, schedule.rate(is_maker)) == exact_fee(notional, schedule.rate(is_maker)),
{
    lemma_bound_matches_product(notional, schedule.rate(is_maker));
}

/// Law: a fee and a rebate are never reversed in sign — a positive rate
/// never yields a negative fee and a negative rate never yields a positive
/// one, on every notional, clamped or not.
pub proof fn law_fee_sign_follows_rate(schedule: FeeSchedule, notional: u128, is_maker: bool)
    ensures
        schedule.rate(is_maker) >= 0 ==> saturated_fee(notional, schedule.rate(is_maker)) >= 0,
        schedule.rate(is_maker) <= 0 ==> saturated_fee(notional, schedule.rate(is_maker)) <= 0,
{
    let m = bps_magnitude(schedule.rate(is_maker)) as int;
    let n = notional as int;
    assert(n * m >= 0) by (nonlinear_arith)
        requires
            n >= 0,
            m >= 0,
    ;
    assert((n * m) / 10_000 >= 0);
    if m == 0 {
        assert(n * m == 0) by (nonlinear_arith)
            requires
                m == 0,
        ;
    }
}

/// Law: a zero rate charges nothing, at every notional.
pub proof fn law_zero_rate_is_free(schedule: FeeSchedule, notional: u128, is_maker: bool)
    requires
        schedule.rate(is_maker) == 0,
    ensures
        saturated_fee(notional, schedule.rate(is_maker)) == 0,
        notional as int <= exact_bound(schedule.rate(is_maker)),
{
    let n = notional as int;
    assert(n * 0 == 0);
}

} // verus!
