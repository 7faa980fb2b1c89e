//! Matching budgets: how a sweep measures what it still has to fill.
//!
//! `BaseQty` counts base-asset quantity (market and limit orders);
//! `QuoteAmount` counts quote notional (`quoteOrderQty` market orders).

use vstd::prelude::*;

verus! {

/// How the matching loop measures its budget.
#[derive(Debug, Clone, Copy, PartialEq, Eq)]
pub enum MatchMode {
    /// Base-quantity match; `limit_price` is `None` for market orders.
    BaseQty {
        /// Total base-asset quantity to match.
        quantity: u64,
        /// Optional price ceiling (Buy) / floor (Sell).
        limit_price: Option<u128>,
    },
    /// Quote-notional match (market only).
    QuoteAmount {
        /// Total quote-asset value to consume.
        amount: u128,
    },
}

impl MatchMode {
    /// The limit-price guard of the walk: `None` on every market path.
    pub fn limit_price(&self) -> (r: Option<u128>)
        ensures
            r == match *self {
                MatchMode::BaseQty { limit_price, .. } => limit_price,
                MatchMode::QuoteAmount { .. } => None,
            },
    {
        match self {
            MatchMode::BaseQty { limit_price, .. } => *limit_price,
            MatchMode::QuoteAmount { .. } => None,
        }
    }

    /// The initial quantity slot of the match result: the base quantity, or
    /// `u64::MAX` as a working bound on the notional path.
    pub fn initial_match_quantity(&self) -> (r: u64)
        ensures
            r == match *self {
                MatchMode::BaseQty { quantity, .. } => quantity,
                MatchMode::QuoteAmount { .. } => u64::MAX,
            },
    {
        match self {
            MatchMode::BaseQty { quantity, .. } => *quantity,
            MatchMode::QuoteAmount { .. } => u64::MAX,
        }
    }
}

/// The remaining budget of a sweep.
#[derive(Debug, Clone, Copy, PartialEq, Eq)]
pub enum StopCondition {
    /// Base-quantity remaining.
    BaseQty {
        /// Base quantity left to fill.
        remaining: u64,
    },
    /// Quote-notional remaining.
    QuoteAmount {
        /// Quote value left to consume.
        remaining: u128,
    },
}

/// Round `raw` down to a whole number of lots; `lot <= 1` means no rounding.
pub open spec fn lot_round_down(raw: int, lot: int) -> int {
    if lot <= 1 { raw } else { raw - raw % lot }
}

/// The per-level base-quantity cap of a budget at `level_price` with `lot`.
pub open spec fn spec_level_qty_cap(s: StopCondition, level_price: u128, lot: u64) -> int {
    match s {
        StopCondition::BaseQty { remaining } => lot_round_down(remaining as int, lot as int),
        StopCondition::QuoteAmount { remaining } => {
            if level_price == 0 || remaining < level_price {
                0
            } else {
                let units = remaining as int / level_price as int;
                let capped = if units > u64::MAX as int { u64::MAX as int } else { units };
                lot_round_down(capped, lot as int)
            }
        },
    }
}

/// The budget left after executing `qty` at `price` (saturating at zero).
pub open spec fn spec_consume(s: StopCondition, qty: u64, price: u128) -> StopCondition {
    match s {
        StopCondition::BaseQty { remaining } => StopCondition::BaseQty {
            remaining: if remaining >= qty { (remaining - qty) as u64 } else { 0 },
        },
        StopCondition::QuoteAmount { remaining } => {
            let spent = price as int * qty as int;
            StopCondition::QuoteAmount {
                remaining: if remaining as int >= spent { (remaining - spent) as u128 } else { 0 },
            }
        },
    }
}

/// Whether a budget is exhausted.
pub open spec fn spec_is_done(s: StopCondition) -> bool {
    match s {
        StopCondition::BaseQty { remaining } => remaining == 0,
        StopCondition::QuoteAmount { remaining } => remaining == 0,
    }
}

impl StopCondition {
    /// A fresh budget for a matching mode.
    pub fn from_mode(mode: &MatchMode) -> (r: Self)
        ensures
            r == match *mode {
                MatchMode::BaseQty { quantity, .. } => StopCondition::BaseQty { remaining: quantity },
                MatchMode::QuoteAmount { amount } => StopCondition::QuoteAmount { remaining: amount },
            },
    {
        match mode {
            MatchMode::BaseQty { quantity, .. } => StopCondition::BaseQty { remaining: *quantity },
            MatchMode::QuoteAmount { amount } => StopCondition::QuoteAmount { remaining: *amount },
        }
    }

    /// The base quantity this budget may take at a level priced
    /// `level_price`, rounded down to a multiple of `lot` (no rounding for
    /// `lot <= 1`). For a notional budget it is `remaining / level_price`
    /// capped at `u64::MAX`, and `0` when the price is zero or above the
    /// remaining notional. Zero tells the walk to stop.
    pub fn level_qty_cap(&self, level_price: u128, lot: u64) -> (r: u64)
        ensures
            r == spec_level_qty_cap(*self, level_price, lot),
    {
        let raw: u64 = match self {
            StopCondition::BaseQty { remaining } => *remaining,
            StopCondition::QuoteAmount { remaining } => {
                if level_price == 0 || *remaining < level_price {
                    return 0;
                }
                let units = *remaining / level_price;
                if units > u64::MAX as u128 {
                    u64::MAX
                } else {
                    units as u64
                }
            },
        };
        proof { lemma_lot_round(raw as int, lot as int); }
        if lot <= 1 {
            raw
        } else {
            raw - (raw % lot)
        }
    }

    /// Decrement the budget by what was executed at `level_price`,
    /// saturating at zero. A notional budget spends `price × qty`.
    pub fn consume(&mut self, executed_qty: u64, level_price: u128)
        ensures
            *final(self) == spec_consume(*old(self), executed_qty, level_price),
    {
        match self {
            StopCondition::BaseQty { remaining } => {
                *remaining = remaining.saturating_sub(executed_qty);
            },
            StopCondition::QuoteAmount { remaining } => {
                let spent = saturating_mul_u128(level_price, executed_qty as u128);
                *remaining = remaining.saturating_sub(spent);
                proof {
                    if (level_price as int * executed_qty as int) > u128::MAX as int {
                        assert(spent == u128::MAX);
                    }
                }
            },
        }
    }

    /// `true` once no further fills are needed.
    pub fn is_done(&self) -> (r: bool)
        ensures
            r == spec_is_done(*self),
    {
        match self {
            StopCondition::BaseQty { remaining } => *remaining == 0,
            StopCondition::QuoteAmount { remaining } => *remaining == 0,
        }
    }
}

/// `a × b`, saturating at `u128::MAX`.
pub fn saturating_mul_u128(a: u128, b: u128) -> (r: u128)
    ensures
        r == if a as int * b as int > u128::MAX as int { u128::MAX as int } else { a as int * b as int },
{
    match a.checked_mul(b) {
        Some(p) => p,
        None => u128::MAX,
    }
}

/// Rounding down to lots stays within `[0, raw]` and lands on a multiple of
/// the lot.
pub proof fn lemma_lot_round(raw: int, lot: int)
    requires
        raw >= 0,
    ensures
        0 <= lot_round_down(raw, lot) <= raw,
        lot > 1 ==> lot_round_down(raw, lot) % lot == 0,
{
    if lot > 1 {
        vstd::arithmetic::div_mod::lemma_fundamental_div_mod(raw, lot);
        vstd::arithmetic::div_mod::lemma_mod_pos_bound(raw, lot);
        let q = raw / lot;
        assert(raw - raw % lot == q * lot) by (nonlinear_arith)
            requires
                raw == lot * q + raw % lot,
        ;
        vstd::arithmetic::div_mod::lemma_mod_multiples_basic(q, lot);
    }
}

/// Law: the cap never exceeds what the budget allows — a base cap is at most
/// the remaining quantity, a notional cap buys at most the remaining
/// notional — and it is a whole number of lots.
pub proof fn law_level_cap_within_budget(s: StopCondition, level_price: u128, lot: u64)
    ensures
        0 <= spec_level_qty_cap(s, level_price, lot) <= u64::MAX,
        lot > 1 ==> spec_level_qty_cap(s, level_price, lot) % (lot as int) == 0,
        s matches StopCondition::BaseQty { remaining } ==> spec_level_qty_cap(s, level_price, lot)
            <= remaining,
        s matches StopCondition::QuoteAmount { remaining } ==> spec_level_qty_cap(
            s,
            level_price,
            lot,
        ) * level_price <= remaining,
{
    let c = spec_level_qty_cap(s, level_price, lot);
    if lot > 1 {
        assert(0int % (lot as int) == 0);
    }
    match s {
        StopCondition::BaseQty { remaining } => {
            lemma_lot_round(remaining as int, lot as int);
        },
        StopCondition::QuoteAmount { remaining } => {
            if level_price != 0 && remaining >= level_price {
                let units = remaining as int / level_price as int;
                let capped = if units > u64::MAX as int { u64::MAX as int } else { units };
                assert(units >= 0);
                lemma_lot_round(capped, lot as int);
                assert(units * level_price <= remaining) by (nonlinear_arith)
                    requires
                        units == remaining as int / level_price as int,
                        level_price > 0,
                ;
                assert(0 <= c <= units);
                assert(c * level_price <= units * level_price) by (nonlinear_arith)
                    requires
                        0 <= c <= units,
                        level_price >= 0,
                ;
            }
        },
    }
}

/// Law: consuming exactly the cap of a base budget leaves the budget minus
/// the cap, so a budget is never consumed past what was filled.
pub proof fn law_consume_base_is_exact(remaining: u64, executed: u64, price: u128)
    requires
        executed <= remaining,
    ensures
        spec_consume(StopCondition::BaseQty { remaining }, executed, price) == (StopCondition::BaseQty {
            remaining: (remaining - executed) as u64,
        }),
{
}

} // verus!
