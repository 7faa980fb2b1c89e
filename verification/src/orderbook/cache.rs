//! A cache of the best bid and ask prices, each slot valid or not.

use vstd::prelude::*;

verus! {

/// Cached best prices; a slot is a hit only while it is valid.
#[derive(Debug, Default)]
pub struct PriceLevelCache {
    best_bid_price: u128,
    best_ask_price: u128,
    bid_valid: bool,
    ask_valid: bool,
}

impl PriceLevelCache {
    /// What a best-bid read returns.
    pub closed spec fn cached_bid(&self) -> Option<u128> {
        if self.bid_valid { Some(self.best_bid_price) } else { None }
    }

    /// What a best-ask read returns.
    pub closed spec fn cached_ask(&self) -> Option<u128> {
        if self.ask_valid { Some(self.best_ask_price) } else { None }
    }

    /// An empty cache: both slots miss.
    pub fn new() -> (r: Self)
        ensures
            r.cached_bid() is None,
            r.cached_ask() is None,
    {
        PriceLevelCache { best_bid_price: 0, best_ask_price: 0, bid_valid: false, ask_valid: false }
    }

    /// Invalidate both slots.
    pub fn invalidate(&mut self)
        ensures
            final(self).cached_bid() is None,
            final(self).cached_ask() is None,
    {
        self.bid_valid = false;
        self.ask_valid = false;
    }

    /// The cached best bid, if valid.
    pub fn get_cached_best_bid(&self) -> (r: Option<u128>)
        ensures
            r == self.cached_bid(),
    {
        if self.bid_valid { Some(self.best_bid_price) } else { None }
    }

    /// The cached best ask, if valid.
    pub fn get_cached_best_ask(&self) -> (r: Option<u128>)
        ensures
            r == self.cached_ask(),
    {
        if self.ask_valid { Some(self.best_ask_price) } else { None }
    }

    /// Store a best bid (`None` invalidates the bid slot); the ask slot is
    /// untouched.
    pub fn update_best_bid(&mut self, best_bid: Option<u128>)
        ensures
            final(self).cached_bid() == best_bid,
            final(self).cached_ask() == old(self).cached_ask(),
    {
        match best_bid {
            Some(price) => {
                self.best_bid_price = price;
                self.bid_valid = true;
            },
            None => self.bid_valid = false,
        }
    }

    /// Store a best ask (`None` invalidates the ask slot); the bid slot is
    /// untouched.
    pub fn update_best_ask(&mut self, best_ask: Option<u128>)
        ensures
            final(self).cached_ask() == best_ask,
            final(self).cached_bid() == old(self).cached_bid(),
    {
        match best_ask {
            Some(price) => {
                self.best_ask_price = price;
                self.ask_valid = true;
            },
            None => self.ask_valid = false,
        }
    }
}

} // verus!
