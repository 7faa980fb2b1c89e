//! The best-price cache.

use orderbook_rs::orderbook::cache::PriceLevelCache;

#[test]
fn test_reading_one_side_does_not_evict_the_other() {
    let mut cache = PriceLevelCache::new();
    cache.update_best_bid(Some(100));
    assert_eq!(cache.get_cached_best_bid(), Some(100));
    cache.update_best_ask(Some(110));
    assert_eq!(
        cache.get_cached_best_bid(),
        Some(100),
        "bid slot must survive an ask-side update"
    );
    assert_eq!(cache.get_cached_best_ask(), Some(110));
}

#[test]
fn test_price_zero_is_cacheable() {
    let mut cache = PriceLevelCache::new();
    cache.update_best_bid(Some(0));
    assert_eq!(
        cache.get_cached_best_bid(),
        Some(0),
        "a genuine best level at price 0 must be a cache hit, not treated as absent"
    );
    cache.update_best_ask(Some(0));
    assert_eq!(cache.get_cached_best_ask(), Some(0));
}

#[test]
fn test_empty_side_is_a_miss_and_does_not_touch_the_other() {
    let mut cache = PriceLevelCache::new();
    cache.update_best_bid(Some(100));
    cache.update_best_ask(None);
    assert_eq!(cache.get_cached_best_ask(), None);
    assert_eq!(cache.get_cached_best_bid(), Some(100));
}

#[test]
fn test_invalidate_clears_both_sides() {
    let mut cache = PriceLevelCache::new();
    cache.update_best_bid(Some(100));
    cache.update_best_ask(Some(110));
    cache.invalidate();
    assert_eq!(cache.get_cached_best_bid(), None);
    assert_eq!(cache.get_cached_best_ask(), None);
}

#[test]
fn new_cache_misses_both_sides() {
    let cache = PriceLevelCache::new();
    assert_eq!(cache.get_cached_best_bid(), None);
    assert_eq!(cache.get_cached_best_ask(), None);
}
