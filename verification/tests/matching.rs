//! Sweep budgets: per-level caps, consumption and completion.

use orderbook_rs::orderbook::matching::StopCondition;

#[test]
fn test_base_qty_cap_no_lot_returns_remaining() {
    let stop = StopCondition::BaseQty { remaining: 1_000 };
    assert_eq!(stop.level_qty_cap(100, 1), 1_000);
}

#[test]
fn test_base_qty_cap_rounds_down_to_lot() {
    let stop = StopCondition::BaseQty { remaining: 1_005 };
    // lot=100 ⇒ 1_005 - (1_005 % 100) = 1_005 - 5 = 1_000
    assert_eq!(stop.level_qty_cap(50, 100), 1_000);
}

#[test]
fn test_base_qty_cap_zero_when_below_lot() {
    let stop = StopCondition::BaseQty { remaining: 5 };
    assert_eq!(stop.level_qty_cap(50, 100), 0);
}

#[test]
fn test_quote_amount_cap_basic() {
    // 10_000 / 100 = 100 base
    let stop = StopCondition::QuoteAmount { remaining: 10_000 };
    assert_eq!(stop.level_qty_cap(100, 1), 100);
}

#[test]
fn test_quote_amount_cap_dust_below_one_unit() {
    // remaining < level_price ⇒ 0
    let stop = StopCondition::QuoteAmount { remaining: 50 };
    assert_eq!(stop.level_qty_cap(100, 1), 0);
}

#[test]
fn test_quote_amount_cap_lot_rounds_down() {
    // 1_400 / 100 = 14, lot=10 ⇒ 14 - (14 % 10) = 10
    let stop = StopCondition::QuoteAmount { remaining: 1_400 };
    assert_eq!(stop.level_qty_cap(100, 10), 10);
}

#[test]
fn test_quote_amount_cap_zero_when_below_one_full_lot() {
    // 1_400 / 1_000 = 1, lot=10 ⇒ 1 - (1 % 10) = 0
    let stop = StopCondition::QuoteAmount { remaining: 1_400 };
    assert_eq!(stop.level_qty_cap(1_000, 10), 0);
}

#[test]
fn test_quote_amount_cap_zero_price_is_zero_cap() {
    // Adversarial input: zero price should not divide-by-zero.
    let stop = StopCondition::QuoteAmount { remaining: 1_000 };
    assert_eq!(stop.level_qty_cap(0, 1), 0);
}

#[test]
fn test_quote_amount_cap_saturates_to_u64_max() {
    // remaining = u128::MAX, level_price = 1 ⇒ derived qty would
    // exceed u64::MAX; must saturate at u64::MAX.
    let stop = StopCondition::QuoteAmount {
        remaining: u128::MAX,
    };
    assert_eq!(stop.level_qty_cap(1, 1), u64::MAX);
}

#[test]
fn test_consume_base_qty_subtracts_executed() {
    let mut stop = StopCondition::BaseQty { remaining: 100 };
    stop.consume(30, 999);
    assert!(matches!(stop, StopCondition::BaseQty { remaining: 70 }));
}

#[test]
fn test_consume_base_qty_saturates() {
    let mut stop = StopCondition::BaseQty { remaining: 5 };
    stop.consume(10, 999);
    assert!(matches!(stop, StopCondition::BaseQty { remaining: 0 }));
}

#[test]
fn test_consume_quote_amount_deducts_price_times_qty() {
    let mut stop = StopCondition::QuoteAmount { remaining: 10_000 };
    stop.consume(30, 100); // spent = 100 * 30 = 3_000
    assert!(matches!(
        stop,
        StopCondition::QuoteAmount { remaining: 7_000 }
    ));
}

#[test]
fn test_consume_quote_amount_saturates() {
    let mut stop = StopCondition::QuoteAmount { remaining: 100 };
    stop.consume(10, 1_000); // spent = 10_000 > 100, saturates
    assert!(matches!(stop, StopCondition::QuoteAmount { remaining: 0 }));
}

#[test]
fn test_is_done_base_qty() {
    assert!(StopCondition::BaseQty { remaining: 0 }.is_done());
    assert!(!StopCondition::BaseQty { remaining: 1 }.is_done());
}

#[test]
fn test_is_done_quote_amount() {
    assert!(StopCondition::QuoteAmount { remaining: 0 }.is_done());
    assert!(!StopCondition::QuoteAmount { remaining: 1 }.is_done());
}

