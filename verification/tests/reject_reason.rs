//! Rejection reasons: wire codes, text and the mapping from book errors.

use orderbook_rs::orderbook::error::OrderBookError;
use orderbook_rs::orderbook::reject_reason::RejectReason;
use orderbook_rs::orderbook::types::{STPMode, Side};

fn named_variants() -> [RejectReason; 13] {
    [
        RejectReason::KillSwitchActive,
        RejectReason::RiskMaxOpenOrders,
        RejectReason::RiskMaxNotional,
        RejectReason::RiskPriceBand,
        RejectReason::PostOnlyWouldCross,
        RejectReason::SelfTradePrevention,
        RejectReason::InvalidPrice,
        RejectReason::InvalidQuantity,
        RejectReason::InvalidPriceLevel,
        RejectReason::OrderSizeOutOfRange,
        RejectReason::MissingUserId,
        RejectReason::DuplicateOrderId,
        RejectReason::InsufficientLiquidity,
    ]
}

#[test]
fn test_discriminants_are_stable() {
    assert_eq!(RejectReason::KillSwitchActive.as_u16(), 1);
    assert_eq!(RejectReason::RiskMaxOpenOrders.as_u16(), 2);
    assert_eq!(RejectReason::RiskMaxNotional.as_u16(), 3);
    assert_eq!(RejectReason::RiskPriceBand.as_u16(), 4);
    assert_eq!(RejectReason::PostOnlyWouldCross.as_u16(), 5);
    assert_eq!(RejectReason::SelfTradePrevention.as_u16(), 6);
    assert_eq!(RejectReason::InvalidPrice.as_u16(), 7);
    assert_eq!(RejectReason::InvalidQuantity.as_u16(), 8);
    assert_eq!(RejectReason::InvalidPriceLevel.as_u16(), 9);
    assert_eq!(RejectReason::OrderSizeOutOfRange.as_u16(), 10);
    assert_eq!(RejectReason::MissingUserId.as_u16(), 11);
    assert_eq!(RejectReason::DuplicateOrderId.as_u16(), 12);
    assert_eq!(RejectReason::InsufficientLiquidity.as_u16(), 13);
}

#[test]
fn test_other_passthrough() {
    assert_eq!(RejectReason::Other(0).as_u16(), 0);
    assert_eq!(RejectReason::Other(7777).as_u16(), 7777);
    assert_eq!(RejectReason::Other(u16::MAX).as_u16(), u16::MAX);
}

#[test]
fn test_display_reads_human_text() {
    for reason in named_variants() {
        let text = reason.to_text();
        assert!(!text.is_empty(), "Display for {reason:?} produced empty");
    }
    assert_eq!(RejectReason::KillSwitchActive.to_text(), "kill switch active");
    assert_eq!(RejectReason::Other(42).to_text(), "other(42)");
}

#[test]
fn test_from_order_book_error_kill_switch_maps_to_kill_switch_active() {
    let err = OrderBookError::KillSwitchActive;
    assert_eq!(RejectReason::from(&err), RejectReason::KillSwitchActive);
}

#[test]
fn test_from_order_book_error_invalid_price_level_maps_to_invalid_price_level() {
    let err = OrderBookError::InvalidPriceLevel(42);
    assert_eq!(RejectReason::from(&err), RejectReason::InvalidPriceLevel);
}

#[test]
fn test_from_order_book_error_order_size_out_of_range() {
    let err = OrderBookError::OrderSizeOutOfRange { quantity: 0, min: Some(1), max: Some(100) };
    assert_eq!(RejectReason::from(&err), RejectReason::OrderSizeOutOfRange);
}

#[test]
fn test_from_order_book_error_missing_user_id() {
    let err = OrderBookError::MissingUserId { order_id: 7 };
    assert_eq!(RejectReason::from(&err), RejectReason::MissingUserId);
}

#[test]
fn test_from_order_book_error_self_trade_prevented_maps_to_self_trade_prevention() {
    let err = OrderBookError::SelfTradePrevented { mode: STPMode::CancelTaker, taker_order_id: 9, user_id: 1 };
    assert_eq!(RejectReason::from(&err), RejectReason::SelfTradePrevention);
}

#[test]
fn test_from_order_book_error_price_crossing_maps_to_post_only_would_cross() {
    let err = OrderBookError::PriceCrossing { price: 100, side: Side::Buy, opposite_price: 99 };
    assert_eq!(RejectReason::from(&err), RejectReason::PostOnlyWouldCross);
}

#[test]
fn test_from_order_book_error_invalid_tick_size_maps_to_invalid_price() {
    let err = OrderBookError::InvalidTickSize { price: 150, tick_size: 100 };
    assert_eq!(RejectReason::from(&err), RejectReason::InvalidPrice);
}

#[test]
fn test_from_order_book_error_invalid_lot_size_maps_to_invalid_quantity() {
    let err = OrderBookError::InvalidLotSize { quantity: 75, lot_size: 10 };
    assert_eq!(RejectReason::from(&err), RejectReason::InvalidQuantity);
}

#[test]
fn test_from_order_book_error_insufficient_liquidity() {
    let err = OrderBookError::InsufficientLiquidity { side: Side::Buy, requested: 100, available: 50 };
    assert_eq!(RejectReason::from(&err), RejectReason::InsufficientLiquidity);
}

#[test]
fn test_from_order_book_error_serialization_error_maps_to_other_zero() {
    let err = OrderBookError::SerializationError { message: "oops".to_string() };
    assert_eq!(RejectReason::from(&err), RejectReason::Other(0));
}

#[test]
fn test_from_order_book_error_internal_state_errors_map_to_other_zero() {
    let cases = [
        OrderBookError::OrderNotFound("x".to_string()),
        OrderBookError::InvalidOperation { message: "nope".to_string() },
        OrderBookError::DeserializationError { message: "bad".to_string() },
        OrderBookError::ChecksumMismatch { expected: "a".to_string(), actual: "b".to_string() },
    ];
    for err in cases {
        assert_eq!(RejectReason::from(&err), RejectReason::Other(0), "{err:?} should map to Other(0)");
    }
}

#[test]
fn shape_errors_map_to_invalid_quantity_and_duplicates_to_their_reason() {
    assert_eq!(
        RejectReason::from_error(&OrderBookError::QuantityOverflow { visible: u64::MAX, hidden: 1 }),
        RejectReason::InvalidQuantity
    );
    assert_eq!(
        RejectReason::from_error(&OrderBookError::ZeroVisibleTranche { order_id: 1, hidden_quantity: 5 }),
        RejectReason::InvalidQuantity
    );
    assert_eq!(
        RejectReason::from_error(&OrderBookError::DuplicateOrderId { order_id: 1 }),
        RejectReason::DuplicateOrderId
    );
}

#[test]
fn every_reason_has_its_text() {
    assert_eq!(RejectReason::RiskMaxOpenOrders.to_text(), "risk: max open orders");
    assert_eq!(RejectReason::PostOnlyWouldCross.to_text(), "post-only would cross");
    assert_eq!(RejectReason::InsufficientLiquidity.to_text(), "insufficient liquidity");
    assert_eq!(RejectReason::Other(0).to_text(), "other(0)");
}
