//! Book errors: copies and human-readable text.

use orderbook_rs::orderbook::error::OrderBookError;
use orderbook_rs::orderbook::types::{STPMode, Side};

#[test]
fn test_clone_order_not_found() {
    let error = OrderBookError::OrderNotFound("order123".to_string());
    let cloned = error.clone();
    assert!(matches!(cloned, OrderBookError::OrderNotFound(ref s) if s == "order123"));
}

#[test]
fn test_clone_invalid_price_level() {
    let error = OrderBookError::InvalidPriceLevel(12345);
    let cloned = error.clone();
    assert!(matches!(cloned, OrderBookError::InvalidPriceLevel(12345)));
}

#[test]
fn test_clone_price_crossing() {
    let error = OrderBookError::PriceCrossing {
        price: 100,
        side: Side::Buy,
        opposite_price: 99,
    };
    let cloned = error.clone();
    assert!(matches!(
        cloned,
        OrderBookError::PriceCrossing {
            price: 100,
            side: Side::Buy,
            opposite_price: 99
        }
    ));
}

#[test]
fn test_clone_insufficient_liquidity() {
    let error = OrderBookError::InsufficientLiquidity {
        side: Side::Sell,
        requested: 1000,
        available: 500,
    };
    let cloned = error.clone();
    assert!(matches!(
        cloned,
        OrderBookError::InsufficientLiquidity {
            side: Side::Sell,
            requested: 1000,
            available: 500
        }
    ));
}

#[test]
fn test_clone_invalid_operation() {
    let error = OrderBookError::InvalidOperation {
        message: "Cannot cancel filled order".to_string(),
    };
    let cloned = error.clone();
    assert!(matches!(
        cloned,
        OrderBookError::InvalidOperation { ref message } if message == "Cannot cancel filled order"
    ));
}

#[test]
fn test_clone_serialization_error() {
    let error = OrderBookError::SerializationError {
        message: "Failed to serialize".to_string(),
    };
    let cloned = error.clone();
    assert!(matches!(
        cloned,
        OrderBookError::SerializationError { ref message } if message == "Failed to serialize"
    ));
}

#[test]
fn test_clone_checksum_mismatch() {
    let error = OrderBookError::ChecksumMismatch {
        expected: "abc123".to_string(),
        actual: "def456".to_string(),
    };
    let cloned = error.clone();
    assert!(matches!(
        cloned,
        OrderBookError::ChecksumMismatch { ref expected, ref actual }
        if expected == "abc123" && actual == "def456"
    ));
}

#[test]
fn test_clone_invalid_tick_size() {
    let error = OrderBookError::InvalidTickSize {
        price: 10050,
        tick_size: 100,
    };
    let cloned = error.clone();
    assert!(matches!(
        cloned,
        OrderBookError::InvalidTickSize {
            price: 10050,
            tick_size: 100
        }
    ));
}

#[test]
fn test_clone_invalid_lot_size() {
    let error = OrderBookError::InvalidLotSize {
        quantity: 75,
        lot_size: 10,
    };
    let cloned = error.clone();
    assert!(matches!(
        cloned,
        OrderBookError::InvalidLotSize {
            quantity: 75,
            lot_size: 10
        }
    ));
}

#[test]
fn test_clone_order_size_out_of_range() {
    let error = OrderBookError::OrderSizeOutOfRange {
        quantity: 5,
        min: Some(10),
        max: Some(1000),
    };
    let cloned = error.clone();
    assert!(matches!(
        cloned,
        OrderBookError::OrderSizeOutOfRange {
            quantity: 5,
            min: Some(10),
            max: Some(1000)
        }
    ));
}


#[test]
fn test_clone_missing_user_id() {
    let order_id = 0x1234_5678u128;
    let error = OrderBookError::MissingUserId { order_id };
    let cloned = error.clone();
    assert!(matches!(cloned, OrderBookError::MissingUserId { order_id: id } if id == order_id));
}

#[test]
fn test_clone_self_trade_prevented() {
    let taker_id = 77u128;
    let user_id = 0x0101u128;
    let error = OrderBookError::SelfTradePrevented { mode: STPMode::CancelMaker, taker_order_id: taker_id, user_id };
    let cloned = error.clone();
    assert!(matches!(
        cloned,
        OrderBookError::SelfTradePrevented { mode: STPMode::CancelMaker, taker_order_id, user_id: u }
        if taker_order_id == taker_id && u == user_id
    ));
}

#[test]
fn error_texts() {
    assert_eq!(OrderBookError::OrderNotFound("x".to_string()).to_text(), "Order not found: x");
    assert_eq!(OrderBookError::InvalidPriceLevel(5).to_text(), "Invalid price level: 5");
    assert_eq!(
        OrderBookError::InvalidTickSize { price: 10050, tick_size: 100 }.to_text(),
        "invalid tick size: price 10050 is not a multiple of tick size 100"
    );
}

#[test]
fn nats_test_nats_publish_error_display() {
    let err = OrderBookError::NatsPublishError { message: "connection refused".to_string() };
    let display = err.to_text();
    assert!(display.contains("nats publish error"));
    assert!(display.contains("connection refused"));
}

#[test]
fn nats_test_nats_serialization_error_display() {
    let err = OrderBookError::NatsSerializationError { message: "invalid utf-8".to_string() };
    let display = err.to_text();
    assert!(display.contains("nats serialization error"));
    assert!(display.contains("invalid utf-8"));
}

#[test]
fn nats_book_change_test_nats_publish_error_display() {
    let err = OrderBookError::NatsPublishError { message: "timeout".to_string() };
    let display = err.to_text();
    assert!(display.contains("nats publish error"));
    assert!(display.contains("timeout"));
}

#[test]
fn nats_book_change_test_nats_serialization_error_display() {
    let err = OrderBookError::NatsSerializationError { message: "invalid data".to_string() };
    let display = err.to_text();
    assert_eq!(display, "nats serialization error: invalid data");
}
