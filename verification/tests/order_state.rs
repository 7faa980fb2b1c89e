//! Order statuses, cancel reasons and the lifecycle tracker.

use orderbook_rs::orderbook::order_state::{CancelReason, OrderStateTracker, OrderStatus};
use orderbook_rs::orderbook::reject_reason::RejectReason;

#[test]
fn test_cancel_reason_display() {
    assert_eq!(CancelReason::UserRequested.to_text(), "user requested");
    assert_eq!(CancelReason::SelfTradePrevention.to_text(), "self-trade prevention");
    assert_eq!(CancelReason::InsufficientLiquidity.to_text(), "insufficient liquidity");
    assert_eq!(CancelReason::MassCancelAll.to_text(), "mass cancel all");
    assert_eq!(CancelReason::MassCancelBySide.to_text(), "mass cancel by side");
    assert_eq!(CancelReason::MassCancelByUser.to_text(), "mass cancel by user");
    assert_eq!(CancelReason::MassCancelByPriceRange.to_text(), "mass cancel by price range");
    assert_eq!(CancelReason::TimeInForceExpired.to_text(), "time-in-force expired");
}

#[test]
fn test_order_status_is_terminal() {
    assert!(!OrderStatus::Open.is_terminal());
    assert!(!OrderStatus::PartiallyFilled { original_quantity: 100, filled_quantity: 50 }.is_terminal());
    assert!(OrderStatus::Filled { filled_quantity: 100 }.is_terminal());
    assert!(OrderStatus::Cancelled { filled_quantity: 0, reason: CancelReason::UserRequested }.is_terminal());
    assert!(OrderStatus::Rejected { reason: RejectReason::Other(0) }.is_terminal());
}

#[test]
fn test_order_status_is_active() {
    assert!(OrderStatus::Open.is_active());
    assert!(OrderStatus::PartiallyFilled { original_quantity: 100, filled_quantity: 50 }.is_active());
    assert!(!OrderStatus::Filled { filled_quantity: 100 }.is_active());
    assert!(!OrderStatus::Cancelled { filled_quantity: 0, reason: CancelReason::UserRequested }.is_active());
}

#[test]
fn test_order_status_filled_quantity() {
    assert_eq!(OrderStatus::Open.filled_quantity(), 0);
    assert_eq!(OrderStatus::PartiallyFilled { original_quantity: 100, filled_quantity: 30 }.filled_quantity(), 30);
    assert_eq!(OrderStatus::Filled { filled_quantity: 100 }.filled_quantity(), 100);
    assert_eq!(
        OrderStatus::Cancelled { filled_quantity: 20, reason: CancelReason::UserRequested }.filled_quantity(),
        20
    );
    assert_eq!(OrderStatus::Rejected { reason: RejectReason::InvalidPrice }.filled_quantity(), 0);
}

#[test]
fn test_order_status_display() {
    assert_eq!(OrderStatus::Open.to_text(), "Open");
    assert_eq!(
        OrderStatus::PartiallyFilled { original_quantity: 100, filled_quantity: 30 }.to_text(),
        "PartiallyFilled(30/100)"
    );
    assert_eq!(OrderStatus::Filled { filled_quantity: 100 }.to_text(), "Filled(100)");
    assert_eq!(
        OrderStatus::Cancelled { filled_quantity: 0, reason: CancelReason::UserRequested }.to_text(),
        "Cancelled(user requested, filled=0)"
    );
    assert_eq!(OrderStatus::Rejected { reason: RejectReason::InvalidPrice }.to_text(), "Rejected(invalid price)");
}

#[test]
fn test_tracker_new_is_empty() {
    let tracker = OrderStateTracker::new();
    assert!(tracker.is_empty());
    assert_eq!(tracker.len(), 0);
}

#[test]
fn test_tracker_transition_and_get() {
    let mut tracker = OrderStateTracker::new();
    let id = 1u128;
    tracker.transition(id, OrderStatus::Open);
    let status = tracker.get(id);
    assert!(status.is_some());
    assert_eq!(status, Some(OrderStatus::Open));
    assert_eq!(tracker.len(), 1);
}

#[test]
fn test_tracker_lifecycle_open_to_filled() {
    let mut tracker = OrderStateTracker::new();
    let id = 2u128;
    tracker.transition(id, OrderStatus::Open);
    tracker.transition(id, OrderStatus::PartiallyFilled { original_quantity: 100, filled_quantity: 50 });
    tracker.transition(id, OrderStatus::Filled { filled_quantity: 100 });
    assert_eq!(tracker.get(id), Some(OrderStatus::Filled { filled_quantity: 100 }));
}

#[test]
fn test_tracker_lifecycle_open_to_cancelled() {
    let mut tracker = OrderStateTracker::new();
    let id = 3u128;
    tracker.transition(id, OrderStatus::Open);
    tracker.transition(id, OrderStatus::Cancelled { filled_quantity: 0, reason: CancelReason::UserRequested });
    assert!(matches!(tracker.get(id), Some(OrderStatus::Cancelled { .. })));
}

#[test]
fn test_tracker_rejected_order() {
    let mut tracker = OrderStateTracker::new();
    let id = 4u128;
    tracker.transition(id, OrderStatus::Rejected { reason: RejectReason::InvalidPrice });
    assert!(matches!(tracker.get(id), Some(OrderStatus::Rejected { .. })));
}

#[test]
fn test_tracker_unknown_order_returns_none() {
    let tracker = OrderStateTracker::new();
    assert!(tracker.get(99).is_none());
}

#[test]
fn test_tracker_retention_evicts_oldest() {
    let mut tracker = OrderStateTracker::with_capacity(3);
    for id in 0u128..5 {
        tracker.transition(id, OrderStatus::Filled { filled_quantity: 100 });
    }
    assert!(tracker.len() <= 3);
    assert!(tracker.get(0).is_none());
    assert!(tracker.get(4).is_some());
}

#[test]
fn test_tracker_active_orders_not_evicted() {
    let mut tracker = OrderStateTracker::with_capacity(2);
    let active_id = 100u128;
    tracker.transition(active_id, OrderStatus::Open);
    for id in 0u128..5 {
        tracker.transition(id, OrderStatus::Cancelled { filled_quantity: 0, reason: CancelReason::MassCancelAll });
    }
    assert_eq!(tracker.get(active_id), Some(OrderStatus::Open));
}

#[test]
fn test_tracker_clear() {
    let mut tracker = OrderStateTracker::new();
    let id = 5u128;
    tracker.transition(id, OrderStatus::Open);
    assert!(!tracker.is_empty());
    tracker.clear();
    assert!(tracker.is_empty());
    assert!(tracker.get(id).is_none());
}

#[test]
fn transition_returns_the_previous_status() {
    let mut tracker = OrderStateTracker::new();
    assert_eq!(tracker.transition(6, OrderStatus::Open), None);
    assert_eq!(
        tracker.transition(6, OrderStatus::Filled { filled_quantity: 10 }),
        Some(OrderStatus::Open)
    );
    let history = tracker.get_history(6).expect("history");
    assert_eq!(history.len(), 2);
    assert_eq!(history[1].1, OrderStatus::Filled { filled_quantity: 10 });
}

#[test]
fn counts_split_active_and_terminal() {
    let mut tracker = OrderStateTracker::new();
    tracker.transition(1, OrderStatus::Open);
    tracker.transition(2, OrderStatus::Filled { filled_quantity: 1 });
    assert_eq!(tracker.active_count(), 1);
    assert_eq!(tracker.terminal_count(), 1);
}
