//! Order quantities, reserve refills and the per-maker fill rule.

use orderbook_rs::orderbook::error::OrderBookError;
use orderbook_rs::orderbook::order::{check_lot_multiple, match_against, reduce_reserve_to_total, OrderQuantity};
use orderbook_rs::orderbook::types::{Order, OrderKind, Side, TimeInForce};

fn order(kind: OrderKind) -> Order {
    Order { id: 1, price: 100, side: Side::Sell, user_id: 0, timestamp: 0, time_in_force: TimeInForce::Gtc, kind }
}

fn reserve(visible: u64, hidden: u64, amount: Option<u64>) -> Order {
    order(OrderKind::Reserve { visible, hidden, replenish_threshold: 0, replenish_amount: amount, auto_replenish: true })
}

#[test]
fn reserve_refills_by_the_default_amount() {
    // Reduced to a total of 200, the visible tranche is spent and refills by
    // the default amount of 80 taken from the hidden reserve.
    let mut o = reserve(5, 200, None);
    reduce_reserve_to_total(&mut o, 200);
    assert_eq!(
        o.kind,
        OrderKind::Reserve { visible: 80, hidden: 120, replenish_threshold: 0, replenish_amount: None, auto_replenish: true }
    );
}

#[test]
fn reserve_refills_by_its_own_amount() {
    let mut o = reserve(5, 200, Some(30));
    reduce_reserve_to_total(&mut o, 200);
    assert_eq!(
        o.kind,
        OrderKind::Reserve { visible: 30, hidden: 170, replenish_threshold: 0, replenish_amount: Some(30), auto_replenish: true }
    );
}

#[test]
fn exhausted_reserve_maker_refills_by_the_default_amount() {
    let m = reserve(10, 200, None);
    let step = match_against(&m, 25);
    assert_eq!(step.consumed, 10);
    assert_eq!(step.remaining, 15);
    assert_eq!(step.hidden_reduced, 80);
    assert_eq!(
        step.updated.map(|o| o.kind),
        Some(OrderKind::Reserve { visible: 80, hidden: 120, replenish_threshold: 0, replenish_amount: None, auto_replenish: true })
    );
}

#[test]
fn standard_maker_fills_partly_or_leaves() {
    let m = order(OrderKind::Standard { quantity: 10 });
    let part = match_against(&m, 4);
    assert_eq!((part.consumed, part.remaining), (4, 0));
    assert_eq!(part.updated.map(|o| o.kind), Some(OrderKind::Standard { quantity: 6 }));
    let all = match_against(&m, 15);
    assert_eq!((all.consumed, all.remaining), (10, 5));
    assert!(all.updated.is_none());
}

#[test]
fn quantities_of_two_tranche_orders() {
    let o = order(OrderKind::Iceberg { visible: 5, hidden: 15 });
    assert_eq!(o.quantity(), 5);
    assert_eq!(o.total_quantity(), 20);
    assert_eq!(o.checked_total_quantity(), Some(20));
    let big = order(OrderKind::Iceberg { visible: u64::MAX, hidden: 1 });
    assert_eq!(big.checked_total_quantity(), None);
    assert_eq!(big.total_quantity(), u64::MAX);
    let mut s = order(OrderKind::Iceberg { visible: 5, hidden: 15 });
    s.set_quantity(7);
    assert_eq!(s.kind, OrderKind::Iceberg { visible: 7, hidden: 15 });
}

#[test]
fn lot_multiples() {
    assert!(check_lot_multiple(30, 10).is_ok());
    assert_eq!(check_lot_multiple(35, 10), Err(OrderBookError::InvalidLotSize { quantity: 35, lot_size: 10 }));
    assert!(check_lot_multiple(0, 0).is_ok());
    assert!(check_lot_multiple(1, 0).is_err());
}
