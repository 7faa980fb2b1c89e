//! FIX field conversions and FIX messages applied to a book.

use orderbook_rs::fix::convert::{cl_ord_id_to_id, parse_qty};
use orderbook_rs::fix::tags;
use orderbook_rs::fix::{
    apply_fix_message, fix_side, fix_time_in_force, price_to_ticks, FixBridgeError, FixConversionError, FixMessage,
    FixMsgType, FixOutcome,
};
use orderbook_rs::orderbook::book::OrderBook;
use orderbook_rs::orderbook::types::{Side, TimeInForce};

const BEGIN_STRING: u32 = 8;

fn new_book() -> OrderBook<orderbook_rs::orderbook::clock::MonotonicClock> {
    OrderBook::new("TEST")
}

fn new_order_msg(side: &str, qty: &str, ord_type: &str, price: &str) -> FixMessage {
    let mut m = FixMessage::new();
    m.push(BEGIN_STRING, "FIX.4.4");
    m.push(tags::MSG_TYPE, "D");
    m.push(tags::CL_ORD_ID, "ORD-1");
    m.push(tags::SIDE, side);
    m.push(tags::ORDER_QTY, qty);
    m.push(tags::ORD_TYPE, ord_type);
    m.push(tags::PRICE, price);
    m.push(tags::TIME_IN_FORCE, "1");
    m
}

#[test]
fn fix_side_maps_1_buy_2_sell() {
    assert_eq!(fix_side("1"), Ok(Side::Buy));
    assert_eq!(fix_side("2"), Ok(Side::Sell));
    assert!(fix_side("3").is_err());
}

#[test]
fn time_in_force_maps_standard_codes() {
    assert_eq!(fix_time_in_force("1"), Ok(TimeInForce::Gtc));
    assert_eq!(fix_time_in_force("3"), Ok(TimeInForce::Ioc));
    assert_eq!(fix_time_in_force("4"), Ok(TimeInForce::Fok));
    assert_eq!(fix_time_in_force("0"), Ok(TimeInForce::Day));
    assert!(fix_time_in_force("2").is_err());
}

#[test]
fn gtd_code_maps_to_zero_deadline_and_errors_carry_the_value() {
    assert_eq!(fix_time_in_force("6"), Ok(TimeInForce::Gtd(0)));
    assert_eq!(
        fix_time_in_force("9"),
        Err(FixConversionError::UnrecognisedValue { tag: 59, value: "9".to_string() })
    );
    assert_eq!(
        fix_side("11"),
        Err(FixConversionError::UnrecognisedValue { tag: 54, value: "11".to_string() })
    );
}

#[test]
fn price_to_ticks_whole_and_fractional() {
    assert_eq!(price_to_ticks("100", 1).unwrap(), 100);
    assert_eq!(price_to_ticks("100.5", 10).unwrap(), 1005);
    assert_eq!(price_to_ticks("0.5", 10).unwrap(), 5);
}

#[test]
fn price_to_ticks_rounds_excess_fraction() {
    assert_eq!(price_to_ticks("100.55", 10).unwrap(), 1005);
}

#[test]
fn price_to_ticks_rejects_bad_input() {
    assert!(price_to_ticks("abc", 1).is_err());
    assert!(price_to_ticks("-5", 1).is_err());
    assert!(price_to_ticks("", 1).is_err());
}

#[test]
fn price_to_ticks_edge_cases() {
    // A fraction is padded to the tick grid.
    assert_eq!(price_to_ticks("1.5", 100).unwrap(), 150);
    assert_eq!(price_to_ticks("7", 1000).unwrap(), 7000);
    // A tick size that is no power of ten takes whole units.
    assert_eq!(price_to_ticks("12.9", 25).unwrap(), 12);
    // A trailing dot is an empty fraction.
    assert_eq!(price_to_ticks("12.", 1).unwrap(), 12);
    // A second dot, a missing whole part, and overflow are all invalid.
    assert_eq!(price_to_ticks("1.2.3", 1), Err(FixConversionError::InvalidPrice("1.2.3".to_string())));
    assert!(price_to_ticks(".5", 10).is_err());
    assert!(price_to_ticks("340282366920938463463374607431768211456", 1).is_err());
    assert_eq!(price_to_ticks("340282366920938463463374607431768211455", 1).unwrap(), u128::MAX);
}

#[test]
fn parse_qty_accepts_plus_and_rejects_junk() {
    assert_eq!(parse_qty("100"), Ok(100));
    assert_eq!(parse_qty("+7"), Ok(7));
    assert_eq!(parse_qty("18446744073709551615"), Ok(u64::MAX));
    assert_eq!(
        parse_qty("18446744073709551616"),
        Err(FixConversionError::InvalidNumber { tag: 38, value: "18446744073709551616".to_string() })
    );
    assert!(parse_qty("+").is_err());
    assert!(parse_qty("-1").is_err());
    assert!(parse_qty("").is_err());
}

#[test]
fn cl_ord_id_is_deterministic() {
    let a = cl_ord_id_to_id("ORDER-42");
    let b = cl_ord_id_to_id("ORDER-42");
    let c = cl_ord_id_to_id("ORDER-43");
    assert_eq!(a, b);
    assert_ne!(a, c);
}

#[test]
fn cl_ord_id_is_fnv1a_in_the_high_bits() {
    // FNV-1a of the empty string is the offset basis.
    assert_eq!(cl_ord_id_to_id(""), (0xcbf2_9ce4_8422_2325u128) << 64);
    // FNV-1a of "a" is 0xaf63dc4c8601ec8c.
    assert_eq!(cl_ord_id_to_id("a"), (0xaf63_dc4c_8601_ec8cu128) << 64);
}

#[test]
fn msg_type_codes() {
    assert_eq!(FixMsgType::from_code("D"), Some(FixMsgType::NewOrderSingle));
    assert_eq!(FixMsgType::from_code("F"), Some(FixMsgType::OrderCancelRequest));
    assert_eq!(FixMsgType::from_code("G"), Some(FixMsgType::OrderCancelReplaceRequest));
    assert_eq!(FixMsgType::from_code("8"), None);
}

#[test]
fn conversion_error_texts() {
    assert_eq!(FixConversionError::MissingField(54).to_text(), "missing required FIX field 54");
    assert_eq!(
        FixConversionError::UnrecognisedValue { tag: 54, value: "x\"y".to_string() }.to_text(),
        "unrecognised FIX value \"x\\\"y\" for tag 54"
    );
    assert_eq!(
        FixConversionError::InvalidNumber { tag: 38, value: "q".to_string() }.to_text(),
        "invalid numeric FIX value \"q\" for tag 38"
    );
    assert_eq!(FixConversionError::InvalidPrice("p".to_string()).to_text(), "invalid price string \"p\"");
    assert_eq!(
        FixBridgeError::UnsupportedMsgType("8".to_string()).to_text(),
        "unsupported FIX MsgType \"8\""
    );
    assert_eq!(
        FixBridgeError::Conversion(FixConversionError::MissingField(11)).to_text(),
        "fix conversion error: missing required FIX field 11"
    );
    match FixConversionError::MissingField(41).into_book_error() {
        orderbook_rs::orderbook::error::OrderBookError::InvalidOperation { message } => {
            assert_eq!(message, "missing required FIX field 41")
        },
        other => panic!("unexpected {other:?}"),
    }
}

#[test]
fn message_set_replaces_in_place_or_appends() {
    let mut m = FixMessage::new();
    m.push(tags::CL_ORD_ID, "A");
    m.push(tags::SIDE, "1");
    m.set(tags::CL_ORD_ID, "B");
    assert_eq!(m.fields.len(), 2);
    assert_eq!(m.get_str(tags::CL_ORD_ID), Some("B"));
    m.set(tags::PRICE, "5");
    assert_eq!(m.fields.len(), 3);
    assert_eq!(m.get_str(tags::PRICE), Some("5"));
    assert_eq!(m.get_str(tags::ORDER_QTY), None);
}

#[test]
fn places_limit_order() {
    let mut book = new_book();
    let msg = new_order_msg("1", "100", "2", "100.5");
    let outcome = apply_fix_message(&mut book, &msg, 10).unwrap();
    match outcome {
        FixOutcome::Placed { order_id } => {
            let order = book.get_order(order_id);
            assert!(order.is_some());
            assert_eq!(order.unwrap().price, 1005);
        },
        _ => panic!("expected Placed"),
    }
}

#[test]
fn places_market_order() {
    let mut book = new_book();
    let mut seed = new_order_msg("2", "50", "2", "100");
    seed.set(tags::CL_ORD_ID, "ORD-SELL");
    let seed_outcome = apply_fix_message(&mut book, &seed, 1);
    assert!(seed_outcome.is_ok(), "seed sell should rest, got {:?}", seed_outcome);

    let mut msg = new_order_msg("1", "50", "1", "0");
    msg.set(tags::CL_ORD_ID, "ORD-MKT");
    let outcome = apply_fix_message(&mut book, &msg, 1).unwrap();
    assert!(matches!(outcome, FixOutcome::Placed { .. }));
    assert_eq!(book.best_ask(), None);
}

#[test]
fn cancels_existing_order() {
    let mut book = new_book();
    let msg = new_order_msg("1", "100", "2", "100");
    apply_fix_message(&mut book, &msg, 1).unwrap();

    let mut cancel = FixMessage::new();
    cancel.push(BEGIN_STRING, "FIX.4.4");
    cancel.push(tags::MSG_TYPE, "F");
    cancel.push(tags::ORIG_CL_ORD_ID, "ORD-1");

    let outcome = apply_fix_message(&mut book, &cancel, 1).unwrap();
    assert!(matches!(outcome, FixOutcome::Cancelled { .. }));
    assert_eq!(book.best_bid(), None);
}

#[test]
fn cancel_missing_order_errors() {
    let mut book = new_book();
    let mut cancel = FixMessage::new();
    cancel.push(tags::MSG_TYPE, "F");
    cancel.push(tags::ORIG_CL_ORD_ID, "DOES-NOT-EXIST");
    let r = apply_fix_message(&mut book, &cancel, 1);
    assert!(r.is_err());
    let id = cl_ord_id_to_id("DOES-NOT-EXIST");
    assert_eq!(r, Err(FixBridgeError::OrderBook(format!("order {id} not found"))));
}

#[test]
fn cancel_replace_updates_price() {
    let mut book = new_book();
    let msg = new_order_msg("1", "100", "2", "100");
    apply_fix_message(&mut book, &msg, 1).unwrap();

    let mut replace = FixMessage::new();
    replace.push(BEGIN_STRING, "FIX.4.4");
    replace.push(tags::MSG_TYPE, "G");
    replace.push(tags::ORIG_CL_ORD_ID, "ORD-1");
    replace.push(tags::CL_ORD_ID, "ORD-2");
    replace.push(tags::SIDE, "1");
    replace.push(tags::ORDER_QTY, "100");
    replace.push(tags::ORD_TYPE, "2");
    replace.push(tags::PRICE, "101");
    replace.push(tags::TIME_IN_FORCE, "1");

    let outcome = apply_fix_message(&mut book, &replace, 1).unwrap();
    assert!(matches!(outcome, FixOutcome::Replaced { .. }));

    // The replaced order no longer rests; the replacement rests at the new price.
    let orig = cl_ord_id_to_id("ORD-1");
    assert!(book.get_order(orig).is_none());
    let new_id = cl_ord_id_to_id("ORD-2");
    assert_eq!(outcome, FixOutcome::Replaced { order_id: new_id });
    assert_eq!(book.get_order(new_id).map(|o| o.price), Some(101));
}

#[test]
fn unsupported_msg_type_errors() {
    let mut book = new_book();
    let mut msg = FixMessage::new();
    msg.push(tags::MSG_TYPE, "8");
    assert!(apply_fix_message(&mut book, &msg, 1).is_err());
}

#[test]
fn missing_required_field_errors() {
    let mut book = new_book();
    let mut msg = FixMessage::new();
    msg.push(tags::MSG_TYPE, "D");
    msg.push(tags::CL_ORD_ID, "ORD-1");
    assert!(matches!(
        apply_fix_message(&mut book, &msg, 1),
        Err(FixBridgeError::Conversion(FixConversionError::MissingField(tags::SIDE)))
    ));
}

#[test]
fn unsupported_ord_type_is_reported_with_its_code() {
    let mut book = new_book();
    let msg = new_order_msg("1", "10", "3", "100");
    assert_eq!(
        apply_fix_message(&mut book, &msg, 1),
        Err(FixBridgeError::UnsupportedMsgType("OrdType 3".to_string()))
    );
    assert_eq!(book.best_bid(), None);
}

#[test]
fn missing_msg_type_and_bad_price_errors() {
    let mut book = new_book();
    let empty = FixMessage::new();
    assert_eq!(
        apply_fix_message(&mut book, &empty, 1),
        Err(FixBridgeError::Conversion(FixConversionError::MissingField(35)))
    );
    let msg = new_order_msg("1", "10", "2", "1x");
    assert_eq!(
        apply_fix_message(&mut book, &msg, 1),
        Err(FixBridgeError::Conversion(FixConversionError::InvalidPrice("1x".to_string())))
    );
}

#[test]
fn book_rejection_is_carried_as_text() {
    let mut book = new_book();
    book.set_tick_size(10);
    let msg = new_order_msg("1", "10", "2", "105");
    match apply_fix_message(&mut book, &msg, 1) {
        Err(FixBridgeError::OrderBook(text)) => assert!(!text.is_empty()),
        other => panic!("expected a book rejection, got {other:?}"),
    }
}

#[test]
fn price_to_ticks_cuts_long_fractions_to_the_grid() {
    let long = format!("0.1{}", "0".repeat(39));
    assert_eq!(price_to_ticks(&long, 1), Ok(0));
    let long10 = format!("12.34{}", "9".repeat(60));
    assert_eq!(price_to_ticks(&long10, 100), Ok(1234));
    // A tick size that is no power of ten, even above 10^38, reads whole units.
    assert_eq!(price_to_ticks("5.9", u128::MAX), Ok(5));
    assert_eq!(price_to_ticks("5", 7), Ok(5));
    // A value that does not fit is refused rather than wrapped.
    let big = format!("{}", u128::MAX);
    assert_eq!(price_to_ticks(&big, 1), Ok(u128::MAX));
    assert_eq!(
        price_to_ticks(&big, 10),
        Err(FixConversionError::InvalidPrice(big.clone()))
    );
    let huge = format!("{}0", u128::MAX);
    assert_eq!(price_to_ticks(&huge, 1), Err(FixConversionError::InvalidPrice(huge.clone())));
}
