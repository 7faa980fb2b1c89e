//! FIX messages executed against an order book.
//!
//! `D` (NewOrderSingle) places a limit or market order, `F`
//! (OrderCancelRequest) cancels the order its `OrigClOrdID` names, and `G`
//! (OrderCancelReplaceRequest) cancels that order and places the replacement
//! the rest of the message describes.

use crate::fix::convert::{
    fix_side, fix_time_in_force, msg_type_of, order_id_of_text, parse_qty,
    price_ticks_of, qty_of, side_of_code, tif_of_code, cl_ord_id_to_id, price_to_ticks,
    FixConversionError, FixFault, FixMsgType, conversion_text, push_quoted, quoted,
};
use crate::fix::tags;
use crate::orderbook::book::{add_holds, cancel_view, find_order, match_holds, BookView, MatchResult, OrderBook};
use crate::orderbook::clock::Clock;
use crate::orderbook::error::{dec, error_text, OrderBookError};
use crate::orderbook::matching::MatchMode;
use crate::orderbook::operations::{built, order_part};
use crate::orderbook::text::{push_decimal, push_str};
use crate::orderbook::types::{Order, OrderKind, Side, TimeInForce};
use vstd::prelude::*;
use vstd::string::{StrSliceExecFns, StringExecFns};

verus! {

/// One `tag=value` field; the value is `None` when it is not valid UTF-8.
#[derive(Debug, Clone)]
pub struct FixField {
    pub tag: u32,
    pub value: Option<String>,
}

/// The fields of a FIX message, in wire order.
#[derive(Debug, Clone)]
pub struct FixMessage {
    pub fields: Vec<FixField>,
}

/// Errors returned by [`apply_fix_message`].
#[derive(Debug, Clone, PartialEq, Eq)]
pub enum FixBridgeError {
    /// A required tag was missing or could not be converted.
    Conversion(FixConversionError),
    /// The message type, or the order type of a new order, is not one the
    /// bridge executes.
    UnsupportedMsgType(String),
    /// The order book rejected the instruction; carries its text.
    OrderBook(String),
}

impl View for FixBridgeError {
    type V = FixFault;

    open spec fn view(&self) -> FixFault {
        match self {
            FixBridgeError::Conversion(c) => c@,
            FixBridgeError::UnsupportedMsgType(t) => FixFault::UnsupportedMsgType(t@),
            FixBridgeError::OrderBook(t) => FixFault::OrderBook(t@),
        }
    }
}

/// What applying a FIX message did.
#[derive(Debug, Clone, Copy, PartialEq, Eq)]
pub enum FixOutcome {
    /// A new order was placed under this id.
    Placed { order_id: u128 },
    /// The order with this id was cancelled.
    Cancelled { order_id: u128 },
    /// The replacement was placed under this id.
    Replaced { order_id: u128 },
}

/// A new order, as a message describes it.
#[derive(Debug, Clone, Copy, PartialEq, Eq)]
pub enum OrderPlan {
    /// A standard limit order.
    Limit { id: u128, price: u128, quantity: u64, side: Side, time_in_force: TimeInForce },
    /// A market order.
    Market { id: u128, quantity: u64, side: Side },
}

/// Index of the first field with `tag` at or after `i`, or the number of
/// fields when there is none.
pub open spec fn first_with_tag(fields: Seq<FixField>, tag: u32, i: int) -> int
    decreases fields.len() - i,
{
    if i >= fields.len() {
        fields.len() as int
    } else if fields[i].tag == tag {
        i
    } else {
        first_with_tag(fields, tag, i + 1)
    }
}

/// The text of the first field with `tag`; `None` when there is no such
/// field or its value is not text.
pub open spec fn text_of(fields: Seq<FixField>, tag: u32) -> Option<Seq<char>> {
    let i = first_with_tag(fields, tag, 0);
    if 0 <= i < fields.len() {
        match fields[i].value {
            Some(v) => Some(v@),
            None => None,
        }
    } else {
        None
    }
}

/// The text of a required tag, or the fault of its absence.
pub open spec fn required(fields: Seq<FixField>, tag: u32) -> Result<Seq<char>, FixFault> {
    match text_of(fields, tag) {
        Some(t) => Ok(t),
        None => Err(FixFault::MissingField(tag)),
    }
}

/// The time in force of a new order: day when the tag is absent.
pub open spec fn tif_field(fields: Seq<FixField>) -> Result<TimeInForce, FixFault> {
    match text_of(fields, tags::TIME_IN_FORCE) {
        None => Ok(TimeInForce::Day),
        Some(t) => match tif_of_code(t) {
            Some(tif) => Ok(tif),
            None => Err(FixFault::UnrecognisedValue(tags::TIME_IN_FORCE, t)),
        },
    }
}

/// The order id, side, quantity, order type text and time in force of a
/// new order, read in that order.
pub open spec fn order_fields(fields: Seq<FixField>) -> Result<(u128, Side, u64, Seq<char>, TimeInForce), FixFault> {
    match required(fields, tags::CL_ORD_ID) {
        Err(f) => Err(f),
        Ok(cl) => match required(fields, tags::SIDE) {
            Err(f) => Err(f),
            Ok(st) => match side_of_code(st) {
                None => Err(FixFault::UnrecognisedValue(tags::SIDE, st)),
                Some(side) => match required(fields, tags::ORDER_QTY) {
                    Err(f) => Err(f),
                    Ok(qt) => match qty_of(qt) {
                        None => Err(FixFault::InvalidNumber(tags::ORDER_QTY, qt)),
                        Some(q) => match required(fields, tags::ORD_TYPE) {
                            Err(f) => Err(f),
                            Ok(ot) => match tif_field(fields) {
                                Err(f) => Err(f),
                                Ok(tif) => Ok((order_id_of_text(cl), side, q as u64, ot, tif)),
                            },
                        },
                    },
                },
            },
        },
    }
}

/// The price text a new order converts, when reading it gets that far: a
/// limit order whose other fields all read.
pub open spec fn limit_price_text(fields: Seq<FixField>) -> Option<Seq<char>> {
    match order_fields(fields) {
        Ok((_, _, _, ot, _)) => if ot == seq!['2'] {
            text_of(fields, tags::PRICE)
        } else {
            None
        },
        Err(_) => None,
    }
}

/// The order a NewOrderSingle describes, or the fault that stops reading
/// it. `OrdType` `2` is a limit order priced in ticks of `tick`, `1` a
/// market order; any other order type is unsupported.
pub open spec fn new_order_plan(fields: Seq<FixField>, tick: nat) -> Result<OrderPlan, FixFault> {
    match order_fields(fields) {
        Err(f) => Err(f),
        Ok((id, side, quantity, ot, time_in_force)) => if ot == seq!['2'] {
            match required(fields, tags::PRICE) {
                Err(f) => Err(f),
                Ok(pt) => match price_ticks_of(pt, tick) {
                    None => Err(FixFault::InvalidPrice(pt)),
                    Some(p) => Ok(OrderPlan::Limit { id, price: p as u128, quantity, side, time_in_force }),
                },
            }
        } else if ot == seq!['1'] {
            Ok(OrderPlan::Market { id, quantity, side })
        } else {
            Err(FixFault::UnsupportedMsgType("OrdType "@ + ot))
        },
    }
}

/// The id an order plan places.
pub open spec fn plan_id(plan: OrderPlan) -> u128 {
    match plan {
        OrderPlan::Limit { id, .. } => id,
        OrderPlan::Market { id, .. } => id,
    }
}

/// A book rejection as a bridge fault.
pub open spec fn book_fault(e: OrderBookError) -> FixFault {
    FixFault::OrderBook(error_text(e))
}

/// Placing `plan` took the book from `v0` to `v1` and answered `r`: a
/// limit order is admitted as a standard order of anonymous user `0`
/// stamped `now`, a market order swept by quantity.
pub open spec fn placed_holds(v0: BookView, v1: BookView, plan: OrderPlan, r: Result<(), FixFault>, now: u64) -> bool {
    match plan {
        OrderPlan::Limit { id, price, quantity, side, time_in_force } =>
            exists|full: Result<(Order, Option<MatchResult>), OrderBookError>| {
                &&& add_holds(v0, v1, built(id, price, side, 0, time_in_force, OrderKind::Standard { quantity }, now), full, now)
                &&& r == match order_part(full) {
                    Ok(_) => Ok::<(), FixFault>(()),
                    Err(e) => Err(book_fault(e)),
                }
            },
        OrderPlan::Market { id, quantity, side } => if v0.kill_switch {
            r == Err::<(), FixFault>(book_fault(OrderBookError::KillSwitchActive)) && v1 == v0
        } else {
            exists|res: Result<MatchResult, OrderBookError>| {
                &&& match_holds(v0, v1, side, MatchMode::BaseQty { quantity, limit_price: None }, id, 0, res)
                &&& r == match res {
                    Ok(_) => Ok::<(), FixFault>(()),
                    Err(e) => Err(book_fault(e)),
                }
            }
        },
    }
}

/// The outcome of placing a new order: `Replaced` for the second half of
/// a cancel-and-replace, `Placed` otherwise.
pub open spec fn placed_outcome(id: u128, replace: bool) -> FixOutcome {
    if replace {
        FixOutcome::Replaced { order_id: id }
    } else {
        FixOutcome::Placed { order_id: id }
    }
}

/// A NewOrderSingle took the book from `v0` to `v1` and answered `r`.
pub open spec fn new_order_holds(v0: BookView, v1: BookView, fields: Seq<FixField>, tick: nat, now: u64, replace: bool, r: Result<FixOutcome, FixFault>) -> bool {
    match new_order_plan(fields, tick) {
        Err(f) => r == Err::<FixOutcome, FixFault>(f) && v1 == v0,
        Ok(plan) => exists|x: Result<(), FixFault>| {
            &&& placed_holds(v0, v1, plan, x, now)
            &&& r == match x {
                Ok(_) => Ok::<FixOutcome, FixFault>(placed_outcome(plan_id(plan), replace)),
                Err(f) => Err(f),
            }
        },
    }
}

/// The text of a cancel whose target does not rest on the book.
pub open spec fn not_found_text(id: u128) -> Seq<char> {
    "order "@ + dec(id as int) + " not found"@
}

/// An OrderCancelRequest took the book from `v0` to `v1` and answered `r`:
/// the order `OrigClOrdID` names leaves the book, and its absence is an
/// error.
pub open spec fn cancel_holds(v0: BookView, v1: BookView, fields: Seq<FixField>, r: Result<FixOutcome, FixFault>) -> bool {
    match required(fields, tags::ORIG_CL_ORD_ID) {
        Err(f) => r == Err::<FixOutcome, FixFault>(f) && v1 == v0,
        Ok(t) => {
            let id = order_id_of_text(t);
            &&& v1 == cancel_view(v0, id)
            &&& r == if find_order(v0, id) is Some {
                Ok::<FixOutcome, FixFault>(FixOutcome::Cancelled { order_id: id })
            } else {
                Err(FixFault::OrderBook(not_found_text(id)))
            }
        },
    }
}

/// An OrderCancelReplaceRequest took the book from `v0` to `v1` and
/// answered `r`: the cancel comes first, and only when it succeeds is the
/// replacement placed, on the book the cancel left.
pub open spec fn replace_holds(v0: BookView, v1: BookView, fields: Seq<FixField>, tick: nat, now: u64, r: Result<FixOutcome, FixFault>) -> bool {
    match required(fields, tags::ORIG_CL_ORD_ID) {
        Err(f) => r == Err::<FixOutcome, FixFault>(f) && v1 == v0,
        Ok(t) => {
            let id = order_id_of_text(t);
            if find_order(v0, id) is Some {
                new_order_holds(cancel_view(v0, id), v1, fields, tick, now, true, r)
            } else {
                r == Err::<FixOutcome, FixFault>(FixFault::OrderBook(not_found_text(id))) && v1 == cancel_view(v0, id)
            }
        },
    }
}

/// Applying a message took the book from `v0` to `v1` and answered `r`.
pub open spec fn fix_holds(v0: BookView, v1: BookView, fields: Seq<FixField>, tick: nat, now: u64, r: Result<FixOutcome, FixFault>) -> bool {
    match required(fields, tags::MSG_TYPE) {
        Err(f) => r == Err::<FixOutcome, FixFault>(f) && v1 == v0,
        Ok(t) => match msg_type_of(t) {
            None => r == Err::<FixOutcome, FixFault>(FixFault::UnsupportedMsgType(t)) && v1 == v0,
            Some(FixMsgType::NewOrderSingle) => new_order_holds(v0, v1, fields, tick, now, false, r),
            Some(FixMsgType::OrderCancelRequest) => cancel_holds(v0, v1, fields, r),
            Some(FixMsgType::OrderCancelReplaceRequest) => replace_holds(v0, v1, fields, tick, now, r),
        },
    }
}

/// A result with its error taken by its view.
pub open spec fn result_view<T>(r: Result<T, FixBridgeError>) -> Result<T, FixFault> {
    match r {
        Ok(x) => Ok(x),
        Err(e) => Err(e@),
    }
}

impl FixMessage {
    /// An empty message.
    pub fn new() -> (m: FixMessage)
        ensures
            m.fields@ == Seq::<FixField>::empty(),
    {
        FixMessage { fields: Vec::new() }
    }

    /// Append a text field.
    pub fn push(&mut self, tag: u32, value: &str)
        ensures
            final(self).fields@.len() == old(self).fields@.len() + 1,
            final(self).fields@.take(old(self).fields@.len() as int) == old(self).fields@,
            final(self).fields@.last().tag == tag,
            final(self).fields@.last().value matches Some(v) && v@ == value@,
    {
        self.fields.push(FixField { tag, value: Some(value.to_owned()) });
        assert(self.fields@.take(old(self).fields@.len() as int) =~= old(self).fields@);
    }

    /// Index of the first field with `tag`, or the number of fields.
    fn position(&self, tag: u32) -> (i: usize)
        ensures
            i as int == first_with_tag(self.fields@, tag, 0),
            i <= self.fields@.len(),
    {
        let mut i: usize = 0;
        while i < self.fields.len()
            invariant
                i <= self.fields@.len(),
                first_with_tag(self.fields@, tag, i as int) == first_with_tag(self.fields@, tag, 0),
            decreases self.fields@.len() - i,
        {
            if self.fields[i].tag == tag {
                return i;
            }
            i = i + 1;
        }
        i
    }

    /// Set the value of the first field with `tag`, keeping its position,
    /// or append a new field when there is none.
    pub fn set(&mut self, tag: u32, value: &str)
        ensures
            ({
                let i = first_with_tag(old(self).fields@, tag, 0);
                if i < old(self).fields@.len() {
                    &&& final(self).fields@.len() == old(self).fields@.len()
                    &&& forall|j: int| 0 <= j < old(self).fields@.len() && j != i
                        ==> #[trigger] final(self).fields@[j] == old(self).fields@[j]
                    &&& final(self).fields@[i].tag == tag
                    &&& final(self).fields@[i].value matches Some(v) && v@ == value@
                } else {
                    &&& final(self).fields@.len() == old(self).fields@.len() + 1
                    &&& final(self).fields@.take(old(self).fields@.len() as int) == old(self).fields@
                    &&& final(self).fields@.last().tag == tag
                    &&& final(self).fields@.last().value matches Some(v) && v@ == value@
                }
            }),
    {
        let i = self.position(tag);
        if i < self.fields.len() {
            self.fields.set(i, FixField { tag, value: Some(value.to_owned()) });
        } else {
            self.push(tag, value);
        }
    }

    /// The text of the first field with `tag`; `None` when there is no
    /// such field or its value is not text.
    pub fn get_str(&self, tag: u32) -> (r: Option<&str>)
        ensures
            match r {
                Some(s) => text_of(self.fields@, tag) == Some(s@),
                None => text_of(self.fields@, tag) is None,
            },
    {
        let i = self.position(tag);
        if i < self.fields.len() {
            match &self.fields[i].value {
                Some(v) => Some(v.as_str()),
                None => None,
            }
        } else {
            None
        }
    }
}

/// The text of a required tag.
fn required_str(message: &FixMessage, tag: u32) -> (r: Result<&str, FixBridgeError>)
    ensures
        match r {
            Ok(s) => required(message.fields@, tag) == Ok::<Seq<char>, FixFault>(s@),
            Err(e) => required(message.fields@, tag) == Err::<Seq<char>, FixFault>(e@),
        },
{
    match message.get_str(tag) {
        Some(s) => Ok(s),
        None => Err(FixBridgeError::Conversion(FixConversionError::MissingField(tag))),
    }
}

/// Read the order a NewOrderSingle describes.
fn plan_new_order(message: &FixMessage, tick_size: u128) -> (r: Result<OrderPlan, FixBridgeError>)
    ensures
        result_view(r) == new_order_plan(message.fields@, tick_size as nat),
{
    let cl = required_str(message, tags::CL_ORD_ID)?;
    let id = cl_ord_id_to_id(cl);
    let st = required_str(message, tags::SIDE)?;
    let side = match fix_side(st) {
        Ok(s) => s,
        Err(e) => {
            return Err(FixBridgeError::Conversion(e));
        },
    };
    let qt = required_str(message, tags::ORDER_QTY)?;
    let quantity = match parse_qty(qt) {
        Ok(q) => q,
        Err(e) => {
            return Err(FixBridgeError::Conversion(e));
        },
    };
    let ot = required_str(message, tags::ORD_TYPE)?;
    let time_in_force = match message.get_str(tags::TIME_IN_FORCE) {
        None => TimeInForce::Day,
        Some(t) => match fix_time_in_force(t) {
            Ok(tif) => tif,
            Err(e) => {
                return Err(FixBridgeError::Conversion(e));
            },
        },
    };
    assert(order_fields(message.fields@) == Ok::<(u128, Side, u64, Seq<char>, TimeInForce), FixFault>((id, side, quantity, ot@, time_in_force)));
    if ot.unicode_len() == 1 && ot.get_char(0) == '2' {
        assert(ot@ =~= seq!['2']);
        let pt = required_str(message, tags::PRICE)?;
        let price = match price_to_ticks(pt, tick_size) {
            Ok(p) => p,
            Err(e) => {
                return Err(FixBridgeError::Conversion(e));
            },
        };
        Ok(OrderPlan::Limit { id, price, quantity, side, time_in_force })
    } else if ot.unicode_len() == 1 && ot.get_char(0) == '1' {
        assert(ot@ =~= seq!['1']);
        Ok(OrderPlan::Market { id, quantity, side })
    } else {
        proof {
            if ot@ == seq!['2'] || ot@ == seq!['1'] {
                assert(ot@.len() == 1);
                assert(ot@[0] == seq!['2'][0] || ot@[0] == seq!['1'][0]);
            }
        }
        let mut text = String::new();
        push_str(&mut text, "OrdType ");
        push_str(&mut text, ot);
        Err(FixBridgeError::UnsupportedMsgType(text))
    }
}

impl<C: Clock> OrderBook<C> {
    /// Place the order a plan describes.
    fn place_plan(&mut self, plan: OrderPlan) -> (r: Result<(), FixBridgeError>)
        requires
            old(self).wf(),
        ensures
            final(self).wf(),
            final(self).same_config(old(self)),
            placed_holds(old(self).view(), final(self).view(), plan, result_view(r), final(self).spec_last_clock_reading()),
    {
        match plan {
            OrderPlan::Limit { id, price, quantity, side, time_in_force } => {
                match self.add_limit_order(id, price, quantity, side, time_in_force) {
                    Ok(_) => Ok(()),
                    Err(e) => Err(FixBridgeError::from_book_error(&e)),
                }
            },
            OrderPlan::Market { id, quantity, side } => {
                let res = self.submit_market_order(id, quantity, side);
                proof {
                    if !old(self).spec_kill_switch() {
                        assert(match_holds(old(self).view(), self.view(), side, MatchMode::BaseQty { quantity, limit_price: None }, id, 0, res));
                    }
                }
                match res {
                    Ok(_) => Ok(()),
                    Err(e) => Err(FixBridgeError::from_book_error(&e)),
                }
            },
        }
    }

    /// Read and place a new order; `replace` picks the outcome's name.
    fn apply_new_order(&mut self, message: &FixMessage, tick_size: u128, replace: bool) -> (r: Result<FixOutcome, FixBridgeError>)
        requires
            old(self).wf(),
        ensures
            final(self).wf(),
            final(self).same_config(old(self)),
            new_order_holds(old(self).view(), final(self).view(), message.fields@, tick_size as nat,
                final(self).spec_last_clock_reading(), replace, result_view(r)),
    {
        let plan = plan_new_order(message, tick_size)?;
        let placed = self.place_plan(plan);
        let id = match plan {
            OrderPlan::Limit { id, .. } => id,
            OrderPlan::Market { id, .. } => id,
        };
        match placed {
            Ok(()) => {
                if replace {
                    Ok(FixOutcome::Replaced { order_id: id })
                } else {
                    Ok(FixOutcome::Placed { order_id: id })
                }
            },
            Err(e) => Err(e),
        }
    }

    /// Cancel the order `OrigClOrdID` names.
    fn apply_cancel(&mut self, message: &FixMessage) -> (r: Result<FixOutcome, FixBridgeError>)
        requires
            old(self).wf(),
        ensures
            final(self).wf(),
            final(self).same_config(old(self)),
            final(self).spec_last_clock_reading() == old(self).spec_last_clock_reading(),
            cancel_holds(old(self).view(), final(self).view(), message.fields@, result_view(r)),
    {
        let orig = required_str(message, tags::ORIG_CL_ORD_ID)?;
        let order_id = cl_ord_id_to_id(orig);
        let removed = self.cancel_order(order_id);
        assert(self.view() == cancel_view(old(self).view(), order_id));
        match removed {
            Ok(Some(_)) => Ok(FixOutcome::Cancelled { order_id }),
            _ => {
                let mut text = String::new();
                push_str(&mut text, "order ");
                push_decimal(&mut text, order_id);
                push_str(&mut text, " not found");
                Err(FixBridgeError::OrderBook(text))
            },
        }
    }
}

/// The human-readable text of a bridge error.
pub open spec fn bridge_text(e: FixBridgeError) -> Seq<char> {
    match e {
        FixBridgeError::Conversion(c) => "fix conversion error: "@ + conversion_text(c@),
        FixBridgeError::UnsupportedMsgType(t) => "unsupported FIX MsgType "@ + quoted(t@),
        FixBridgeError::OrderBook(t) => "order book error: "@ + t@,
    }
}

impl FixBridgeError {
    /// The human-readable text of this error.
    pub fn to_text(&self) -> (t: String)
        ensures
            t@ == bridge_text(*self),
    {
        let mut t = String::new();
        match self {
            FixBridgeError::Conversion(c) => {
                push_str(&mut t, "fix conversion error: ");
                let inner = c.to_text();
                push_str(&mut t, inner.as_str());
            },
            FixBridgeError::UnsupportedMsgType(m) => {
                push_str(&mut t, "unsupported FIX MsgType ");
                push_quoted(&mut t, m.as_str());
            },
            FixBridgeError::OrderBook(m) => {
                push_str(&mut t, "order book error: ");
                push_str(&mut t, m.as_str());
            },
        }
        t
    }

    /// An order book rejection as a bridge error carrying its text.
    pub fn from_book_error(e: &OrderBookError) -> (b: FixBridgeError)
        ensures
            b@ == book_fault(*e),
    {
        FixBridgeError::OrderBook(e.to_text())
    }
}

/// The price text a new order converts, if reading it gets that far.
fn limit_price_str(message: &FixMessage) -> (r: Option<&str>)
    ensures
        match r {
            Some(p) => limit_price_text(message.fields@) == Some(p@),
            None => limit_price_text(message.fields@) is None,
        },
{
    let cl = match message.get_str(tags::CL_ORD_ID) {
        Some(c) => c,
        None => {
            return None;
        },
    };
    let _ = cl_ord_id_to_id(cl);
    let st = match message.get_str(tags::SIDE) {
        Some(x) => x,
        None => {
            return None;
        },
    };
    if fix_side(st).is_err() {
        return None;
    }
    let qt = match message.get_str(tags::ORDER_QTY) {
        Some(x) => x,
        None => {
            return None;
        },
    };
    if parse_qty(qt).is_err() {
        return None;
    }
    let ot = match message.get_str(tags::ORD_TYPE) {
        Some(x) => x,
        None => {
            return None;
        },
    };
    match message.get_str(tags::TIME_IN_FORCE) {
        Some(t) => {
            if fix_time_in_force(t).is_err() {
                return None;
            }
        },
        None => {},
    }
    if ot.unicode_len() == 1 && ot.get_char(0) == '2' {
        assert(ot@ =~= seq!['2']);
        message.get_str(tags::PRICE)
    } else {
        proof {
            if ot@ == seq!['2'] {
                assert(ot@[0] == seq!['2'][0]);
            }
        }
        None
    }
}

/// Apply a FIX message to an order book.
///
/// `D` (NewOrderSingle) reads tags 11 (ClOrdID), 54 (Side), 38 (OrderQty),
/// 40 (OrdType), 59 (TimeInForce, day when absent) and, for a limit order,
/// 44 (Price, converted to ticks of `tick_size`). `F` (OrderCancelRequest)
/// reads tag 41 (OrigClOrdID). `G` (OrderCancelReplaceRequest) cancels as
/// `F` does and, when that succeeds, places the new order as `D` does.
///
/// Fails on a missing or unconvertible tag, an unsupported `MsgType` or
/// `OrdType`, a cancel whose target does not rest on the book, or a
/// rejection by the book.
pub fn apply_fix_message<C: Clock>(book: &mut OrderBook<C>, message: &FixMessage, tick_size: u128) -> (r: Result<FixOutcome, FixBridgeError>)
    requires
        old(book).wf(),
    ensures
        final(book).wf(),
        final(book).same_config(old(book)),
        fix_holds(old(book).view(), final(book).view(), message.fields@, tick_size as nat,
            final(book).spec_last_clock_reading(), result_view(r)),
{
    let code = required_str(message, tags::MSG_TYPE)?;
    match FixMsgType::from_code(code) {
        Some(FixMsgType::NewOrderSingle) => book.apply_new_order(message, tick_size, false),
        Some(FixMsgType::OrderCancelRequest) => book.apply_cancel(message),
        Some(FixMsgType::OrderCancelReplaceRequest) => {
            let orig = required_str(message, tags::ORIG_CL_ORD_ID)?;
            let order_id = cl_ord_id_to_id(orig);
            let cancelled = book.apply_cancel(message)?;
            assert(find_order(old(book).view(), order_id) is Some);
            book.apply_new_order(message, tick_size, true)
        },
        None => Err(FixBridgeError::UnsupportedMsgType(code.to_owned())),
    }
}

} // verus!
