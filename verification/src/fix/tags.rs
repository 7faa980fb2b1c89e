//! The FIX tags the bridge reads.

use vstd::prelude::*;

verus! {

/// Tag 11: ClOrdID, the client order id.
pub const CL_ORD_ID: u32 = 11;
/// Tag 35: MsgType.
pub const MSG_TYPE: u32 = 35;
/// Tag 38: OrderQty.
pub const ORDER_QTY: u32 = 38;
/// Tag 40: OrdType (1 = market, 2 = limit).
pub const ORD_TYPE: u32 = 40;
/// Tag 41: OrigClOrdID, the order to cancel or replace.
pub const ORIG_CL_ORD_ID: u32 = 41;
/// Tag 44: Price.
pub const PRICE: u32 = 44;
/// Tag 54: Side (1 = buy, 2 = sell).
pub const SIDE: u32 = 54;
/// Tag 55: Symbol; the bridge routes on a single book and does not read it.
pub const SYMBOL: u32 = 55;
/// Tag 59: TimeInForce (0 = day, 1 = GTC, 3 = IOC, 4 = FOK, 6 = GTD).
pub const TIME_IN_FORCE: u32 = 59;
/// Tag 126: ExpireTime; GTD orders map to a zero deadline and the tag is
/// not read.
pub const EXPIRE_TIME: u32 = 126;

} // verus!
