//! FIX field values converted into book values.
//!
//! Each conversion is total on well-formed FIX text and fails only when the
//! value is syntactically invalid for its tag.

use crate::fix::tags;
use crate::orderbook::error::OrderBookError;
use crate::orderbook::text::{decimal_chars, push_decimal, push_str};
use crate::orderbook::types::{Side, TimeInForce};
use vstd::prelude::*;
use vstd::string::StrSliceExecFns;

verus! {

/// Errors produced while converting a FIX field into a book value.
#[derive(Debug, Clone, PartialEq, Eq)]
pub enum FixConversionError {
    /// A tag required by the message type is absent.
    MissingField(u32),
    /// An enumerated value is not one the bridge knows.
    UnrecognisedValue { tag: u32, value: String },
    /// A numeric field does not parse.
    InvalidNumber { tag: u32, value: String },
    /// A price does not convert to ticks.
    InvalidPrice(String),
}

/// The FIX message types the bridge executes.
#[derive(Debug, Clone, Copy, PartialEq, Eq)]
pub enum FixMsgType {
    /// `D`: place a new order.
    NewOrderSingle,
    /// `F`: cancel an existing order.
    OrderCancelRequest,
    /// `G`: cancel an existing order and place its replacement.
    OrderCancelReplaceRequest,
}

/// The message type a `MsgType` code names.
pub open spec fn msg_type_of(code: Seq<char>) -> Option<FixMsgType> {
    if code == seq!['D'] {
        Some(FixMsgType::NewOrderSingle)
    } else if code == seq!['F'] {
        Some(FixMsgType::OrderCancelRequest)
    } else if code == seq!['G'] {
        Some(FixMsgType::OrderCancelReplaceRequest)
    } else {
        None
    }
}

/// The side a `Side` code names: `1` buys, `2` sells.
pub open spec fn side_of_code(code: Seq<char>) -> Option<Side> {
    if code == seq!['1'] {
        Some(Side::Buy)
    } else if code == seq!['2'] {
        Some(Side::Sell)
    } else {
        None
    }
}

/// The time in force a `TimeInForce` code names: `0` day, `1` GTC, `3` IOC,
/// `4` FOK and `6` GTD with a zero deadline.
pub open spec fn tif_of_code(code: Seq<char>) -> Option<TimeInForce> {
    if code == seq!['1'] {
        Some(TimeInForce::Gtc)
    } else if code == seq!['3'] {
        Some(TimeInForce::Ioc)
    } else if code == seq!['4'] {
        Some(TimeInForce::Fok)
    } else if code == seq!['6'] {
        Some(TimeInForce::Gtd(0))
    } else if code == seq!['0'] {
        Some(TimeInForce::Day)
    } else {
        None
    }
}

/// An ASCII decimal digit.
pub open spec fn is_digit(c: char) -> bool {
    '0' <= c && c <= '9'
}

/// The value of a digit character.
pub open spec fn digit_val(c: char) -> nat {
    (c as int - '0' as int) as nat
}

/// Every character of `s` is a decimal digit.
pub open spec fn all_digits(s: Seq<char>) -> bool {
    forall|i: int| 0 <= i < s.len() ==> is_digit(#[trigger] s[i])
}

/// The number a string of digits spells.
pub open spec fn digits_value(s: Seq<char>) -> nat
    decreases s.len(),
{
    if s.len() == 0 {
        0
    } else {
        digits_value(s.drop_last()) * 10 + digit_val(s.last())
    }
}

/// `10` to the power `n`.
pub open spec fn pow10(n: nat) -> nat
    decreases n,
{
    if n == 0 {
        1
    } else {
        10 * pow10((n - 1) as nat)
    }
}

/// The largest `u128`, as a number.
pub open spec fn u128_max() -> nat {
    u128::MAX as nat
}

/// The digits of an unsigned decimal, after an optional leading `+`.
pub open spec fn unsigned_digits(s: Seq<char>) -> Seq<char> {
    if s.len() > 0 && s[0] == '+' {
        s.subrange(1, s.len() as int)
    } else {
        s
    }
}

/// The quantity an `OrderQty` value spells: an optional `+` and at least
/// one digit, with a value that fits in `u64`.
pub open spec fn qty_of(s: Seq<char>) -> Option<nat> {
    let d = unsigned_digits(s);
    if d.len() > 0 && all_digits(d) && digits_value(d) <= u64::MAX {
        Some(digits_value(d))
    } else {
        None
    }
}

/// Index of the first `.` in `s` at or after `i`, or `s.len()` when none.
pub open spec fn dot_from(s: Seq<char>, i: int) -> int
    decreases s.len() - i,
{
    if i >= s.len() {
        s.len() as int
    } else if s[i] == '.' {
        i
    } else {
        dot_from(s, i + 1)
    }
}

/// The whole part of a price: everything before its first `.`.
pub open spec fn int_part(s: Seq<char>) -> Seq<char> {
    s.subrange(0, dot_from(s, 0))
}

/// The fraction of a price: everything after its first `.`.
pub open spec fn frac_part(s: Seq<char>) -> Seq<char> {
    let d = dot_from(s, 0);
    if d < s.len() {
        s.subrange(d + 1, s.len() as int)
    } else {
        Seq::empty()
    }
}

/// The exponent of a power-of-ten tick size, or `0` for any other tick size.
pub open spec fn tick_places(tick: nat) -> nat {
    if exists|k: nat| pow10(k) == tick {
        choose|k: nat| pow10(k) == tick
    } else {
        0
    }
}

/// A fraction value with `flen` digits brought onto a grid of `places`
/// decimals: extra digits are cut off, missing ones padded with zeros.
pub open spec fn scaled_frac(v: nat, flen: nat, places: nat) -> nat {
    if flen > places {
        v / pow10((flen - places) as nat)
    } else {
        v * pow10((places - flen) as nat)
    }
}

/// A price string read as a whole number of ticks of `tick`: the whole part
/// scaled by `10^places` plus the fraction cut (or padded) to `places`
/// decimals, where `places` is the tick size's decimal exponent. `None`
/// when it is no non-negative decimal or its value does not fit in `u128`.
pub open spec fn price_ticks_of(s: Seq<char>, tick: nat) -> Option<nat> {
    let ip = int_part(s);
    let fp = frac_part(s);
    if ip.len() == 0 || !all_digits(ip) || !all_digits(fp) {
        None
    } else {
        let places = tick_places(tick);
        let total = digits_value(ip) * pow10(places) + scaled_frac(digits_value(fp), fp.len(), places);
        if total > u128_max() {
            None
        } else {
            Some(total)
        }
    }
}

/// The FNV-1a offset basis.
pub const FNV_OFFSET: u64 = 0xcbf2_9ce4_8422_2325;

/// The FNV-1a prime.
pub const FNV_PRIME: u64 = 0x0000_0100_0000_01b3;

/// FNV-1a over `bytes`: for each byte, xor it in, then multiply by the
/// prime modulo `2^64`.
pub open spec fn fnv1a(bytes: Seq<u8>) -> u64
    decreases bytes.len(),
{
    if bytes.len() == 0 {
        FNV_OFFSET
    } else {
        ((((fnv1a(bytes.drop_last()) ^ (bytes.last() as u64)) as nat) * (FNV_PRIME as nat))
            % 0x1_0000_0000_0000_0000) as u64
    }
}

/// The order id of a 64-bit hash: the hash in the high 64 bits, zero below.
pub open spec fn id_of_hash(h: u64) -> u128 {
    (h as nat * 0x1_0000_0000_0000_0000nat) as u128
}

/// The order id a `ClOrdID` maps to: the id of the FNV-1a hash of its
/// UTF-8 bytes.
pub open spec fn order_id_of_text(text: Seq<char>) -> u128 {
    id_of_hash(fnv1a(vstd::utf8::encode_utf8(text)))
}

/// Law: a client order id always names the same order: equal `ClOrdID`
/// texts give equal order ids, so a cancel or replace finds the order its
/// `OrigClOrdID` placed.
pub proof fn law_same_client_id_same_order(a: Seq<char>, b: Seq<char>)
    requires
        a == b,
    ensures
        order_id_of_text(a) == order_id_of_text(b),
{
}

/// What a conversion or bridge error says, as plain values.
pub enum FixFault {
    /// A required tag is absent or its value is not text.
    MissingField(u32),
    /// An enumerated value the bridge does not know, with its tag.
    UnrecognisedValue(u32, Seq<char>),
    /// A numeric value that does not parse, with its tag.
    InvalidNumber(u32, Seq<char>),
    /// A price that does not convert to ticks.
    InvalidPrice(Seq<char>),
    /// A message or order type the bridge does not execute.
    UnsupportedMsgType(Seq<char>),
    /// The order book's rejection, as text.
    OrderBook(Seq<char>),
}

impl View for FixConversionError {
    type V = FixFault;

    open spec fn view(&self) -> FixFault {
        match self {
            FixConversionError::MissingField(tag) => FixFault::MissingField(*tag),
            FixConversionError::UnrecognisedValue { tag, value } => FixFault::UnrecognisedValue(*tag, value@),
            FixConversionError::InvalidNumber { tag, value } => FixFault::InvalidNumber(*tag, value@),
            FixConversionError::InvalidPrice(value) => FixFault::InvalidPrice(value@),
        }
    }
}

proof fn lemma_pow10_positive(n: nat)
    ensures
        pow10(n) >= 1,
    decreases n,
{
    if n > 0 {
        lemma_pow10_positive((n - 1) as nat);
    }
}

/// `pow10` is strictly increasing.
proof fn lemma_pow10_increasing(a: nat, b: nat)
    requires
        a < b,
    ensures
        pow10(a) < pow10(b),
    decreases b,
{
    lemma_pow10_positive((b - 1) as nat);
    if a < b - 1 {
        lemma_pow10_increasing(a, (b - 1) as nat);
    }
}

proof fn lemma_pow10_38()
    ensures
        pow10(38) == 100_000_000_000_000_000_000_000_000_000_000_000_000nat,
        pow10(38) < u128_max(),
{
    reveal_with_fuel(pow10, 39);
}

/// A digit string's prefix spells no more than the whole string.
proof fn lemma_digits_prefix(s: Seq<char>, k: int)
    requires
        0 <= k <= s.len(),
    ensures
        digits_value(s.subrange(0, k)) <= digits_value(s),
    decreases s.len(),
{
    if k < s.len() {
        lemma_digits_prefix(s.drop_last(), k);
        assert(s.drop_last().subrange(0, k) =~= s.subrange(0, k));
    } else {
        assert(s.subrange(0, k) =~= s);
    }
}

/// Whether `s` is exactly the one character `c`.
fn is_single(s: &str, c: char) -> (b: bool)
    ensures
        b == (s@ == seq![c]),
{
    let n = s.unicode_len();
    if n != 1 {
        assert(s@.len() != seq![c].len());
        return false;
    }
    let x = s.get_char(0);
    if x == c {
        assert(s@ =~= seq![c]);
        true
    } else {
        assert(s@[0] != seq![c][0]);
        false
    }
}

impl FixMsgType {
    /// The message type a `MsgType` code names, if the bridge executes it.
    pub fn from_code(code: &str) -> (r: Option<FixMsgType>)
        ensures
            r == msg_type_of(code@),
    {
        if is_single(code, 'D') {
            Some(FixMsgType::NewOrderSingle)
        } else if is_single(code, 'F') {
            Some(FixMsgType::OrderCancelRequest)
        } else if is_single(code, 'G') {
            Some(FixMsgType::OrderCancelReplaceRequest)
        } else {
            None
        }
    }
}

/// Map a FIX `Side` (tag 54) value: `1` buys, `2` sells.
pub fn fix_side(raw: &str) -> (r: Result<Side, FixConversionError>)
    ensures
        match side_of_code(raw@) {
            Some(s) => r == Ok::<Side, FixConversionError>(s),
            None => r matches Err(FixConversionError::UnrecognisedValue { tag, value })
                && tag == tags::SIDE && value@ == raw@,
        },
{
    if is_single(raw, '1') {
        Ok(Side::Buy)
    } else if is_single(raw, '2') {
        Ok(Side::Sell)
    } else {
        Err(FixConversionError::UnrecognisedValue { tag: tags::SIDE, value: raw.to_owned() })
    }
}

/// Map a FIX `TimeInForce` (tag 59) value: `0` day, `1` GTC, `3` IOC,
/// `4` FOK, `6` GTD (with a zero deadline).
pub fn fix_time_in_force(raw: &str) -> (r: Result<TimeInForce, FixConversionError>)
    ensures
        match tif_of_code(raw@) {
            Some(t) => r == Ok::<TimeInForce, FixConversionError>(t),
            None => r matches Err(FixConversionError::UnrecognisedValue { tag, value })
                && tag == tags::TIME_IN_FORCE && value@ == raw@,
        },
{
    if is_single(raw, '1') {
        Ok(TimeInForce::Gtc)
    } else if is_single(raw, '3') {
        Ok(TimeInForce::Ioc)
    } else if is_single(raw, '4') {
        Ok(TimeInForce::Fok)
    } else if is_single(raw, '6') {
        Ok(TimeInForce::Gtd(0))
    } else if is_single(raw, '0') {
        Ok(TimeInForce::Day)
    } else {
        Err(FixConversionError::UnrecognisedValue { tag: tags::TIME_IN_FORCE, value: raw.to_owned() })
    }
}

/// Whether the characters of `s` in `start..end` are all digits.
fn digits_in(s: &str, start: usize, end: usize) -> (b: bool)
    requires
        start <= end <= s@.len(),
    ensures
        b == all_digits(s@.subrange(start as int, end as int)),
{
    let mut i = start;
    while i < end
        invariant
            start <= i <= end <= s@.len(),
            all_digits(s@.subrange(start as int, i as int)),
        decreases end - i,
    {
        let c = s.get_char(i);
        if !('0' <= c && c <= '9') {
            assert(!is_digit(s@.subrange(start as int, end as int)[i - start]));
            return false;
        }
        assert forall|j: int| 0 <= j < i + 1 - start implies is_digit(
            #[trigger] s@.subrange(start as int, i + 1)[j],
        ) by {
            if j < i - start {
                assert(s@.subrange(start as int, i + 1)[j] == s@.subrange(start as int, i as int)[j]);
            }
        }
        i = i + 1;
    }
    true
}

/// The number the digits of `s` in `start..end` spell, or `None` when it
/// does not fit in `u128`.
fn parse_digits(s: &str, start: usize, end: usize) -> (r: Option<u128>)
    requires
        start <= end <= s@.len(),
        all_digits(s@.subrange(start as int, end as int)),
    ensures
        match r {
            Some(v) => v as nat == digits_value(s@.subrange(start as int, end as int)),
            None => digits_value(s@.subrange(start as int, end as int)) > u128_max(),
        },
{
    let ghost t = s@.subrange(start as int, end as int);
    let mut acc: u128 = 0;
    let mut i = start;
    while i < end
        invariant
            start <= i <= end <= s@.len(),
            t == s@.subrange(start as int, end as int),
            all_digits(t),
            acc as nat == digits_value(s@.subrange(start as int, i as int)),
        decreases end - i,
    {
        let c = s.get_char(i);
        let ghost next = s@.subrange(start as int, i + 1);
        assert(next.drop_last() =~= s@.subrange(start as int, i as int));
        assert(next.last() == c);
        assert(is_digit(t[i - start]));
        assert(t[i - start] == c);
        let d = (c as u32 - '0' as u32) as u128;
        assert(d as nat == digit_val(c));
        assert(next =~= t.subrange(0, i + 1 - start));
        match acc.checked_mul(10) {
            None => {
                proof {
                    lemma_digits_prefix(t, i + 1 - start);
                }
                return None;
            },
            Some(m) => match m.checked_add(d) {
                None => {
                    proof {
                        lemma_digits_prefix(t, i + 1 - start);
                    }
                    return None;
                },
                Some(v) => {
                    acc = v;
                },
            },
        }
        i = i + 1;
    }
    assert(s@.subrange(start as int, i as int) =~= t);
    Some(acc)
}

/// Parse an `OrderQty` (tag 38) value: an optional `+` and decimal digits
/// that fit in `u64`.
pub fn parse_qty(raw: &str) -> (r: Result<u64, FixConversionError>)
    ensures
        match qty_of(raw@) {
            Some(q) => r == Ok::<u64, FixConversionError>(q as u64),
            None => r matches Err(FixConversionError::InvalidNumber { tag, value })
                && tag == tags::ORDER_QTY && value@ == raw@,
        },
{
    let n = raw.unicode_len();
    let start: usize = if n > 0 && raw.get_char(0) == '+' { 1 } else { 0 };
    assert(unsigned_digits(raw@) =~= raw@.subrange(start as int, n as int));
    if start < n && digits_in(raw, start, n) {
        match parse_digits(raw, start, n) {
            Some(v) => {
                if v <= 0xffff_ffff_ffff_ffff {
                    return Ok(v as u64);
                }
            },
            None => {},
        }
    }
    Err(FixConversionError::InvalidNumber { tag: tags::ORDER_QTY, value: raw.to_owned() })
}

/// The order id a `ClOrdID` maps to: FNV-1a over its UTF-8 bytes, placed in
/// the high 64 bits of the id. The same client id always gives the same
/// order id.
pub fn cl_ord_id_to_id(cl_ord_id: &str) -> (id: u128)
    ensures
        id == order_id_of_text(cl_ord_id@),
{
    let bytes = cl_ord_id.as_bytes();
    let mut hash: u64 = FNV_OFFSET;
    let mut i: usize = 0;
    while i < bytes.len()
        invariant
            i <= bytes@.len(),
            bytes@ == vstd::utf8::encode_utf8(cl_ord_id@),
            hash == fnv1a(bytes@.subrange(0, i as int)),
        decreases bytes@.len() - i,
    {
        let b = bytes[i];
        assert(bytes@.subrange(0, i + 1).drop_last() =~= bytes@.subrange(0, i as int));
        hash = (hash ^ (b as u64)).wrapping_mul(FNV_PRIME);
        i = i + 1;
    }
    assert(bytes@.subrange(0, i as int) =~= bytes@);
    (hash as u128) * 0x1_0000_0000_0000_0000u128
}

/// Index of the first `.` in `s`, or its length when there is none.
fn find_dot(s: &str) -> (d: usize)
    ensures
        d as int == dot_from(s@, 0),
        d <= s@.len(),
{
    let n = s.unicode_len();
    let mut i: usize = 0;
    while i < n
        invariant
            i <= n,
            n == s@.len(),
            dot_from(s@, i as int) == dot_from(s@, 0),
        decreases n - i,
    {
        if s.get_char(i) == '.' {
            return i;
        }
        i = i + 1;
    }
    i
}

/// `10^k` for `k <= 38`.
fn pow10_exec(k: u128) -> (r: u128)
    requires
        k <= 38,
    ensures
        r as nat == pow10(k as nat),
        r >= 1,
{
    proof {
        lemma_pow10_positive(k as nat);
    }
    proof {
        lemma_pow10_38();
    }
    let mut r: u128 = 1;
    let mut j: u128 = 0;
    while j < k
        invariant
            j <= k <= 38,
            r as nat == pow10(j as nat),
            pow10(38) < u128_max(),
        decreases k - j,
    {
        proof {
            if j + 1 < 38 {
                lemma_pow10_increasing((j + 1) as nat, 38);
            }
        }
        r = r * 10;
        j = j + 1;
    }
    r
}

/// A digit string spells less than `10` to the power of its length.
proof fn lemma_digits_bound(t: Seq<char>)
    requires
        all_digits(t),
    ensures
        digits_value(t) < pow10(t.len()),
    decreases t.len(),
{
    if t.len() > 0 {
        let d = t.drop_last();
        assert forall|i: int| 0 <= i < d.len() implies is_digit(#[trigger] d[i]) by {
            assert(d[i] == t[i]);
        }
        lemma_digits_bound(d);
        assert(is_digit(t[t.len() - 1]));
        let a = digits_value(d);
        let p = pow10(d.len());
        assert(digit_val(t.last()) <= 9);
        assert(a * 10 + digit_val(t.last()) < 10 * p) by (nonlinear_arith)
            requires
                a < p,
                digit_val(t.last()) <= 9,
        ;
    }
}

/// A digit string spells its first `k` digits shifted left by the rest,
/// plus the rest.
proof fn lemma_digits_split(s: Seq<char>, k: int)
    requires
        0 <= k <= s.len(),
    ensures
        digits_value(s) == digits_value(s.subrange(0, k)) * pow10((s.len() - k) as nat) + digits_value(
            s.subrange(k, s.len() as int),
        ),
    decreases s.len(),
{
    if k == s.len() {
        assert(s.subrange(0, k) =~= s);
        assert(s.subrange(k, s.len() as int) =~= Seq::<char>::empty());
        assert(digits_value(s) * 1 == digits_value(s));
    } else {
        let d = s.drop_last();
        lemma_digits_split(d, k);
        assert(d.subrange(0, k) =~= s.subrange(0, k));
        let r = s.subrange(k, s.len() as int);
        assert(r.drop_last() =~= d.subrange(k, d.len() as int));
        assert(r.last() == s.last());
        let a = digits_value(s.subrange(0, k));
        let b = digits_value(d.subrange(k, d.len() as int));
        let p = pow10((d.len() - k) as nat);
        let c = digit_val(s.last());
        assert(pow10((s.len() - k) as nat) == 10 * p);
        assert((a * p + b) * 10 + c == a * (10 * p) + (b * 10 + c)) by (nonlinear_arith);
    }
}

/// No power of ten within `u128` exceeds `10^38`.
proof fn lemma_no_large_power(t: nat, k: nat)
    requires
        pow10(38) < t <= u128_max(),
    ensures
        pow10(k) != t,
{
    lemma_pow10_38();
    if k <= 38 {
        if k < 38 {
            lemma_pow10_increasing(k, 38);
        }
    } else {
        assert(pow10(39) == 10 * pow10(38));
        if k > 39 {
            lemma_pow10_increasing(39, k);
        }
    }
}

/// Powers of ten multiply by adding exponents.
proof fn lemma_pow10_mul(a: nat, b: nat)
    ensures
        pow10(a) * pow10(b) == pow10(a + b),
    decreases a,
{
    if a > 0 {
        lemma_pow10_mul((a - 1) as nat, b);
        assert(pow10(a) == 10 * pow10((a - 1) as nat));
        assert(pow10(a + b) == 10 * pow10((a + b - 1) as nat));
        assert(((a - 1) + b) as nat == (a + b - 1) as nat);
        assert(pow10(a) * pow10(b) == 10 * (pow10((a - 1) as nat) * pow10(b))) by (nonlinear_arith)
            requires
                pow10(a) == 10 * pow10((a - 1) as nat),
        ;
    } else {
        assert(pow10(0) == 1);
        assert(pow10(a) * pow10(b) == pow10(b)) by (nonlinear_arith)
            requires
                pow10(a) == 1,
        ;
    }
}

/// A fraction cut (or padded) to `pl` decimals is its first `take` digits
/// padded with zeros, where `take` is the shorter of its length and `pl`.
proof fn lemma_cut_fraction(fp: Seq<char>, pl: nat, take: nat)
    requires
        all_digits(fp),
        take == (if fp.len() < pl { fp.len() } else { pl }),
    ensures
        scaled_frac(digits_value(fp), fp.len(), pl) == digits_value(fp.subrange(0, take as int)) * pow10((pl - take) as nat),
{
    if fp.len() > pl {
        lemma_digits_split(fp, take as int);
        let rest = fp.subrange(take as int, fp.len() as int);
        assert(all_digits(rest)) by {
            assert forall|i: int| 0 <= i < rest.len() implies is_digit(#[trigger] rest[i]) by {
                assert(rest[i] == fp[i + take]);
            }
        }
        lemma_digits_bound(rest);
        let m = pow10((fp.len() - pl) as nat);
        let a = digits_value(fp.subrange(0, take as int));
        let b = digits_value(rest);
        assert(digits_value(fp) == a * m + b);
        vstd::arithmetic::div_mod::lemma_fundamental_div_mod_converse(digits_value(fp) as int, m as int, a as int, b as int);
        assert(digits_value(fp) / m == a);
        assert(pow10(0) == 1);
        assert(a * pow10(0) == a) by (nonlinear_arith)
            requires
                pow10(0) == 1,
        ;
    } else {
        assert(fp.subrange(0, take as int) =~= fp);
    }
}

/// Number of decimal places a power-of-ten tick size encodes: `1` gives 0,
/// `10` gives 1, `100` gives 2; any other tick size gives 0.
fn decimal_places(tick_size: u128) -> (r: u128)
    ensures
        r as nat == tick_places(tick_size as nat),
        r <= 38,
{
    proof {
        lemma_pow10_38();
    }
    if tick_size > 100_000_000_000_000_000_000_000_000_000_000_000_000u128 {
        proof {
            assert forall|k: nat| pow10(k) != tick_size as nat by {
                lemma_no_large_power(tick_size as nat, k);
            }
        }
        return 0;
    }
    let mut n: u128 = 0;
    let mut cur: u128 = 1;
    while cur < tick_size
        invariant
            cur as nat == pow10(n as nat),
            n <= 38,
            tick_size as nat <= pow10(38),
            pow10(38) < u128_max(),
            forall|j: nat| j < n ==> #[trigger] pow10(j) < tick_size,
        decreases 38 - n,
    {
        proof {
            lemma_pow10_positive(n as nat);
            if n >= 38 {
                if n > 38 {
                    lemma_pow10_increasing(38, n as nat);
                }
                assert(false);
            }
            assert(pow10((n + 1) as nat) == 10 * pow10(n as nat));
            if n + 1 < 38 {
                lemma_pow10_increasing((n + 1) as nat, 38);
            }
        }
        cur = cur * 10;
        n = n + 1;
    }
    proof {
        if cur == tick_size {
            assert(pow10(n as nat) == tick_size);
            let k = choose|k: nat| pow10(k) == tick_size as nat;
            if k < n {
                assert(pow10(k) < tick_size);
            } else if k > n {
                lemma_pow10_increasing(n as nat, k);
            }
        } else {
            assert forall|k: nat| pow10(k) != tick_size as nat by {
                if k < n {
                    assert(pow10(k) < tick_size);
                } else if k > n {
                    lemma_pow10_increasing(n as nat, k);
                }
            }
        }
    }
    if cur == tick_size {
        n
    } else {
        0
    }
}

/// Convert a FIX price string to whole ticks of `tick_size`.
///
/// A price is decimal text with an optional fraction after a `.`. When
/// `tick_size` is `10^k` the price is scaled by `10^k`; any other tick size
/// takes the price as whole units. Fraction digits beyond the tick grid are
/// cut off.
///
/// Fails with [`FixConversionError::InvalidPrice`] exactly when the text is
/// no non-negative decimal, or its value in ticks does not fit in `u128`.
pub fn price_to_ticks(price: &str, tick_size: u128) -> (r: Result<u128, FixConversionError>)
    ensures
        match price_ticks_of(price@, tick_size as nat) {
            Some(t) => r == Ok::<u128, FixConversionError>(t as u128),
            None => r matches Err(FixConversionError::InvalidPrice(v)) && v@ == price@,
        },
{
    let ghost s = price@;
    let n = price.unicode_len();
    let d = find_dot(price);
    let fs: usize = if d < n { d + 1 } else { n };
    let ghost ip = int_part(s);
    let ghost fp = frac_part(s);
    assert(ip =~= s.subrange(0, d as int));
    assert(fp =~= s.subrange(fs as int, n as int));
    if d == 0 || !digits_in(price, 0, d) || !digits_in(price, fs, n) {
        return Err(FixConversionError::InvalidPrice(price.to_owned()));
    }
    let places = decimal_places(tick_size);
    let ghost pl = places as nat;
    proof {
        lemma_pow10_38();
        lemma_pow10_positive(pl);
    }
    let flen = n - fs;
    let take: usize = if (flen as u128) < places { flen } else { places as usize };
    let ghost head = fp.subrange(0, take as int);
    assert(head =~= s.subrange(fs as int, fs + take));
    assert(all_digits(head)) by {
        assert forall|i: int| 0 <= i < head.len() implies is_digit(#[trigger] head[i]) by {
            assert(head[i] == fp[i]);
        }
    }
    proof {
        lemma_digits_bound(head);
        if take < 38 {
            lemma_pow10_increasing(take as nat, 38);
        }
        lemma_cut_fraction(fp, pl, take as nat);
        assert(pow10(0) == 1);
    }
    let fv = match parse_digits(price, fs, fs + take) {
        Some(v) => v,
        None => {
            proof {
                assert(false);
            }
            return Err(FixConversionError::InvalidPrice(price.to_owned()));
        },
    };
    let pad = pow10_exec(places - take as u128);
    proof {
        lemma_pow10_positive((pl - take) as nat);
        lemma_pow10_mul(take as nat, (pl - take) as nat);
        assert((fv as nat) * (pad as nat) < pow10(take as nat) * pow10((pl - take) as nat)) by (nonlinear_arith)
            requires
                fv < pow10(take as nat),
                pad as nat == pow10((pl - take) as nat),
                pad >= 1,
        ;
        assert((take + (pl - take)) as nat == pl);
        if pl < 38 {
            lemma_pow10_increasing(pl, 38);
        }
    }
    let frac = fv * pad;
    assert(frac as nat == scaled_frac(digits_value(fp), fp.len(), pl));
    let whole = match parse_digits(price, 0, d) {
        Some(w) => w,
        None => {
            proof {
                assert(digits_value(ip) * pow10(pl) >= digits_value(ip)) by (nonlinear_arith)
                    requires
                        pow10(pl) >= 1,
                ;
            }
            return Err(FixConversionError::InvalidPrice(price.to_owned()));
        },
    };
    let scale = pow10_exec(places);
    match whole.checked_mul(scale) {
        None => Err(FixConversionError::InvalidPrice(price.to_owned())),
        Some(w) => match w.checked_add(frac) {
            Some(t) => Ok(t),
            None => Err(FixConversionError::InvalidPrice(price.to_owned())),
        },
    }
}

/// A character as `Debug` renders it inside a quoted string: quotes,
/// backslashes, newlines, carriage returns, tabs and NULs escaped.
pub open spec fn escape_char(c: char) -> Seq<char> {
    if c == '"' {
        seq!['\\', '"']
    } else if c == '\\' {
        seq!['\\', '\\']
    } else if c == '\n' {
        seq!['\\', 'n']
    } else if c == '\r' {
        seq!['\\', 'r']
    } else if c == '\t' {
        seq!['\\', 't']
    } else if c == '\0' {
        seq!['\\', '0']
    } else {
        seq![c]
    }
}

/// Every character of `s` escaped.
pub open spec fn escaped(s: Seq<char>) -> Seq<char>
    decreases s.len(),
{
    if s.len() == 0 {
        Seq::empty()
    } else {
        escaped(s.drop_last()) + escape_char(s.last())
    }
}

/// `s` in double quotes, escaped.
pub open spec fn quoted(s: Seq<char>) -> Seq<char> {
    seq!['"'] + escaped(s) + seq!['"']
}

/// The human-readable text of a conversion fault.
pub open spec fn conversion_text(f: FixFault) -> Seq<char> {
    match f {
        FixFault::MissingField(tag) => "missing required FIX field "@ + decimal_chars(tag as nat),
        FixFault::UnrecognisedValue(tag, v) => "unrecognised FIX value "@ + quoted(v) + " for tag "@
            + decimal_chars(tag as nat),
        FixFault::InvalidNumber(tag, v) => "invalid numeric FIX value "@ + quoted(v) + " for tag "@
            + decimal_chars(tag as nat),
        FixFault::InvalidPrice(v) => "invalid price string "@ + quoted(v),
        FixFault::UnsupportedMsgType(v) => v,
        FixFault::OrderBook(v) => v,
    }
}

/// Append `s` to `out` in double quotes, escaped.
pub fn push_quoted(out: &mut String, s: &str)
    ensures
        final(out)@ == old(out)@ + quoted(s@),
{
    push_str(out, "\"");
    proof {
        reveal_strlit("\"");
    }
    let ghost start = out@;
    let n = s.unicode_len();
    let mut i: usize = 0;
    while i < n
        invariant
            i <= n,
            n == s@.len(),
            out@ == start + escaped(s@.subrange(0, i as int)),
        decreases n - i,
    {
        let c = s.get_char(i);
        proof {
            reveal_strlit("\\\"");
            reveal_strlit("\\\\");
            reveal_strlit("\\n");
            reveal_strlit("\\r");
            reveal_strlit("\\t");
            reveal_strlit("\\0");
        }
        if c == '"' {
            push_str(out, "\\\"");
        } else if c == '\\' {
            push_str(out, "\\\\");
        } else if c == '\n' {
            push_str(out, "\\n");
        } else if c == '\r' {
            push_str(out, "\\r");
        } else if c == '\t' {
            push_str(out, "\\t");
        } else if c == '\0' {
            push_str(out, "\\0");
        } else {
            push_str(out, s.substring_char(i, i + 1));
        }
        assert(s@.subrange(0, i + 1).drop_last() =~= s@.subrange(0, i as int));
        assert(s@.subrange(0, i + 1).last() == c);
        assert(out@ =~= start + escaped(s@.subrange(0, i + 1)));
        i = i + 1;
    }
    assert(s@.subrange(0, n as int) =~= s@);
    push_str(out, "\"");
    assert(out@ =~= old(out)@ + quoted(s@));
}

impl FixConversionError {
    /// The human-readable text of this error.
    pub fn to_text(&self) -> (t: String)
        ensures
            t@ == conversion_text(self@),
    {
        let mut t = String::new();
        match self {
            FixConversionError::MissingField(tag) => {
                push_str(&mut t, "missing required FIX field ");
                push_decimal(&mut t, *tag as u128);
            },
            FixConversionError::UnrecognisedValue { tag, value } => {
                push_str(&mut t, "unrecognised FIX value ");
                push_quoted(&mut t, value.as_str());
                push_str(&mut t, " for tag ");
                push_decimal(&mut t, *tag as u128);
            },
            FixConversionError::InvalidNumber { tag, value } => {
                push_str(&mut t, "invalid numeric FIX value ");
                push_quoted(&mut t, value.as_str());
                push_str(&mut t, " for tag ");
                push_decimal(&mut t, *tag as u128);
            },
            FixConversionError::InvalidPrice(value) => {
                push_str(&mut t, "invalid price string ");
                push_quoted(&mut t, value.as_str());
            },
        }
        assert(t@ =~= conversion_text(self@));
        t
    }

    /// This error as an order book error: an invalid operation carrying
    /// its text.
    pub fn into_book_error(self) -> (e: OrderBookError)
        ensures
            e matches OrderBookError::InvalidOperation { message } && message@ == conversion_text(self@),
    {
        OrderBookError::InvalidOperation { message: self.to_text() }
    }
}

} // verus!
