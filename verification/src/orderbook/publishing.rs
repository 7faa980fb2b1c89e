//! The decisions behind publishing book events to a message bus: subject
//! names, retry backoff, flush throttling, per-publish sequence numbers and
//! the batches one flush of book changes sends.
//!
//! Connecting, sending and waiting happen elsewhere; these functions say
//! what to send, where, and how long to wait.

use crate::orderbook::book_change_event::PriceLevelChangedEvent;
use crate::orderbook::text::push_str;
use crate::orderbook::types::Side;
use vstd::prelude::*;

verus! {

/// Default batch window in milliseconds: events are collected for at most
/// this long before the batch is flushed.
pub const DEFAULT_BATCH_WINDOW_MS: u64 = 1;

/// Default maximum number of events per batch; a full batch is flushed at
/// once.
pub const DEFAULT_MAX_BATCH_SIZE: usize = 100;

/// Default capacity of the bounded event buffer; events that find it full
/// are dropped and counted.
pub const DEFAULT_CHANNEL_CAPACITY: usize = 10000;

/// Default minimum interval in milliseconds between flushes; `0` disables
/// throttling.
pub const DEFAULT_MIN_PUBLISH_INTERVAL_MS: u64 = 0;

/// Default number of retries of a failed publish.
pub const DEFAULT_MAX_RETRIES: u32 = 3;

/// Base delay in milliseconds of the exponential retry backoff.
pub const BASE_RETRY_DELAY_MS: u64 = 10;

/// `2` to the power `n`.
pub open spec fn pow2(n: nat) -> nat
    decreases n,
{
    if n == 0 {
        1
    } else {
        2 * pow2((n - 1) as nat)
    }
}

/// The delay before retry `attempt + 1`: the base delay doubled `attempt`
/// times (at most 63), saturating at `u64::MAX`.
pub open spec fn retry_delay_spec(attempt: u32) -> u64 {
    let shift: nat = if attempt < 63 { attempt as nat } else { 63 };
    let d = BASE_RETRY_DELAY_MS as nat * pow2(shift);
    if d > u64::MAX { u64::MAX } else { d as u64 }
}

/// The delay in milliseconds before the retry that follows failed attempt
/// `attempt` (counted from 0): 10, 20, 40, 80, ..., saturating.
pub fn retry_delay_ms(attempt: u32) -> (d: u64)
    ensures
        d == retry_delay_spec(attempt),
{
    let shift: u32 = if attempt < 63 { attempt } else { 63 };
    let mut p: u64 = 1;
    let mut j: u32 = 0;
    while j < shift
        invariant
            j <= shift <= 63,
            p as nat == pow2(j as nat),
            p <= 0x8000_0000_0000_0000,
        decreases shift - j,
    {
        proof {
            lemma_pow2_bound(j as nat);
            lemma_pow2_bound((j + 1) as nat);
        }
        p = p * 2;
        j = j + 1;
    }
    match BASE_RETRY_DELAY_MS.checked_mul(p) {
        Some(d) => d,
        None => u64::MAX,
    }
}

proof fn lemma_pow2_mono(a: nat, b: nat)
    requires
        a <= b,
    ensures
        1 <= pow2(a) <= pow2(b),
    decreases b,
{
    if b > 0 {
        if a < b {
            lemma_pow2_mono(a, (b - 1) as nat);
        } else {
            lemma_pow2_mono((a - 1) as nat, (b - 1) as nat);
        }
    }
}

proof fn lemma_pow2_bound(n: nat)
    requires
        n <= 63,
    ensures
        pow2(n) <= 0x8000_0000_0000_0000,
        pow2(n) >= 1,
        n < 63 ==> pow2(n) <= 0x4000_0000_0000_0000,
{
    assert(pow2(63) == 0x8000_0000_0000_0000) by {
        reveal_with_fuel(pow2, 64);
    }
    lemma_pow2_mono(n, 63);
    if n < 63 {
        lemma_pow2_mono(n, 62);
    }
}

/// Law: the retry backoff never shrinks: a later attempt waits at least as
/// long as an earlier one, and never less than the base delay.
pub proof fn law_retry_delay_non_decreasing(a: u32, b: u32)
    requires
        a <= b,
    ensures
        retry_delay_spec(a) <= retry_delay_spec(b),
        retry_delay_spec(a) >= BASE_RETRY_DELAY_MS,
{
    let sa: nat = if a < 63 { a as nat } else { 63 };
    let sb: nat = if b < 63 { b as nat } else { 63 };
    lemma_pow2_mono(sa, sb);
    lemma_pow2_mono(0, sa);
    assert(BASE_RETRY_DELAY_MS as nat * pow2(sa) <= BASE_RETRY_DELAY_MS as nat * pow2(sb)) by (nonlinear_arith)
        requires
            pow2(sa) <= pow2(sb),
    ;
    assert(BASE_RETRY_DELAY_MS as nat * pow2(sa) >= BASE_RETRY_DELAY_MS as nat) by (nonlinear_arith)
        requires
            pow2(sa) >= 1,
    ;
}

/// The number of publish attempts `max_retries` allows: one more than the
/// retries, saturating at `u32::MAX`.
pub fn max_publish_attempts(max_retries: u32) -> (n: u32)
    ensures
        n == if max_retries == u32::MAX { u32::MAX } else { (max_retries + 1) as u32 },
{
    if max_retries == u32::MAX {
        u32::MAX
    } else {
        max_retries + 1
    }
}

/// After failed attempt `attempt` of `max_attempts`: the delay before the
/// next attempt, or `None` when it was the last one.
pub fn backoff_after_failure(attempt: u32, max_attempts: u32) -> (d: Option<u64>)
    requires
        attempt < max_attempts,
    ensures
        d == if attempt + 1 < max_attempts { Some(retry_delay_spec(attempt)) } else { None },
{
    if attempt + 1 < max_attempts {
        Some(retry_delay_ms(attempt))
    } else {
        None
    }
}

/// How long to wait after a flush, `elapsed_ms` after the previous one,
/// so that flushes are at least `min_interval_ms` apart; `0` disables it.
pub fn throttle_wait_ms(elapsed_ms: u64, min_interval_ms: u64) -> (w: u64)
    ensures
        w == if min_interval_ms > 0 && elapsed_ms < min_interval_ms { (min_interval_ms - elapsed_ms) as u64 } else { 0 },
        w <= min_interval_ms,
{
    if min_interval_ms > 0 && elapsed_ms < min_interval_ms {
        min_interval_ms - elapsed_ms
    } else {
        0
    }
}

/// Whether a batch of `len` events is full at `max_batch_size`: a full
/// batch is flushed without waiting for the window to close.
pub fn batch_is_full(len: usize, max_batch_size: usize) -> (b: bool)
    ensures
        b == (len >= max_batch_size),
{
    len >= max_batch_size
}

/// The sequence number after `s`, wrapping at `u64::MAX`.
pub open spec fn next_seq(s: u64) -> u64 {
    if s == u64::MAX { 0 } else { (s + 1) as u64 }
}

/// The sequence numbers of one trade's two publishes, to its symbol's
/// subject and to the aggregate subject, drawn from counter value `seq`;
/// also returns the counter's next value. Each publish gets its own number.
pub fn trade_sequences(seq: u64) -> (r: (u64, u64, u64))
    ensures
        r.0 == seq,
        r.1 == next_seq(seq),
        r.2 == next_seq(next_seq(seq)),
        r.0 != r.1,
{
    let a = seq;
    let b = seq.wrapping_add(1);
    let c = b.wrapping_add(1);
    (a, b, c)
}

/// The subject a symbol's trades go to: `{prefix}.{symbol}`.
pub fn trade_subject(prefix: &str, symbol: &str) -> (s: String)
    ensures
        s@ == prefix@ + "."@ + symbol@,
{
    let mut s = String::new();
    push_str(&mut s, prefix);
    push_str(&mut s, ".");
    push_str(&mut s, symbol);
    assert(s@ =~= prefix@ + "."@ + symbol@);
    s
}

/// The aggregate subject every trade also goes to: `{prefix}.all`.
pub fn all_trades_subject(prefix: &str) -> (s: String)
    ensures
        s@ == prefix@ + ".all"@,
{
    let mut s = String::new();
    push_str(&mut s, prefix);
    push_str(&mut s, ".all");
    assert(s@ =~= prefix@ + ".all"@);
    s
}

/// `{prefix}.{symbol}{suffix}`.
fn book_subject(prefix: &str, symbol: &str, suffix: &str) -> (s: String)
    ensures
        s@ == prefix@ + "."@ + symbol@ + suffix@,
{
    let mut s = String::new();
    push_str(&mut s, prefix);
    push_str(&mut s, ".");
    push_str(&mut s, symbol);
    push_str(&mut s, suffix);
    assert(s@ =~= prefix@ + "."@ + symbol@ + suffix@);
    s
}

/// The subject every batch of book changes goes to:
/// `{prefix}.{symbol}.changes`.
pub fn changes_subject(prefix: &str, symbol: &str) -> (s: String)
    ensures
        s@ == prefix@ + "."@ + symbol@ + ".changes"@,
{
    book_subject(prefix, symbol, ".changes")
}

/// The subject of bid-side changes: `{prefix}.{symbol}.bid`.
pub fn bid_subject(prefix: &str, symbol: &str) -> (s: String)
    ensures
        s@ == prefix@ + "."@ + symbol@ + ".bid"@,
{
    book_subject(prefix, symbol, ".bid")
}

/// The subject of ask-side changes: `{prefix}.{symbol}.ask`.
pub fn ask_subject(prefix: &str, symbol: &str) -> (s: String)
    ensures
        s@ == prefix@ + "."@ + symbol@ + ".ask"@,
{
    book_subject(prefix, symbol, ".ask")
}

/// One price-level change within a batch.
#[derive(Debug, Clone, Copy, PartialEq, Eq)]
pub struct BookChangeEntry {
    /// The side that changed.
    pub side: Side,
    /// The level that changed.
    pub price: u128,
    /// The level's visible quantity after the change.
    pub quantity: u64,
}

impl BookChangeEntry {
    /// The entry of an event: its side, price and quantity.
    pub fn from_event(event: PriceLevelChangedEvent) -> (e: BookChangeEntry)
        ensures
            e == (BookChangeEntry { side: event.side, price: event.price, quantity: event.quantity }),
    {
        BookChangeEntry { side: event.side, price: event.price, quantity: event.quantity }
    }
}

/// A batch of book changes as one publish carries it.
#[derive(Debug, Clone)]
pub struct BookChangeBatch {
    /// The book's symbol.
    pub symbol: String,
    /// The batch's sequence number.
    pub sequence: u64,
    /// When the batch was flushed, in Unix milliseconds.
    pub timestamp_ms: u64,
    /// Number of entries.
    pub event_count: usize,
    /// The entries, in the order the changes happened.
    pub changes: Vec<BookChangeEntry>,
}

/// Which subject a batch goes to.
#[derive(Debug, Clone, Copy, PartialEq, Eq)]
pub enum BatchStream {
    /// Every change: `{prefix}.{symbol}.changes`.
    Changes,
    /// Bid-side changes: `{prefix}.{symbol}.bid`.
    Bid,
    /// Ask-side changes: `{prefix}.{symbol}.ask`.
    Ask,
}

/// The batches one flush sends, and the sequence counter's next value.
#[derive(Debug, Clone)]
pub struct FlushPlan {
    pub batches: Vec<(BatchStream, BookChangeBatch)>,
    pub next_sequence: u64,
}

/// The entries of `changes` on `side`, in order.
pub open spec fn entries_on(changes: Seq<BookChangeEntry>, side: Side) -> Seq<BookChangeEntry> {
    changes.filter(|e: BookChangeEntry| e.side == side)
}

/// `b` is the batch of `changes` for `symbol` with sequence `seq`, stamped
/// `ts`.
pub open spec fn batch_is(b: BookChangeBatch, symbol: Seq<char>, seq: u64, ts: u64, changes: Seq<BookChangeEntry>) -> bool {
    &&& b.symbol@ == symbol
    &&& b.sequence == seq
    &&& b.timestamp_ms == ts
    &&& b.event_count == changes.len()
    &&& b.changes@ == changes
}

/// The entries of `changes` on `side`.
fn entries_on_exec(changes: &Vec<BookChangeEntry>, side: Side) -> (r: Vec<BookChangeEntry>)
    ensures
        r@ == entries_on(changes@, side),
{
    let mut out: Vec<BookChangeEntry> = Vec::new();
    let mut i: usize = 0;
    while i < changes.len()
        invariant
            i <= changes@.len(),
            out@ == changes@.take(i as int).filter(|e: BookChangeEntry| e.side == side),
        decreases changes@.len() - i,
    {
        proof {
            changes@.take(i as int).lemma_filter_push(changes@[i as int], |e: BookChangeEntry| e.side == side);
            assert(changes@.take(i as int + 1) =~= changes@.take(i as int).push(changes@[i as int]));
        }
        let e = changes[i];
        let same = match (e.side, side) {
            (Side::Buy, Side::Buy) => true,
            (Side::Sell, Side::Sell) => true,
            _ => false,
        };
        if same {
            out.push(e);
        }
        i += 1;
    }
    assert(changes@.take(changes@.len() as int) =~= changes@);
    out
}

/// The batch of `changes` for `symbol`, numbered `seq` and stamped `ts`.
fn make_batch(symbol: &str, seq: u64, ts: u64, changes: Vec<BookChangeEntry>) -> (b: BookChangeBatch)
    ensures
        batch_is(b, symbol@, seq, ts, changes@),
{
    let n = changes.len();
    BookChangeBatch { symbol: symbol.to_owned(), sequence: seq, timestamp_ms: ts, event_count: n, changes }
}

/// The batches one flush of `changes` sends, numbered from counter value
/// `sequence` and stamped `timestamp_ms`.
///
/// An empty flush sends nothing. Otherwise the batch of every change goes
/// to the changes subject first; then, when there are bid changes, their
/// batch goes to the bid subject, and when there are ask changes, theirs
/// to the ask subject. Each batch takes the counter's next value.
pub fn plan_book_change_flush(symbol: &str, sequence: u64, timestamp_ms: u64, changes: Vec<BookChangeEntry>) -> (p: FlushPlan)
    ensures
        ({
            let all = changes@;
            let bids = entries_on(all, Side::Buy);
            let asks = entries_on(all, Side::Sell);
            let bid_seq = next_seq(sequence);
            let ask_seq = if bids.len() > 0 { next_seq(bid_seq) } else { bid_seq };
            let next = if asks.len() > 0 { next_seq(ask_seq) } else { ask_seq };
            let n: int = 1 + (if bids.len() > 0 { 1int } else { 0 }) + (if asks.len() > 0 { 1int } else { 0 });
            if all.len() == 0 {
                p.batches@.len() == 0 && p.next_sequence == sequence
            } else {
                &&& p.batches@.len() == n
                &&& p.batches@[0].0 == BatchStream::Changes
                &&& batch_is(p.batches@[0].1, symbol@, sequence, timestamp_ms, all)
                &&& bids.len() > 0 ==> p.batches@[1].0 == BatchStream::Bid
                    && batch_is(p.batches@[1].1, symbol@, bid_seq, timestamp_ms, bids)
                &&& asks.len() > 0 ==> p.batches@[n - 1].0 == BatchStream::Ask
                    && batch_is(p.batches@[n - 1].1, symbol@, ask_seq, timestamp_ms, asks)
                &&& p.next_sequence == next
            }
        }),
{
    let mut batches: Vec<(BatchStream, BookChangeBatch)> = Vec::new();
    if changes.len() == 0 {
        return FlushPlan { batches, next_sequence: sequence };
    }
    let bids = entries_on_exec(&changes, Side::Buy);
    let asks = entries_on_exec(&changes, Side::Sell);
    let ghost all = changes@;
    let mut seq = sequence.wrapping_add(1);
    batches.push((BatchStream::Changes, make_batch(symbol, sequence, timestamp_ms, changes)));
    let ghost b0 = batches@;
    if bids.len() > 0 {
        let b = make_batch(symbol, seq, timestamp_ms, bids);
        batches.push((BatchStream::Bid, b));
        seq = seq.wrapping_add(1);
    }
    let ghost b1 = batches@;
    if asks.len() > 0 {
        let b = make_batch(symbol, seq, timestamp_ms, asks);
        batches.push((BatchStream::Ask, b));
        seq = seq.wrapping_add(1);
    }
    proof {
        assert(batches@[0] == b0[0]);
        if entries_on(all, Side::Buy).len() > 0 {
            assert(batches@[1] == b1[1]);
        }
    }
    FlushPlan { batches, next_sequence: seq }
}

} // verus!
