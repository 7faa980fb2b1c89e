//! Order lifecycle states and the tracker that records them.
//!
//! ```text
//! add_order (success, no match)    → Open
//! add_order (partial match)        → PartiallyFilled / Filled
//! add_order (rejected)             → Rejected
//! matching (resting order fills)   → PartiallyFilled → Filled
//! cancel_order                     → Cancelled { UserRequested }
//! mass cancel                      → Cancelled { MassCancel* }
//! STP                              → Cancelled { SelfTradePrevention }
//! IOC/FOK insufficient liquidity   → Cancelled { InsufficientLiquidity }
//! ```

use crate::orderbook::clock::Clock;
use crate::orderbook::reject_reason::{reject_text, RejectReason};
use crate::orderbook::text::{decimal_chars, push_decimal, push_str};
use vstd::prelude::*;

verus! {

/// Reason for an order cancellation.
#[derive(Debug, Clone, Copy, PartialEq, Eq, Hash)]
pub enum CancelReason {
    /// Cancelled by explicit user request.
    UserRequested,
    /// Cancelled by Self-Trade Prevention.
    SelfTradePrevention,
    /// Cancelled because the order's time-in-force expired.
    TimeInForceExpired,
    /// Cancelled by a cancel-all.
    MassCancelAll,
    /// Cancelled by a cancel-by-side.
    MassCancelBySide,
    /// Cancelled by a cancel-by-user.
    MassCancelByUser,
    /// Cancelled by a cancel-by-price-range.
    MassCancelByPriceRange,
    /// IOC or FOK order could not be fully filled.
    InsufficientLiquidity,
}

/// The human-readable text of a cancel reason.
pub open spec fn cancel_text(r: CancelReason) -> Seq<char> {
    match r {
        CancelReason::UserRequested => "user requested"@,
        CancelReason::SelfTradePrevention => "self-trade prevention"@,
        CancelReason::TimeInForceExpired => "time-in-force expired"@,
        CancelReason::MassCancelAll => "mass cancel all"@,
        CancelReason::MassCancelBySide => "mass cancel by side"@,
        CancelReason::MassCancelByUser => "mass cancel by user"@,
        CancelReason::MassCancelByPriceRange => "mass cancel by price range"@,
        CancelReason::InsufficientLiquidity => "insufficient liquidity"@,
    }
}

impl CancelReason {
    /// Append the text of this reason to `out`.
    pub fn write_text(self, out: &mut String)
        ensures
            final(out)@ == old(out)@ + cancel_text(self),
    {
        match self {
            CancelReason::UserRequested => push_str(out, "user requested"),
            CancelReason::SelfTradePrevention => push_str(out, "self-trade prevention"),
            CancelReason::TimeInForceExpired => push_str(out, "time-in-force expired"),
            CancelReason::MassCancelAll => push_str(out, "mass cancel all"),
            CancelReason::MassCancelBySide => push_str(out, "mass cancel by side"),
            CancelReason::MassCancelByUser => push_str(out, "mass cancel by user"),
            CancelReason::MassCancelByPriceRange => push_str(out, "mass cancel by price range"),
            CancelReason::InsufficientLiquidity => push_str(out, "insufficient liquidity"),
        }
    }

    /// The text of this reason (`user requested`, …).
    pub fn to_text(self) -> (s: String)
        ensures
            s@ == cancel_text(self),
    {
        let mut s = String::new();
        self.write_text(&mut s);
        assert(s@ =~= cancel_text(self));
        s
    }
}

/// Explicit order status for lifecycle tracking.
#[derive(Debug, Clone, PartialEq, Eq)]
pub enum OrderStatus {
    /// Accepted and resting, no fills yet.
    Open,
    /// Partially filled, remainder still resting.
    PartiallyFilled {
        /// Total quantity originally submitted.
        original_quantity: u64,
        /// Quantity filled so far.
        filled_quantity: u64,
    },
    /// Fully filled and removed from the book.
    Filled {
        /// Total quantity filled.
        filled_quantity: u64,
    },
    /// Cancelled (by user, STP, mass cancel, or expiry).
    Cancelled {
        /// Quantity filled before cancellation.
        filled_quantity: u64,
        /// Reason for cancellation.
        reason: CancelReason,
    },
    /// Rejected during validation (never entered the book).
    Rejected {
        /// Wire-side reject code.
        reason: RejectReason,
    },
}

/// Terminal states admit no further transitions.
pub open spec fn spec_is_terminal(s: OrderStatus) -> bool {
    s is Filled || s is Cancelled || s is Rejected
}

/// Active states rest in the book.
pub open spec fn spec_is_active(s: OrderStatus) -> bool {
    s is Open || s is PartiallyFilled
}

/// The filled quantity a status records (`0` for `Open` and `Rejected`).
pub open spec fn spec_filled(s: OrderStatus) -> u64 {
    match s {
        OrderStatus::Open => 0,
        OrderStatus::PartiallyFilled { filled_quantity, .. } => filled_quantity,
        OrderStatus::Filled { filled_quantity } => filled_quantity,
        OrderStatus::Cancelled { filled_quantity, .. } => filled_quantity,
        OrderStatus::Rejected { .. } => 0,
    }
}

/// The human-readable text of a status.
pub open spec fn status_text(s: OrderStatus) -> Seq<char> {
    match s {
        OrderStatus::Open => "Open"@,
        OrderStatus::PartiallyFilled { original_quantity, filled_quantity } => "PartiallyFilled("@
            + decimal_chars(filled_quantity as nat) + "/"@ + decimal_chars(original_quantity as nat)
            + ")"@,
        OrderStatus::Filled { filled_quantity } => "Filled("@ + decimal_chars(filled_quantity as nat)
            + ")"@,
        OrderStatus::Cancelled { filled_quantity, reason } => "Cancelled("@ + cancel_text(reason)
            + ", filled="@ + decimal_chars(filled_quantity as nat) + ")"@,
        OrderStatus::Rejected { reason } => "Rejected("@ + reject_text(reason) + ")"@,
    }
}

impl OrderStatus {
    /// `true` iff this is a terminal state (`Filled`, `Cancelled`, `Rejected`).
    pub fn is_terminal(&self) -> (r: bool)
        ensures
            r == spec_is_terminal(*self),
    {
        match self {
            OrderStatus::Filled { .. } | OrderStatus::Cancelled { .. } | OrderStatus::Rejected {
                ..
            } => true,
            _ => false,
        }
    }

    /// `true` iff the order is still active in the book (`Open`,
    /// `PartiallyFilled`).
    pub fn is_active(&self) -> (r: bool)
        ensures
            r == spec_is_active(*self),
    {
        match self {
            OrderStatus::Open | OrderStatus::PartiallyFilled { .. } => true,
            _ => false,
        }
    }

    /// The filled quantity, or `0` for `Open` and `Rejected`.
    pub fn filled_quantity(&self) -> (r: u64)
        ensures
            r == spec_filled(*self),
    {
        match self {
            OrderStatus::Open => 0,
            OrderStatus::PartiallyFilled { filled_quantity, .. } => *filled_quantity,
            OrderStatus::Filled { filled_quantity } => *filled_quantity,
            OrderStatus::Cancelled { filled_quantity, .. } => *filled_quantity,
            OrderStatus::Rejected { .. } => 0,
        }
    }

    /// The text of this status (`Open`, `PartiallyFilled(30/100)`, …).
    pub fn to_text(&self) -> (s: String)
        ensures
            s@ == status_text(*self),
    {
        let mut s = String::new();
        match self {
            OrderStatus::Open => push_str(&mut s, "Open"),
            OrderStatus::PartiallyFilled { original_quantity, filled_quantity } => {
                push_str(&mut s, "PartiallyFilled(");
                push_decimal(&mut s, *filled_quantity as u128);
                push_str(&mut s, "/");
                push_decimal(&mut s, *original_quantity as u128);
                push_str(&mut s, ")");
            },
            OrderStatus::Filled { filled_quantity } => {
                push_str(&mut s, "Filled(");
                push_decimal(&mut s, *filled_quantity as u128);
                push_str(&mut s, ")");
            },
            OrderStatus::Cancelled { filled_quantity, reason } => {
                push_str(&mut s, "Cancelled(");
                reason.write_text(&mut s);
                push_str(&mut s, ", filled=");
                push_decimal(&mut s, *filled_quantity as u128);
                push_str(&mut s, ")");
            },
            OrderStatus::Rejected { reason } => {
                push_str(&mut s, "Rejected(");
                reason.write_text(&mut s);
                push_str(&mut s, ")");
            },
        }
        assert(s@ =~= status_text(*self));
        s
    }

    /// A copy of this status.
    pub fn copied(&self) -> (r: Self)
        ensures
            r == *self,
    {
        match self {
            OrderStatus::Open => OrderStatus::Open,
            OrderStatus::PartiallyFilled { original_quantity, filled_quantity } => {
                OrderStatus::PartiallyFilled {
                    original_quantity: *original_quantity,
                    filled_quantity: *filled_quantity,
                }
            },
            OrderStatus::Filled { filled_quantity } => OrderStatus::Filled {
                filled_quantity: *filled_quantity,
            },
            OrderStatus::Cancelled { filled_quantity, reason } => OrderStatus::Cancelled {
                filled_quantity: *filled_quantity,
                reason: *reason,
            },
            OrderStatus::Rejected { reason } => OrderStatus::Rejected { reason: *reason },
        }
    }
}

/// Law: every status is exactly one of active or terminal.
pub proof fn law_status_active_xor_terminal(s: OrderStatus)
    ensures
        spec_is_active(s) != spec_is_terminal(s),
{
}


/// Default number of terminal-state entries retained before eviction.
pub const DEFAULT_RETENTION_CAPACITY: usize = 10_000;

/// The tracked lifecycle of one order: its current status and the
/// timestamped history of every transition.
#[derive(Debug)]
pub struct TrackedOrder {
    /// The order id.
    pub id: u128,
    /// The current status.
    pub status: OrderStatus,
    /// Every transition, oldest first: `(timestamp_ms, status)`.
    pub history: Vec<(u64, OrderStatus)>,
}

/// Tracker for order lifecycle states.
///
/// Whether `id` occurs among the first `n` ids of `q`.
pub open spec fn in_prefix(q: Seq<u128>, n: int, id: u128) -> bool {
    exists|i: int| 0 <= i < n && i < q.len() && q[i] == id
}

/// The eviction queue after a transition to `status`: a terminal status
/// appends the order's id.
pub open spec fn queue_after(q: Seq<u128>, id: u128, status: OrderStatus) -> Seq<u128> {
    if spec_is_terminal(status) { q.push(id) } else { q }
}

/// How many ids an eviction pass takes from the front of `q` to bring it
/// down to `cap`.
pub open spec fn evicted_count(q: Seq<u128>, cap: usize) -> int {
    if q.len() > cap { q.len() - cap } else { 0 }
}

/// The status an order keeps when the first `n` ids of `q` are popped: an id
/// popped while its order is terminal loses its entry; any other keeps it.
pub open spec fn after_eviction(mid: Option<OrderStatus>, q: Seq<u128>, n: int, id: u128) -> Option<OrderStatus> {
    if in_prefix(q, n, id) && (mid matches Some(s) && spec_is_terminal(s)) {
        None
    } else {
        mid
    }
}

/// Stores the current [`OrderStatus`] of every submitted order. Terminal
/// states are retained up to `retention_capacity`; beyond it the oldest
/// terminal entries are evicted first. Active orders are never evicted.
#[derive(Debug)]
pub struct OrderStateTracker<C> {
    entries: Vec<TrackedOrder>,
    terminal_queue: Vec<u128>,
    retention_capacity: usize,
    clock: C,
}

/// Copy a status history.
fn copy_history(h: &Vec<(u64, OrderStatus)>) -> (r: Vec<(u64, OrderStatus)>)
    ensures
        r@ == h@,
{
    let mut r: Vec<(u64, OrderStatus)> = Vec::new();
    let mut i: usize = 0;
    while i < h.len()
        invariant
            i <= h.len(),
            r@ == h@.subrange(0, i as int),
        decreases h.len() - i,
    {
        let (t, st) = &h[i];
        r.push((*t, st.copied()));
        i += 1;
        assert(r@ =~= h@.subrange(0, i as int));
    }
    assert(h@.subrange(0, h.len() as int) =~= h@);
    r
}

/// What recording `status` for `id` does to a tracker `t0`, leaving `t1`:
/// the status is set, a terminal one joins the eviction queue, and the
/// queue's front is popped down to the capacity, dropping each popped order
/// that is still terminal.
pub open spec fn transitioned<C: Clock>(t0: OrderStateTracker<C>, t1: OrderStateTracker<C>, id: u128, status: OrderStatus) -> bool {
    let q = queue_after(t0.pending(), id, status);
    let n = if spec_is_terminal(status) { evicted_count(q, t0.capacity()) } else { 0 };
    &&& t1.wf()
    &&& t1.capacity() == t0.capacity()
    &&& t1.pending() == q.subrange(n, q.len() as int)
    &&& forall|x: u128|
        #[trigger] t1.status_of(x) == after_eviction(if x == id { Some(status) } else { t0.status_of(x) }, q, n, x)
}

/// The quantity a tracker records as filled for `id`, `0` when untracked.
pub open spec fn filled_before<C: Clock>(t: OrderStateTracker<C>, id: u128) -> u64 {
    match t.status_of(id) {
        Some(s) => spec_filled(s),
        None => 0,
    }
}

impl<C: Clock> OrderStateTracker<C> {
    /// Order ids are unique among the tracked entries.
    pub closed spec fn wf(&self) -> bool {
        forall|i: int, j: int|
            0 <= i < j < self.entries@.len() ==> self.entries@[i].id != self.entries@[j].id
    }

    /// Whether `id` is tracked.
    pub closed spec fn tracks(&self, id: u128) -> bool {
        exists|i: int| 0 <= i < self.entries@.len() && self.entries@[i].id == id
    }

    closed spec fn index_of(&self, id: u128) -> int {
        choose|i: int| 0 <= i < self.entries@.len() && self.entries@[i].id == id
    }

    /// The current status of `id`, if tracked.
    pub closed spec fn status_of(&self, id: u128) -> Option<OrderStatus> {
        if self.tracks(id) { Some(self.entries@[self.index_of(id)].status) } else { None }
    }

    /// The transition history of `id`, if tracked.
    pub closed spec fn history_of(&self, id: u128) -> Option<Seq<(u64, OrderStatus)>> {
        if self.tracks(id) { Some(self.entries@[self.index_of(id)].history@) } else { None }
    }

    /// The number of tracked orders.
    pub closed spec fn tracked_count(&self) -> nat {
        self.entries@.len()
    }

    /// The number of tracked orders in an active state.
    pub closed spec fn active_total(&self) -> nat {
        self.entries@.filter(|e: TrackedOrder| spec_is_active(e.status)).len()
    }

    /// The number of tracked orders in a terminal state.
    pub closed spec fn terminal_total(&self) -> nat {
        self.entries@.filter(|e: TrackedOrder| spec_is_terminal(e.status)).len()
    }

    /// The retention capacity for terminal entries.
    pub closed spec fn capacity(&self) -> usize {
        self.retention_capacity
    }

    /// The number of ids waiting in the terminal eviction queue.
    pub closed spec fn queued(&self) -> nat {
        self.terminal_queue@.len()
    }

    /// The ids waiting in the terminal eviction queue, oldest first.
    pub closed spec fn pending(&self) -> Seq<u128> {
        self.terminal_queue@
    }

    /// The queue's length is the number of ids waiting in it.
    pub proof fn lemma_queued_is_pending(&self)
        ensures
            self.queued() == self.pending().len(),
    {
    }

    /// The installed clock.
    pub closed spec fn spec_clock(&self) -> C {
        self.clock
    }

    proof fn lemma_index(&self, i: int)
        requires
            self.wf(),
            0 <= i < self.entries@.len(),
        ensures
            self.tracks(self.entries@[i].id),
            self.index_of(self.entries@[i].id) == i,
    {
        let id = self.entries@[i].id;
        assert(self.entries@[i].id == id);
        let k = self.index_of(id);
        assert(0 <= k < self.entries@.len() && self.entries@[k].id == id);
    }

    /// A tracker with the default retention capacity and the given clock.
    pub fn with_clock(clock: C) -> (r: Self)
        ensures
            r.wf(),
            r.tracked_count() == 0,
            r.queued() == 0,
            r.pending() == Seq::<u128>::empty(),
            r.capacity() == DEFAULT_RETENTION_CAPACITY,
            r.spec_clock() == clock,
            forall|id: u128| !r.tracks(id),
    {
        OrderStateTracker {
            entries: Vec::new(),
            terminal_queue: Vec::new(),
            retention_capacity: DEFAULT_RETENTION_CAPACITY,
            clock,
        }
    }

    /// A tracker with a custom retention capacity and the given clock.
    pub fn with_capacity_and_clock(retention_capacity: usize, clock: C) -> (r: Self)
        ensures
            r.wf(),
            r.tracked_count() == 0,
            r.queued() == 0,
            r.pending() == Seq::<u128>::empty(),
            r.capacity() == retention_capacity,
            r.spec_clock() == clock,
            forall|id: u128| !r.tracks(id),
    {
        OrderStateTracker { entries: Vec::new(), terminal_queue: Vec::new(), retention_capacity, clock }
    }

    fn find(&self, id: u128) -> (r: Option<usize>)
        requires
            self.wf(),
        ensures
            r matches Some(i) ==> i < self.entries@.len() && self.entries@[i as int].id == id
                && self.index_of(id) == i && self.tracks(id),
            r is None ==> !self.tracks(id),
    {
        let mut i: usize = 0;
        while i < self.entries.len()
            invariant
                self.wf(),
                i <= self.entries@.len(),
                forall|k: int| 0 <= k < i ==> self.entries@[k].id != id,
            decreases self.entries.len() - i,
        {
            if self.entries[i].id == id {
                proof { self.lemma_index(i as int); }
                return Some(i);
            }
            i += 1;
        }
        None
    }

    /// The current status of an order, or `None` if it is not tracked.
    pub fn get(&self, order_id: u128) -> (r: Option<OrderStatus>)
        requires
            self.wf(),
        ensures
            r == self.status_of(order_id),
    {
        match self.find(order_id) {
            Some(i) => Some(self.entries[i].status.copied()),
            None => None,
        }
    }

    /// The full transition history of an order, oldest first, or `None` if it
    /// is not tracked.
    pub fn get_history(&self, order_id: u128) -> (r: Option<Vec<(u64, OrderStatus)>>)
        requires
            self.wf(),
        ensures
            r is None <==> self.history_of(order_id) is None,
            r matches Some(h) ==> self.history_of(order_id) == Some(h@),
    {
        match self.find(order_id) {
            Some(i) => Some(copy_history(&self.entries[i].history)),
            None => None,
        }
    }

    /// The number of tracked orders (active plus retained terminal).
    pub fn len(&self) -> (r: usize)
        ensures
            r == self.tracked_count(),
    {
        self.entries.len()
    }

    /// `true` iff no order is tracked.
    pub fn is_empty(&self) -> (r: bool)
        ensures
            r == (self.tracked_count() == 0),
    {
        self.entries.len() == 0
    }

    proof fn lemma_same_entries(a: &Self, b: &Self)
        requires
            a.entries@ == b.entries@,
        ensures
            forall|id: u128| a.status_of(id) == b.status_of(id) && a.history_of(id) == b.history_of(id)
                && a.tracks(id) == b.tracks(id),
    {
    }

    proof fn lemma_remove_keeps_others(old_t: &Self, new_t: &Self, k: int)
        requires
            old_t.wf(),
            0 <= k < old_t.entries@.len(),
            new_t.entries@ == old_t.entries@.remove(k),
        ensures
            new_t.wf(),
            !new_t.tracks(old_t.entries@[k].id),
            forall|id: u128| id != old_t.entries@[k].id ==> (new_t.status_of(id) == old_t.status_of(id)
                && new_t.history_of(id) == old_t.history_of(id)),
    {
        let gone = old_t.entries@[k].id;
        assert forall|id: u128| id != gone implies (new_t.status_of(id) == old_t.status_of(id)
            && new_t.history_of(id) == old_t.history_of(id)) by {
            if old_t.tracks(id) {
                let i = old_t.index_of(id);
                old_t.lemma_index(i);
                let j = if i < k { i } else { i - 1 };
                assert(new_t.entries@[j] == old_t.entries@[i]);
                new_t.lemma_index(j);
            } else {
                if new_t.tracks(id) {
                    let j = new_t.index_of(id);
                    let i = if j < k { j } else { j + 1 };
                    assert(old_t.entries@[i] == new_t.entries@[j]);
                }
            }
        }
        if new_t.tracks(gone) {
            let j = new_t.index_of(gone);
            let i = if j < k { j } else { j + 1 };
            assert(old_t.entries@[i] == new_t.entries@[j]);
        }
    }

    /// Record a new status for an order and return the status it had before
    /// (`None` on its first transition).
    ///
    /// The transition is appended to the order's history with a timestamp
    /// from the installed clock. A terminal status enters the eviction queue;
    /// while the queue holds more than `retention_capacity` ids, the oldest is
    /// dropped and its entry removed if that order is still terminal.
    pub fn transition(&mut self, order_id: u128, new_status: OrderStatus) -> (previous: Option<OrderStatus>)
        requires
            old(self).wf(),
        ensures
            final(self).wf(),
            previous == old(self).status_of(order_id),
            transitioned(*old(self), *final(self), order_id, new_status),
            final(self).capacity() == old(self).capacity(),
            ({
                let q = queue_after(old(self).pending(), order_id, new_status);
                let n = if spec_is_terminal(new_status) { evicted_count(q, old(self).capacity()) } else { 0 };
                &&& final(self).pending() == q.subrange(n, q.len() as int)
                &&& forall|id: u128|
                    #[trigger] final(self).status_of(id) == after_eviction(
                        if id == order_id { Some(new_status) } else { old(self).status_of(id) },
                        q,
                        n,
                        id,
                    )
            }),
            spec_is_active(new_status) ==> final(self).status_of(order_id) == Some(new_status),
            forall|id: u128|
                id != order_id && (old(self).status_of(id) matches Some(s) && spec_is_active(s))
                    ==> #[trigger] final(self).status_of(id) == old(self).status_of(id),
            final(self).history_of(order_id) is Some == final(self).status_of(order_id) is Some,
            final(self).history_of(order_id) matches Some(h) ==> h.len() > 0 && h.last().1 == new_status
                && h.drop_last() == (match old(self).history_of(order_id) {
                    Some(h0) => h0,
                    None => Seq::<(u64, OrderStatus)>::empty(),
                }),
            forall|id: u128|
                id != order_id ==> #[trigger] final(self).history_of(id) == (if final(self).status_of(id) is Some {
                    old(self).history_of(id)
                } else {
                    None
                }),
    {
        let ts = self.clock.now_millis();
        let ghost g0 = *self;
        let previous = match self.find(order_id) {
            Some(i) => {
                let prev = self.entries[i].status.copied();
                let mut e = self.entries.remove(i);
                e.status = new_status.copied();
                e.history.push((ts, new_status.copied()));
                self.entries.insert(i, e);
                proof {
                    assert forall|a: int, b: int| 0 <= a < b < self.entries@.len() implies self.entries@[a].id != self.entries@[b].id by {
                        assert(self.entries@[a].id == g0.entries@[a].id);
                        assert(self.entries@[b].id == g0.entries@[b].id);
                    }
                    self.lemma_index(i as int);
                    assert forall|id: u128| id != order_id implies self.status_of(id) == g0.status_of(id) && self.history_of(id) == g0.history_of(id) by {
                        if g0.tracks(id) {
                            let k = g0.index_of(id);
                            g0.lemma_index(k);
                            self.lemma_index(k);
                        }
                        if self.tracks(id) {
                            let k = self.index_of(id);
                            self.lemma_index(k);
                            assert(g0.entries@[k].id == id);
                        }
                    }
                }
                Some(prev)
            },
            None => {
                let mut history: Vec<(u64, OrderStatus)> = Vec::new();
                history.push((ts, new_status.copied()));
                self.entries.push(TrackedOrder { id: order_id, status: new_status.copied(), history });
                proof {
                    let n = self.entries@.len() - 1;
                    assert forall|a: int, b: int| 0 <= a < b < self.entries@.len() implies self.entries@[a].id != self.entries@[b].id by {
                        if b == n {
                            assert(self.entries@[a] == g0.entries@[a]);
                        }
                    }
                    self.lemma_index(n);
                    assert forall|id: u128| id != order_id implies self.status_of(id) == g0.status_of(id) && self.history_of(id) == g0.history_of(id) by {
                        if g0.tracks(id) {
                            let k = g0.index_of(id);
                            g0.lemma_index(k);
                            assert(self.entries@[k] == g0.entries@[k]);
                            self.lemma_index(k);
                        }
                        if self.tracks(id) {
                            let k = self.index_of(id);
                            self.lemma_index(k);
                            if k < n {
                                assert(g0.entries@[k] == self.entries@[k]);
                            }
                        }
                    }
                }
                None
            },
        };
        let ghost g1 = *self;
        proof {
            Self::lemma_same_entries(&g0, &*old(self));
            assert(g1.terminal_queue@ == old(self).terminal_queue@);
            assert forall|id: u128| #[trigger] g1.status_of(id) == (if id == order_id { Some(new_status) } else { old(self).status_of(id) }) by {}
        }
        let ghost q1 = queue_after(g1.terminal_queue@, order_id, new_status);
        let ghost n1 = evicted_count(q1, g1.retention_capacity);
        if new_status.is_terminal() {
            self.terminal_queue.push(order_id);
            let ghost mut j: int = 0;
            assert forall|id: u128| #[trigger] self.status_of(id) == after_eviction(g1.status_of(id), q1, j, id) by {}
            while self.terminal_queue.len() > self.retention_capacity
                invariant
                    self.wf(),
                    self.retention_capacity == g1.retention_capacity,
                    spec_is_terminal(new_status),
                    0 <= j <= n1,
                    q1 == g1.terminal_queue@.push(order_id),
                    n1 == evicted_count(q1, g1.retention_capacity),
                    self.terminal_queue@ == q1.subrange(j, q1.len() as int),
                    forall|id: u128| #[trigger] self.status_of(id) == after_eviction(g1.status_of(id), q1, j, id),
                    forall|id: u128|
                        #[trigger] self.history_of(id) == (if self.status_of(id) is Some {
                            g1.history_of(id)
                        } else {
                            None
                        }),
                decreases self.terminal_queue.len(),
            {
                let ghost head = *self;
                let evicted = self.terminal_queue.remove(0);
                proof {
                    assert(evicted == q1[j]);
                    assert(self.terminal_queue@ =~= q1.subrange(j + 1, q1.len() as int));
                    assert forall|id: u128| id != evicted implies in_prefix(q1, j + 1, id) == in_prefix(q1, j, id) by {
                        if in_prefix(q1, j + 1, id) {
                            let i = choose|i: int| 0 <= i < j + 1 && i < q1.len() && q1[i] == id;
                            assert(i != j);
                        }
                    }
                    assert(in_prefix(q1, j + 1, evicted)) by {
                        assert(q1[j] == evicted);
                    }
                }
                let ghost mid = *self;
                proof {
                    Self::lemma_same_entries(&head, &mid);
                    assert(head.status_of(evicted) == after_eviction(g1.status_of(evicted), q1, j, evicted));
                    assert(head.history_of(evicted) == (if head.status_of(evicted) is Some { g1.history_of(evicted) } else { None }));
                    assert(mid.status_of(evicted) == after_eviction(g1.status_of(evicted), q1, j, evicted));
                    assert(mid.history_of(evicted) == (if mid.status_of(evicted) is Some { g1.history_of(evicted) } else { None }));
                }
                match self.find(evicted) {
                    Some(k) => {
                        if self.entries[k].status.is_terminal() {
                            let ghost before = *self;
                            proof { before.lemma_index(k as int); }
                            self.entries.remove(k);
                            proof { Self::lemma_remove_keeps_others(&before, self, k as int); }
                        }
                    },
                    None => {},
                }
                proof {
                    assert(self.status_of(evicted) == (if mid.status_of(evicted) matches Some(st) && spec_is_terminal(st) {
                        None
                    } else {
                        mid.status_of(evicted)
                    }));
                    assert(self.status_of(evicted) is Some ==> self.history_of(evicted) == mid.history_of(evicted));
                    assert(self.status_of(evicted) is None ==> self.history_of(evicted) is None);
                    assert(forall|id: u128| id != evicted ==> self.status_of(id) == mid.status_of(id) && self.history_of(id) == mid.history_of(id));
                    let jj = j;
                    j = j + 1;
                    assert forall|id: u128| #[trigger] self.status_of(id) == after_eviction(g1.status_of(id), q1, j, id) by {
                        if id != evicted {
                            assert(self.status_of(id) == mid.status_of(id));
                            assert(head.status_of(id) == after_eviction(g1.status_of(id), q1, jj, id));
                        }
                    }
                    assert forall|id: u128|
                        #[trigger] self.history_of(id) == (if self.status_of(id) is Some { g1.history_of(id) } else { None }) by {
                        if id != evicted {
                            assert(self.status_of(id) == mid.status_of(id));
                            assert(self.history_of(id) == mid.history_of(id));
                            assert(head.history_of(id) == (if head.status_of(id) is Some { g1.history_of(id) } else { None }));
                        }
                    }
                }
            }
        }
        proof {
            let q = queue_after(old(self).pending(), order_id, new_status);
            let n = if spec_is_terminal(new_status) { evicted_count(q, old(self).capacity()) } else { 0 };
            assert(q == q1);
            assert forall|x: u128|
                #[trigger] self.status_of(x) == after_eviction(if x == order_id { Some(new_status) } else { old(self).status_of(x) }, q, n, x) by {
                assert(g1.status_of(x) == (if x == order_id { Some(new_status) } else { old(self).status_of(x) }));
                if !spec_is_terminal(new_status) {
                    assert(self.status_of(x) == g1.status_of(x));
                }
            }
            assert(self.wf());
            assert(self.capacity() == old(self).capacity());
            assert(self.pending() == q.subrange(n, q.len() as int));
            assert(transitioned(*old(self), *self, order_id, new_status));
        }
        previous
    }

    /// The number of tracked orders in an active state.
    pub fn active_count(&self) -> (r: usize)
        ensures
            r == self.active_total(),
    {
        let mut n: usize = 0;
        let mut i: usize = 0;
        while i < self.entries.len()
            invariant
                i <= self.entries@.len(),
                n == self.entries@.subrange(0, i as int).filter(|e: TrackedOrder| spec_is_active(e.status)).len(),
                n <= i,
            decreases self.entries.len() - i,
        {
            proof {
                let s = self.entries@.subrange(0, i as int + 1);
                assert(s.drop_last() =~= self.entries@.subrange(0, i as int));
                reveal_with_fuel(Seq::filter, 1);
            }
            if self.entries[i].status.is_active() {
                n += 1;
            }
            i += 1;
        }
        assert(self.entries@.subrange(0, i as int) =~= self.entries@);
        n
    }

    /// The number of tracked orders in a terminal state.
    pub fn terminal_count(&self) -> (r: usize)
        ensures
            r == self.terminal_total(),
    {
        let mut n: usize = 0;
        let mut i: usize = 0;
        while i < self.entries.len()
            invariant
                i <= self.entries@.len(),
                n == self.entries@.subrange(0, i as int).filter(|e: TrackedOrder| spec_is_terminal(e.status)).len(),
                n <= i,
            decreases self.entries.len() - i,
        {
            proof {
                let s = self.entries@.subrange(0, i as int + 1);
                assert(s.drop_last() =~= self.entries@.subrange(0, i as int));
                reveal_with_fuel(Seq::filter, 1);
            }
            if self.entries[i].status.is_terminal() {
                n += 1;
            }
            i += 1;
        }
        assert(self.entries@.subrange(0, i as int) =~= self.entries@);
        n
    }

    /// Whether a purge with cutoff `cutoff` removes `id`: its order is
    /// terminal and its last transition is at or before the cutoff.
    pub open spec fn purge_hits(&self, id: u128, cutoff: u64) -> bool {
        &&& self.status_of(id) matches Some(s) && spec_is_terminal(s)
        &&& self.history_of(id) matches Some(h) && h.len() > 0 && h.last().0 <= cutoff
    }

    /// What a purge that read `now` from the clock leaves: every order it
    /// hits loses its entry, every other keeps status and history.
    pub open spec fn purged_from(&self, before: Self, older_than_ms: u64, now: u64) -> bool {
        let cutoff = crate::orderbook::order::sat_sub(now, older_than_ms);
        &&& forall|id: u128|
            #[trigger] self.status_of(id) == (if before.purge_hits(id, cutoff) { None } else { before.status_of(id) })
        &&& forall|id: u128|
            #[trigger] self.history_of(id) == (if self.status_of(id) is Some { before.history_of(id) } else { None })
    }

    /// Remove every terminal entry whose last transition is at or before
    /// `now - older_than_ms` (saturating at `0`), reading `now` from the
    /// installed clock. Active entries are never purged. Returns the number
    /// of entries removed.
    pub fn purge_terminal_older_than(&mut self, older_than_ms: u64) -> (purged: usize)
        requires
            old(self).wf(),
        ensures
            final(self).wf(),
            final(self).capacity() == old(self).capacity(),
            final(self).pending() == old(self).pending(),
            purged + final(self).tracked_count() == old(self).tracked_count(),
            exists|now: u64| #[trigger] final(self).purged_from(*old(self), older_than_ms, now),
            forall|id: u128|
                (old(self).status_of(id) matches Some(s) && spec_is_active(s))
                    ==> #[trigger] final(self).status_of(id) == old(self).status_of(id),
    {
        let now = self.clock.now_millis();
        let cutoff = now.saturating_sub(older_than_ms);
        let ghost g0 = *self;
        proof { Self::lemma_same_entries(&g0, &*old(self)); }
        let n0 = self.entries.len();
        let mut purged: usize = 0;
        let mut i: usize = 0;
        while i < self.entries.len()
            invariant
                self.wf(),
                i <= self.entries@.len(),
                self.retention_capacity == g0.retention_capacity,
                self.terminal_queue@ == g0.terminal_queue@,
                purged + self.entries@.len() == g0.entries@.len(),
                n0 == g0.entries@.len(),
                cutoff == crate::orderbook::order::sat_sub(now, older_than_ms),
                forall|id: u128|
                    #[trigger] self.status_of(id) == g0.status_of(id) || (self.status_of(id) is None && g0.purge_hits(id, cutoff)),
                forall|id: u128|
                    #[trigger] self.history_of(id) == (if self.status_of(id) is Some { g0.history_of(id) } else { None }),
                forall|k: int| 0 <= k < i ==> !g0.purge_hits(#[trigger] self.entries@[k].id, cutoff),
            decreases self.entries.len() - i,
        {
            let e = &self.entries[i];
            let hl = e.history.len();
            let old_enough = hl > 0 && e.history[hl - 1].0 <= cutoff;
            let ghost here = *self;
            proof {
                here.lemma_index(i as int);
                let id = here.entries@[i as int].id;
                assert(here.status_of(id) == Some(here.entries@[i as int].status));
                assert(here.history_of(id) == Some(here.entries@[i as int].history@));
                assert(g0.status_of(id) == here.status_of(id));
                assert(g0.history_of(id) == here.history_of(id));
            }
            if e.status.is_terminal() && old_enough {
                let ghost gone = here.entries@[i as int].id;
                assert(g0.purge_hits(gone, cutoff));
                self.entries.remove(i);
                proof {
                    Self::lemma_remove_keeps_others(&here, self, i as int);
                    assert forall|k: int| 0 <= k < i implies !g0.purge_hits(#[trigger] self.entries@[k].id, cutoff) by {
                        assert(self.entries@[k] == here.entries@[k]);
                    }
                    assert forall|id: u128|
                        #[trigger] self.status_of(id) == g0.status_of(id) || (self.status_of(id) is None && g0.purge_hits(id, cutoff)) by {
                        if id != gone {
                            assert(self.status_of(id) == here.status_of(id));
                        }
                    }
                    assert forall|id: u128|
                        #[trigger] self.history_of(id) == (if self.status_of(id) is Some { g0.history_of(id) } else { None }) by {
                        if id != gone {
                            assert(self.status_of(id) == here.status_of(id));
                            assert(self.history_of(id) == here.history_of(id));
                        }
                    }
                }
                purged += 1;
            } else {
                proof {
                    let id = here.entries@[i as int].id;
                    assert(!g0.purge_hits(id, cutoff));
                }
                i += 1;
            }
        }
        proof {
            assert forall|id: u128|
                #[trigger] self.status_of(id) == (if g0.purge_hits(id, cutoff) { None } else { g0.status_of(id) }) by {
                if self.tracks(id) {
                    let k = self.index_of(id);
                    self.lemma_index(k);
                    assert(!g0.purge_hits(self.entries@[k].id, cutoff));
                }
            }
            assert(self.purged_from(g0, older_than_ms, now));
            assert(self.purged_from(*old(self), older_than_ms, now));
        }
        purged
    }

    /// Remove every tracked state.
    pub fn clear(&mut self)
        ensures
            final(self).wf(),
            final(self).tracked_count() == 0,
            final(self).queued() == 0,
            final(self).capacity() == old(self).capacity(),
            forall|id: u128| !final(self).tracks(id),
    {
        self.entries = Vec::new();
        self.terminal_queue = Vec::new();
    }
}

impl OrderStateTracker<crate::orderbook::clock::MonotonicClock> {
    /// A tracker with the default retention capacity and the wall clock.
    pub fn new() -> (r: Self)
        ensures
            r.wf(),
            r.tracked_count() == 0,
            r.queued() == 0,
            r.pending() == Seq::<u128>::empty(),
            forall|id: u128| !r.tracks(id) && r.status_of(id) is None,
            r.capacity() == DEFAULT_RETENTION_CAPACITY,
    {
        Self::with_clock(crate::orderbook::clock::MonotonicClock)
    }

    /// A tracker with a custom retention capacity and the wall clock.
    pub fn with_capacity(retention_capacity: usize) -> (r: Self)
        ensures
            r.wf(),
            r.tracked_count() == 0,
            r.queued() == 0,
            r.pending() == Seq::<u128>::empty(),
            forall|id: u128| !r.tracks(id) && r.status_of(id) is None,
            r.capacity() == retention_capacity,
    {
        Self::with_capacity_and_clock(retention_capacity, crate::orderbook::clock::MonotonicClock)
    }
}

} // verus!
