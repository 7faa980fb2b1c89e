//! Pluggable millisecond timestamp sources for the matching core.
//!
//! [`MonotonicClock`] reads the wall clock; [`StubClock`] is a deterministic
//! counter for tests and byte-identical replay.

use vstd::prelude::*;

verus! {

/// A source of millisecond timestamps.
pub trait Clock {
    /// Current millisecond timestamp. What it returns depends on the
    /// implementation.
    fn now_millis(&mut self) -> u64;
}

/// Production clock: wall-clock milliseconds since the Unix epoch.
#[derive(Debug, Default, Clone, Copy)]
pub struct MonotonicClock;

/// `std::time::SystemTime`, a reading of the machine's clock; opaque here.
#[verifier::external_type_specification]
#[verifier::external_body]
pub struct ExSystemTime(std::time::SystemTime);

/// `std::time::SystemTime::now`: the machine's clock now. The value depends
/// on the machine, so nothing is stated of it.
#[verifier::external_body]
fn system_now() -> std::time::SystemTime {
    std::time::SystemTime::now()
}

/// `std::time::SystemTime::duration_since` from `UNIX_EPOCH`: the time
/// elapsed since the epoch, or `None` for a reading before it. Nothing is
/// stated of which, as the reading is the machine's.
#[verifier::external_body]
fn since_epoch(t: &std::time::SystemTime) -> Option<std::time::Duration> {
    t.duration_since(std::time::UNIX_EPOCH).ok()
}

/// `std::time::Duration::as_millis`: the whole milliseconds of a duration,
/// which is opaque here, so nothing is stated of the number.
#[verifier::external_body]
fn duration_millis(d: &std::time::Duration) -> u128 {
    d.as_millis()
}

/// Wall-clock milliseconds since the Unix epoch: `0` for a clock before the
/// epoch, saturating at `u64::MAX`.
fn wall_clock_millis() -> u64 {
    let now = system_now();
    match since_epoch(&now) {
        Some(d) => {
            let ms = duration_millis(&d);
            if ms > u64::MAX as u128 {
                u64::MAX
            } else {
                ms as u64
            }
        },
        None => 0,
    }
}

impl Clock for MonotonicClock {
    fn now_millis(&mut self) -> u64 {
        wall_clock_millis()
    }
}

/// Deterministic stub clock: each reading returns the counter and then
/// advances it by `step` (default `1`).
#[derive(Debug)]
pub struct StubClock {
    counter: u64,
    step: u64,
}

impl StubClock {
    /// The counter value the next reading returns.
    pub closed spec fn spec_counter(&self) -> u64 {
        self.counter
    }

    /// The amount each reading advances the counter by.
    pub closed spec fn spec_step(&self) -> u64 {
        self.step
    }

    /// A stub clock starting at `0` with a step of `1` ms.
    pub fn new() -> (r: Self)
        ensures
            r.spec_counter() == 0,
            r.spec_step() == 1,
    {
        StubClock { counter: 0, step: 1 }
    }

    /// A stub clock starting at `start` with a step of `1` ms.
    pub fn starting_at(start: u64) -> (r: Self)
        ensures
            r.spec_counter() == start,
            r.spec_step() == 1,
    {
        StubClock { counter: start, step: 1 }
    }

    /// A stub clock starting at `start` with a custom `step`.
    pub fn with_step(start: u64, step: u64) -> (r: Self)
        ensures
            r.spec_counter() == start,
            r.spec_step() == step,
    {
        StubClock { counter: start, step }
    }

    /// Current counter value without advancing.
    pub fn peek(&self) -> (r: u64)
        ensures
            r == self.spec_counter(),
    {
        self.counter
    }

    /// Return the counter and advance it by the step, wrapping at `u64::MAX`
    /// like the underlying atomic counter does.
    pub fn tick(&mut self) -> (r: u64)
        ensures
            r == old(self).spec_counter(),
            final(self).spec_step() == old(self).spec_step(),
            final(self).spec_counter() == (old(self).spec_counter() as int + old(self).spec_step() as int) % (u64::MAX as int + 1),
    {
        let v = self.counter;
        self.counter = self.counter.wrapping_add(self.step);
        v
    }
}

/// The reading a stub clock that starts at `start` and advances by `step`
/// gives on its `k`-th call, counting from `0`: `start + k * step`, wrapping
/// past `u64::MAX`.
pub open spec fn stub_reading(start: u64, step: u64, k: nat) -> int {
    (start + k * step) % (u64::MAX as int + 1)
}

/// Law: a stub clock's readings follow `stub_reading`: the first is its
/// start, and when the counter holds the `k`-th reading, one tick leaves
/// it holding the next.
pub proof fn law_stub_clock_readings(start: u64, step: u64, k: nat)
    ensures
        stub_reading(start, step, 0) == start,
        (stub_reading(start, step, k) + step) % (u64::MAX as int + 1) == stub_reading(start, step, k + 1),
{
    let m = u64::MAX as int + 1;
    vstd::arithmetic::div_mod::lemma_small_mod(start as nat, m as nat);
    vstd::arithmetic::div_mod::lemma_small_mod(step as nat, m as nat);
    vstd::arithmetic::div_mod::lemma_add_mod_noop(start + k * step, step as int, m);
    assert(start + k * step + step == start + (k + 1) * step) by (nonlinear_arith);
}

impl Default for StubClock {
    fn default() -> (r: Self)
        ensures
            r.spec_counter() == 0,
            r.spec_step() == 1,
    {
        Self::new()
    }
}

impl Clock for StubClock {
    fn now_millis(&mut self) -> (r: u64)
        ensures
            r == old(self).spec_counter(),
            final(self).spec_step() == old(self).spec_step(),
            final(self).spec_counter() == (old(self).spec_counter() as int + old(self).spec_step() as int) % (u64::MAX as int + 1),
    {
        self.tick()
    }
}

} // verus!
