//! Verified core of a small real-time 2D engine: a type-indexed asset
//! registry and a batched quad renderer that plans one draw call per
//! (texture, depth) batch, in depth order.
//!
//! Everything that touches the GPU, the window system or floating-point
//! arithmetic is left to the caller. The types here are generic over the
//! scalar type `S` of coordinates and colours, and the functions that need a
//! computed value (a transform matrix) take the computation as a closure.

use std::time::Duration;
use std::time::Instant;
use vstd::prelude::*;

pub mod application;
pub mod assets;
pub mod graphics;
pub mod keyed;

verus! {

/// `std::time::Instant`, a reading of the monotonic clock. Opaque here.
#[verifier::external_type_specification]
#[verifier::external_body]
pub struct ExInstant(Instant);

/// The time from `earlier` to `later`, or zero where `later` is not after
/// `earlier`: what `Instant::saturating_duration_since` returns.
pub uninterp spec fn elapsed_between(earlier: Instant, later: Instant) -> Duration;

/// Reads the monotonic clock with `Instant::now`. Nothing is claimed of the
/// reading.
#[verifier::external_body]
fn clock_now() -> Instant {
    Instant::now()
}

/// `Instant::saturating_duration_since`: the difference of two clock
/// readings, which depends on the two readings alone and never panics.
#[verifier::external_body]
fn duration_between(earlier: &Instant, later: &Instant) -> (elapsed: Duration)
    ensures
        elapsed == elapsed_between(*earlier, *later),
{
    later.saturating_duration_since(*earlier)
}

/// Whether `reading` is a reading of the monotonic clock: what
/// `Instant::now` gave at some moment. It says where an instant comes
/// from and nothing of the instant itself: no two readings are known to be
/// equal, unequal or in order.
pub closed spec fn is_clock_reading(reading: Instant) -> bool {
    call_ensures(clock_now, (), reading)
}

/// A stopwatch over the monotonic clock.
pub struct Timer {
    current_instant: Instant,
}

impl Timer {
    /// The clock reading from which this timer counts.
    pub closed spec fn started(&self) -> Instant {
        self.current_instant
    }

    /// A timer that counts from the moment of the call: from what the
    /// clock reads then.
    pub fn new() -> (timer: Self)
        ensures
            is_clock_reading(timer.started()),
    {
        Self { current_instant: clock_now() }
    }

    /// The time from the start of the timer to the clock reading `now`.
    pub fn elapsed_until(&self, now: &Instant) -> (elapsed: Duration)
        ensures
            elapsed == elapsed_between(self.started(), *now),
    {
        duration_between(&self.current_instant, now)
    }

    /// The time since the timer was started or last restarted: from then
    /// to what the clock reads now.
    pub fn elapsed(&self) -> (elapsed: Duration)
        ensures
            exists|now: Instant| #[trigger] is_clock_reading(now) && elapsed == elapsed_between(self.started(), now),
    {
        let now = clock_now();
        assert(is_clock_reading(now));
        self.elapsed_until(&now)
    }

    /// Returns the time from the start of the timer to the clock reading
    /// `now`, and lets the timer count from `now`.
    pub fn restart_at(&mut self, now: Instant) -> (elapsed: Duration)
        ensures
            elapsed == elapsed_between(old(self).started(), now),
            final(self).started() == now,
    {
        let elapsed = self.elapsed_until(&now);
        self.current_instant = now;
        elapsed
    }

    /// Returns the elapsed time and starts counting anew, from the very
    /// clock reading that the elapsed time was measured at.
    pub fn restart(&mut self) -> (elapsed: Duration)
        ensures
            is_clock_reading(final(self).started()),
            elapsed == elapsed_between(old(self).started(), final(self).started()),
    {
        let now = clock_now();
        self.restart_at(now)
    }
}

} // verus!
