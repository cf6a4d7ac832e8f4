//! Readings of the monotonic clock.
//!
//! A reading is the number of nanoseconds since the clock was started.

use std::time::Instant;

use vstd::prelude::*;

verus! {

/// The greatest number of nanoseconds that a duration can hold: `u64::MAX`
/// whole seconds and the largest fraction of one.
pub const MAX_NANOS: u128 = 18_446_744_073_709_551_615_999_999_999;

/// The standard library's reading of the monotonic clock, as an opaque value.
#[verifier::external_type_specification]
#[verifier::external_body]
pub struct ExInstant(std::time::Instant);

/// Calls [`std::time::Instant::now`]. Nothing is claimed of the instant: it
/// depends on when the call is made.
#[verifier::external_body]
fn instant_now() -> Instant {
    Instant::now()
}

/// Calls [`std::time::Instant::elapsed`] and counts the nanoseconds of the
/// duration that it returns. Claimed is only that the count is one that a
/// duration can hold, as its seconds are a `u64` and its fraction is below one
/// second. How long ago the epoch is depends on when the call is made, so
/// nothing ties the count to the epoch.
#[verifier::external_body]
fn nanos_since(epoch: &Instant) -> (nanos: u128)
    ensures
        nanos <= MAX_NANOS,
{
    epoch.elapsed().as_nanos()
}

/// A monotonic clock that counts from the moment at which it was started. It
/// keeps the last reading that was taken of it, and none that follows is below
/// that.
#[derive(Debug, Clone, Copy)]
pub struct Clock {
    epoch: Instant,
    last: u128,
}

impl Clock {
    /// The moment at which the clock was started.
    pub closed spec fn epoch(self) -> Instant {
        self.epoch
    }

    /// The last reading that was taken of the clock, and 0 before the first.
    pub closed spec fn last(self) -> u128 {
        self.last
    }

    /// The last reading is one that a duration can hold.
    pub open spec fn wf(self) -> bool {
        self.last() <= MAX_NANOS
    }

    /// Whether this is the clock `earlier`, perhaps after more readings: it
    /// counts from the same moment, and its last reading is not below.
    pub open spec fn continues(self, earlier: Clock) -> bool {
        &&& self.epoch() == earlier.epoch()
        &&& earlier.last() <= self.last()
    }

    /// Whether `nanos` is what was read, by a call that was made, as the time
    /// since `epoch`.
    pub closed spec fn reads(epoch: Instant, nanos: u128) -> bool {
        call_ensures(nanos_since, (&epoch,), nanos)
    }

    /// Starts a clock.
    pub fn start() -> (clock: Clock)
        ensures
            clock.wf(),
            clock.last() == 0,
    {
        Clock { epoch: instant_now(), last: 0 }
    }

    /// Takes in that `reading` nanoseconds have passed since the clock was
    /// started, and returns the reading that counts: this one, or the last one
    /// if this one is below it.
    pub fn advance(&mut self, reading: u128) -> (nanos: u128)
        requires
            old(self).wf(),
            reading <= MAX_NANOS,
        ensures
            final(self).wf(),
            final(self).continues(*old(self)),
            nanos == final(self).last(),
            final(self).last() == (if reading < old(self).last() {
                old(self).last()
            } else {
                reading
            }),
    {
        if self.last < reading {
            self.last = reading;
        }
        self.last
    }

    /// Takes a reading and keeps it: the nanoseconds since the clock was
    /// started.
    pub fn tick(&mut self) -> (nanos: u128)
        requires
            old(self).wf(),
        ensures
            final(self).wf(),
            final(self).continues(*old(self)),
            final(self).epoch() == old(self).epoch(),
            final(self).last() == nanos,
            exists|reading: u128| #[trigger]
                Clock::reads(old(self).epoch(), reading) && reading <= MAX_NANOS && nanos == (
                if reading < old(self).last() {
                    old(self).last()
                } else {
                    reading
                }),
    {
        let reading = nanos_since(&self.epoch);
        assert(Clock::reads(self.epoch(), reading));
        self.advance(reading)
    }

    /// The nanoseconds since the clock was started.
    pub fn now(&self) -> (nanos: u128)
        requires
            self.wf(),
        ensures
            self.last() <= nanos <= MAX_NANOS,
            exists|reading: u128| #[trigger]
                Clock::reads(self.epoch(), reading) && reading <= MAX_NANOS && nanos == (if reading
                    < self.last() {
                    self.last()
                } else {
                    reading
                }),
    {
        let mut clock = *self;
        clock.tick()
    }
}

/// What counts as read did come of a call that reads the time: nothing else
/// shows it.
proof fn law_reads_come_of_calls(epoch: Instant, nanos: u128)
    requires
        Clock::reads(epoch, nanos),
    ensures
        call_ensures(nanos_since, (&epoch,), nanos),
        nanos <= MAX_NANOS,
{
}

/// Readings of a clock do not go back, however many were taken between.
pub proof fn law_readings_do_not_go_back(first: Clock, between: Clock, later: Clock)
    requires
        between.continues(first),
        later.continues(between),
    ensures
        later.continues(first),
        first.last() <= between.last() <= later.last(),
        first.epoch() == between.epoch(),
        between.epoch() == later.epoch(),
{
}

} // verus!
