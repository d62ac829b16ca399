//! Points in time.

use vstd::prelude::*;

verus! {

/// A point in time, counted in nanoseconds from the start of a [`Clock`].
#[derive(Copy, Clone, Debug, PartialEq, Eq, PartialOrd, Ord, Hash, Structural)]
pub struct Moment {
    pub nanos: u128,
}

/// The longest time that a `std::time::Duration` can hold, in nanoseconds.
pub const MAX_SPAN: u128 = 18_446_744_073_709_551_615_999_999_999;

/// The nanoseconds of one millisecond.
pub const NANOS_PER_MILLI: u128 = 1_000_000;

#[verifier::external_type_specification]
#[verifier::external_body]
pub struct ExTokioInstant(tokio::time::Instant);

/// Calls `tokio::time::Instant::now`. What it returns depends on the time, and
/// nothing is said of it.
#[verifier::external_body]
fn tokio_now() -> (now: tokio::time::Instant) {
    tokio::time::Instant::now()
}

/// Calls `tokio::time::Instant::elapsed`, which is zero for an instant in the
/// future, and counts the nanoseconds of the result with
/// `std::time::Duration::as_nanos`. Claims that they are no more than a
/// duration can hold. How many they are depends on the time.
#[verifier::external_body]
fn tokio_elapsed(start: &tokio::time::Instant) -> (nanos: u128)
    ensures
        nanos <= MAX_SPAN,
{
    start.elapsed().as_nanos()
}

/// The clock that instants are read from.
#[derive(Copy, Clone)]
pub struct Clock {
    start: tokio::time::Instant,
}

impl Clock {
    /// This clock starts at an instant that the system clock was read as.
    pub closed spec fn started(self) -> bool {
        call_ensures(tokio_now, (), self.start)
    }

    /// `now` is a reading of this clock: the time that was found to have
    /// passed since its start.
    pub closed spec fn reads(self, now: Moment) -> bool {
        call_ensures(tokio_elapsed, (&self.start,), now.nanos)
    }

    /// Returns a clock that starts now.
    pub fn new() -> (clock: Self)
        ensures
            clock.started(),
    {
        Clock { start: tokio_now() }
    }

    /// Reads the clock.
    pub fn now(&self) -> (now: Moment)
        ensures
            self.reads(now),
            now.nanos <= MAX_SPAN,
    {
        Moment { nanos: tokio_elapsed(&self.start) }
    }
}

/// What a clock shows is the whole of the nanoseconds that were found to have
/// passed since the instant that it was started at, and that instant is one that
/// the system clock was read as.
proof fn clocks_count_elapsed_nanos(started: Clock, clock: &Clock, now: Moment)
    requires
        call_ensures(Clock::new, (), started),
        call_ensures(Clock::now, (clock,), now),
    ensures
        call_ensures(tokio_now, (), started.start),
        call_ensures(tokio_elapsed, (&clock.start,), now.nanos),
{
}

} // verus!
