//! The monotonic clock that stamps flow and ARP entries.

use std::time::Instant;
use vstd::prelude::*;

verus! {

/// `std::time::Instant`, carried opaquely as the origin of a clock.
#[verifier::external_type_specification]
#[verifier::external_body]
pub struct ExInstant(Instant);

/// Calls `std::time::Instant::now`. Nothing is claimed of the instant it
/// gives back: it depends on the machine's clock.
#[verifier::external_body]
fn instant_now() -> Instant {
    Instant::now()
}

/// A monotonic clock that reads as nanoseconds since it was started.
pub struct Clock {
    origin: Instant,
    /// The latest raw reading taken, in nanoseconds (0 before the first one).
    latest: Ghost<u128>,
}

/// Reads `clock`: calls `std::time::Instant::elapsed` on its origin and
/// converts the duration to whole nanoseconds. Claimed: the reading is no
/// earlier than the clock's latest raw reading, which it becomes.
/// `elapsed` is the time since the origin as `Instant::now` measures it, and
/// std documents an instant as never earlier than any previously measured
/// one; the latest raw reading is only ever set here, from the same origin.
#[verifier::external_body]
fn elapsed_nanos(clock: &mut Clock) -> (r: u128)
    ensures
        r >= old(clock).latest@,
        final(clock).latest@ == r,
        final(clock).origin == old(clock).origin,
{
    clock.origin.elapsed().as_nanos()
}

/// A raw reading in nanoseconds, saturated to 64 bits.
pub open spec fn saturate(raw: u128) -> u64 {
    if raw > u64::MAX {
        u64::MAX
    } else {
        raw as u64
    }
}

impl Clock {
    /// The latest reading of the clock, saturated to 64 bits (0 before the
    /// first one).
    pub closed spec fn latest(&self) -> u64 {
        saturate(self.latest@)
    }

    /// Starts a clock at the current instant.
    pub fn start() -> (c: Clock)
        ensures
            c.latest() == 0,
    {
        Clock { origin: instant_now(), latest: Ghost(0) }
    }

    /// Nanoseconds since the clock was started, saturated at `u64::MAX`:
    /// never earlier than the previous reading.
    pub fn now(&mut self) -> (r: u64)
        ensures
            r >= old(self).latest(),
            final(self).latest() == r,
    {
        let raw = elapsed_nanos(self);
        if raw > u64::MAX as u128 {
            u64::MAX
        } else {
            raw as u64
        }
    }
}

} // verus!
