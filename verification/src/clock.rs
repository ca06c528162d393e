//! The clock that the cache reads when it is not told the time: a monotonic
//! clock that counts nanoseconds from the moment it was started.

use vstd::prelude::*;
use std::time::{Duration, Instant};
use crate::ttl::{from_nanos, Timestamp};

verus! {

/// `std::time::Instant`. It is only handed from one call to the next.
#[verifier::external_type_specification]
#[verifier::external_body]
pub struct ExInstant(Instant);

/// `Instant::now`: the current reading of the monotonic clock. Nothing is
/// claimed of it.
#[verifier::external_body]
fn instant_now() -> (instant: Instant) {
    Instant::now()
}

/// `Instant::elapsed`: the time that has passed since `origin` was read.
/// Nothing is claimed of it.
#[verifier::external_body]
fn instant_elapsed(origin: &Instant) -> (elapsed: Duration) {
    origin.elapsed()
}

/// `Duration::as_nanos`: the span in whole nanoseconds. The span is opaque
/// here, so nothing is claimed of the number.
#[verifier::external_body]
fn duration_as_nanos(span: &Duration) -> (nanos: u128) {
    span.as_nanos()
}

/// A running clock.
pub(crate) struct Clock {
    origin: Instant,
}

impl Clock {
    /// Starts a clock. Its first readings are close to zero.
    pub(crate) fn start() -> Clock {
        Clock { origin: instant_now() }
    }

    /// The time since the clock was started. Each call reads the machine's
    /// clock, so no two readings are related here.
    pub(crate) fn now(&self) -> Timestamp {
        let elapsed: Duration = instant_elapsed(&self.origin);
        let nanos: u128 = duration_as_nanos(&elapsed);
        from_nanos(nanos)
    }
}

} // verus!
