//! Time as the cache sees it, and the policy that decides how long an entry
//! stays fresh.

use vstd::prelude::*;

verus! {

/// A point in time, in whole nanoseconds since the clock was started.
pub type Timestamp = u64;

/// A span of time, in whole nanoseconds.
pub type Ttl = u64;

/// The first instant at which an entry is stale. It is wider than
/// [`Timestamp`] so that a timestamp plus a [`Ttl`] always fits.
pub type Deadline = u128;

/// How long the outcome of a computation is served from the cache: one span
/// for successes, another (usually shorter) for failures.
#[derive(Debug, PartialEq, Eq, Clone, Copy, Structural)]
pub struct TtlPolicy {
    pub positive: Ttl,
    pub negative: Ttl,
}

impl TtlPolicy {
    /// The span granted to an outcome.
    pub open spec fn ttl_for(self, success: bool) -> Ttl {
        if success {
            self.positive
        } else {
            self.negative
        }
    }

    /// The deadline of an outcome recorded at `now`.
    pub open spec fn deadline(self, now: Timestamp, success: bool) -> int {
        now + self.ttl_for(success)
    }

    pub fn new(positive: Ttl, negative: Ttl) -> (policy: Self)
        ensures
            policy == (TtlPolicy { positive, negative }),
    {
        TtlPolicy { positive, negative }
    }

    /// The span granted to an outcome.
    pub fn ttl(&self, success: bool) -> (ttl: Ttl)
        ensures
            ttl == self.ttl_for(success),
    {
        if success {
            self.positive
        } else {
            self.negative
        }
    }

    /// The deadline of an outcome recorded at `now`. The sum is formed in
    /// 128 bits, so it is exact for every timestamp and every span.
    pub fn expiry(&self, now: Timestamp, success: bool) -> (deadline: Deadline)
        ensures
            deadline == self.deadline(now, success),
    {
        let ttl: Ttl = self.ttl(success);
        now as u128 + ttl as u128
    }
}

/// A count of nanoseconds in 64 bits. A count that does not fit, more than
/// five centuries, is taken as the largest that does.
pub open spec fn saturated(nanos: u128) -> u64 {
    if nanos > u64::MAX {
        u64::MAX
    } else {
        nanos as u64
    }
}

/// A count of nanoseconds, as the standard library gives it for a
/// `Duration`, as a [`Timestamp`] or a [`Ttl`].
pub fn from_nanos(nanos: u128) -> (ticks: u64)
    ensures
        ticks == saturated(nanos),
{
    if nanos > u64::MAX as u128 {
        u64::MAX
    } else {
        nanos as u64
    }
}

/// Whether a deadline has not been reached at `now`.
pub open spec fn before(now: Timestamp, deadline: Deadline) -> bool {
    now < deadline
}

/// The validity check: one comparison of the current time with the deadline.
pub fn is_before(now: Timestamp, deadline: Deadline) -> (fresh: bool)
    ensures
        fresh == before(now, deadline),
{
    (now as u128) < deadline
}

} // verus!
