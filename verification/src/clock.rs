//! Access to the monotonic clock.
//!
//! Instants and durations are opaque to the proofs: what the clock reads
//! depends on when it is read, so nothing is claimed of its readings. What
//! is computed from given instants and durations depends on them alone and
//! is named: `time_between` and `nanos`.

use vstd::prelude::*;

use std::time::{Duration, Instant};

verus! {

#[verifier::external_type_specification]
#[verifier::external_body]
pub struct ExInstant(Instant);

/// The current instant (`Instant::now`). Nothing is claimed of the value.
#[verifier::external_body]
pub(crate) fn now() -> Instant {
    Instant::now()
}

/// The time from `earlier` to `later`.
pub uninterp spec fn time_between(later: Instant, earlier: Instant) -> Duration;

/// The time from `earlier` to `later`, zero when `earlier` is the later one
/// (`Instant::duration_since`): a function of the two instants alone, named
/// `time_between`.
#[verifier::external_body]
pub(crate) fn duration_since(later: &Instant, earlier: &Instant) -> (r: Duration)
    ensures
        r == time_between(*later, *earlier),
{
    later.duration_since(*earlier)
}

/// The length of a duration in whole nanoseconds.
pub uninterp spec fn nanos(d: Duration) -> u128;

/// The length of `d` in whole nanoseconds (`Duration::as_nanos`): a
/// function of `d` alone, named `nanos`. Durations are ordered as their
/// nanosecond counts are.
#[verifier::external_body]
pub(crate) fn as_nanos(d: &Duration) -> (r: u128)
    ensures
        r == nanos(*d),
{
    d.as_nanos()
}

/// Whether something stamped `at` has expired at `now` under `timeout`:
/// the time since it was stamped is at least the timeout.
pub open spec fn is_expired(now: Instant, at: Instant, timeout: Duration) -> bool {
    nanos(time_between(now, at)) >= nanos(timeout)
}

/// A duration of `secs` whole seconds (`Duration::from_secs`): its length
/// is `secs` times a billion nanoseconds.
#[verifier::external_body]
pub(crate) fn from_secs(secs: u64) -> (r: Duration)
    ensures
        nanos(r) == secs * 1_000_000_000,
{
    Duration::from_secs(secs)
}

} // verus!
