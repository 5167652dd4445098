use std::time::Duration;
use std::time::Instant;
use vstd::prelude::*;

verus! {

/// `Instant` of the standard library: a reading of the monotonic clock.
#[verifier::external_type_specification]
#[verifier::external_body]
pub struct ExInstant(Instant);

/// `Instant::now` of the standard library. Nothing is claimed of the
/// reading.
#[verifier::external_body]
pub(crate) fn clock_start() -> Instant {
    Instant::now()
}

/// `Instant::elapsed` of the standard library: the time since `start`.
/// Nothing is claimed of the span.
#[verifier::external_body]
pub(crate) fn clock_elapsed(start: &Instant) -> Duration {
    start.elapsed()
}

} // verus!
