//! The machine's clock, by which a search keeps to its time.

use std::time::{Duration, Instant};
use vstd::prelude::*;

verus! {

/// A moment on the machine's clock. Nothing of it shows but by the
/// functions below.
#[verifier::external_type_specification]
#[verifier::external_body]
pub struct ExInstant(Instant);

/// `Instant::now` of std: the present moment. Nothing is claimed of it.
#[verifier::external_body]
pub(crate) fn now() -> Instant {
    Instant::now()
}

/// `Instant::elapsed` of std: the time that has passed since `start`.
/// Nothing is claimed of it.
#[verifier::external_body]
pub(crate) fn elapsed(start: &Instant) -> Duration {
    start.elapsed()
}

/// `Duration::as_nanos` of std: the length of a span of time in
/// nanoseconds. Nothing is claimed of it.
#[verifier::external_body]
pub(crate) fn nanos(span: &Duration) -> u128 {
    span.as_nanos()
}

} // verus!
