//! The wall clock, by which a time budget is kept. Nothing is known of what
//! the clock says, so nothing is claimed of it.

use vstd::prelude::*;
use std::time::{Duration, Instant};

verus! {

/// `std::time::Instant`: a moment on the clock, of which nothing is known.
#[verifier::external_type_specification]
#[verifier::external_body]
pub struct ExInstant(Instant);

/// `std::time::Instant::now`: the present moment.
#[verifier::external_body]
pub(crate) fn clock_now() -> (r: Instant) {
    Instant::now()
}

/// `std::time::Instant::elapsed`: the time that has passed since a moment.
#[verifier::external_body]
pub(crate) fn clock_elapsed(start: &Instant) -> (r: Duration) {
    start.elapsed()
}

/// `std::time::Duration::as_nanos`: a span of time in whole nanoseconds.
#[verifier::external_body]
pub(crate) fn span_nanos(span: &Duration) -> (r: u128) {
    span.as_nanos()
}

} // verus!
