//! The monotonic clock, through `std::time::Instant`.
use vstd::prelude::*;

use std::time::{Duration, Instant};

verus! {

#[verifier::external_type_specification]
#[verifier::external_body]
pub struct ExInstant(Instant);

/// Calls `Instant::now`. Nothing is claimed of the reading: it comes from the
/// machine's monotonic clock.
#[verifier::external_body]
pub(crate) fn clock_now() -> (r: Instant) {
    Instant::now()
}

/// Calls `Instant::duration_since`: the time from `earlier` to `later`
/// (zero when `earlier` is the later one). Nothing is claimed of the
/// result: both readings come from the clock.
#[verifier::external_body]
pub(crate) fn duration_since(later: &Instant, earlier: &Instant) -> (r: Duration) {
    later.duration_since(*earlier)
}

/// Calls `Duration::as_millis`: the whole milliseconds of a duration. A
/// duration is opaque here, so nothing is claimed of the result.
#[verifier::external_body]
pub(crate) fn whole_millis(d: &Duration) -> (r: u128) {
    d.as_millis()
}

/// Calls `Duration::as_secs`: the whole seconds of a duration. A duration
/// is opaque here, so nothing is claimed of the result.
#[verifier::external_body]
pub(crate) fn whole_secs(d: &Duration) -> (r: u64) {
    d.as_secs()
}

/// Calls `Duration::as_micros`: the whole microseconds of a duration. A
/// duration is opaque here, so nothing is claimed of the result.
#[verifier::external_body]
pub(crate) fn whole_micros(d: &Duration) -> (r: u128) {
    d.as_micros()
}

} // verus!
