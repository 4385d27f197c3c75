//! The monotonic clock of `std::time`.

use std::time::{Duration, Instant};
use vstd::prelude::*;

verus! {

/// `std::time::Instant`, carried through unread.
#[verifier::external_type_specification]
#[verifier::external_body]
pub struct ExInstant(Instant);

/// The duration of `millis` milliseconds, as `Duration::from_millis` makes it.
pub uninterp spec fn duration_of_millis(millis: u64) -> Duration;

/// Calls `std::time::Instant::now`. The result is the time of the call, so nothing is claimed of it.
#[verifier::external_body]
pub(crate) fn instant_now() -> (now: Instant) {
    Instant::now()
}

/// Calls `std::time::Instant::elapsed` and gives the result in nanoseconds. It depends on the time
/// of the call, so nothing is claimed of it.
#[verifier::external_body]
pub(crate) fn elapsed_nanos(since: &Instant) -> (nanos: u128) {
    since.elapsed().as_nanos()
}

/// Calls `std::time::Duration::from_millis`. Claimed is only that the same number of milliseconds
/// gives the same duration.
#[verifier::external_body]
pub(crate) fn duration_from_millis(millis: u64) -> (duration: Duration)
    ensures
        duration == duration_of_millis(millis),
{
    Duration::from_millis(millis)
}

} // verus!
