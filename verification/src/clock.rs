//! Readings of the monotonic clock. Nothing is claimed of a reading: two
//! readings may differ, and the logic that uses them is verified for every
//! value they may have.

use vstd::prelude::*;

verus! {

/// A point in time of the monotonic clock, opaque to the proofs.
#[verifier::external_type_specification]
#[verifier::external_body]
pub struct ExInstant(std::time::Instant);

/// Calls `std::time::Instant::now`. What it returns depends on the time, so
/// nothing is stated of it.
#[verifier::external_body]
pub(crate) fn instant_now() -> (r: std::time::Instant) {
    std::time::Instant::now()
}

/// Calls `std::time::Instant::elapsed` and counts the span in nanoseconds
/// (`Duration::as_nanos`). What it returns depends on the time, so nothing
/// is stated of it.
#[verifier::external_body]
pub(crate) fn elapsed_nanos(start: &std::time::Instant) -> (r: u128) {
    start.elapsed().as_nanos()
}

} // verus!
