//! The machine's monotonic clock. What it reads is the machine's, so nothing
//! is claimed of it.
use vstd::prelude::*;

verus! {

/// The standard library's monotonic clock reading.
#[verifier::external_type_specification]
#[verifier::external_body]
pub struct ExInstant(std::time::Instant);

/// Calls `std::time::Instant::now`. Nothing is claimed of the reading.
#[verifier::external_body]
pub(crate) fn instant_now() -> std::time::Instant {
    std::time::Instant::now()
}

/// Calls `Instant::elapsed` and reads the duration as whole nanoseconds.
/// Nothing is claimed of the reading.
#[verifier::external_body]
pub(crate) fn nanos_since(since: &std::time::Instant) -> u128 {
    since.elapsed().as_nanos()
}

} // verus!
