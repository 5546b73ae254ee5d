//! Capture-time source for decoded samples.

use vstd::prelude::*;

verus! {

/// Relies on `std::time::SystemTime::now`: the wall clock as nanoseconds
/// since the Unix epoch, or 0 should the clock read before the epoch.
/// Nothing is promised of the value — wall-clock time may jump backwards —
/// so the decoder clamps timestamps itself to keep them non-decreasing.
#[verifier::external_body]
pub(crate) fn now_nanos() -> u128 {
    std::time::SystemTime::now().duration_since(std::time::UNIX_EPOCH).unwrap_or(
        std::time::Duration::from_secs(0),
    ).as_nanos()
}

} // verus!
