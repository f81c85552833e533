//! The wall clock.
use vstd::prelude::*;

verus! {

/// Seconds since the Unix epoch from `SystemTime::now()`, or 0 when the clock
/// reads before the epoch.  Nothing is stated of the value: it is the time.
#[verifier::external_body]
pub(crate) fn unix_now() -> u64 {
    std::time::SystemTime::now().duration_since(std::time::UNIX_EPOCH).map(|d| d.as_secs()).unwrap_or(0)
}

} // verus!
