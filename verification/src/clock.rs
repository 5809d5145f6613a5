//! The wall clock.
use vstd::prelude::*;

verus! {

/// Seconds since the Unix epoch now, by `SystemTime::now`; 0 when the clock
/// reads a time before the epoch. Nothing is stated of the value: it is
/// whatever the system clock says.
#[verifier::external_body]
pub fn unix_now_secs() -> (r: u64) {
    std::time::SystemTime::now().duration_since(std::time::UNIX_EPOCH).unwrap_or_default().as_secs()
}

} // verus!
