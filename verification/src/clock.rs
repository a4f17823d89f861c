//! The wall clock, as a plain number handed to the coordination core.
//!
//! Liveness stamps come from here; every verified operation takes the stamp
//! as an argument, so the core itself never reads the clock.

use vstd::prelude::*;

verus! {

/// Reads the system wall clock. Relies on `std::time::SystemTime::now`,
/// `SystemTime::duration_since` and `Duration::as_secs`; nothing is promised
/// of the value, since it depends on the time of the call.
#[verifier::external_body]
fn system_seconds_since_epoch() -> u64 {
    std::time::SystemTime::now()
        .duration_since(std::time::UNIX_EPOCH)
        .map(|d| d.as_secs())
        .unwrap_or(0)
}

/// Seconds since the Unix epoch, by the system wall clock; `0` if the clock
/// stands before the epoch. The liveness stamp every mutating operation
/// takes as its `now` argument.
pub fn millis_since_epoch() -> u64 {
    system_seconds_since_epoch()
}

} // verus!
