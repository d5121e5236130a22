//! The one place where the engine reads the time.

use vstd::prelude::*;

verus! {

/// The system clock in whole nanoseconds since the Unix epoch, read with
/// `std::time::SystemTime::now`. A clock set before the epoch reads as 0.
/// Nothing is claimed of the value: two readings may differ in either
/// direction.
#[verifier::external_body]
pub(crate) fn now_nanos() -> (now: u64) {
    match std::time::SystemTime::now().duration_since(std::time::UNIX_EPOCH) {
        Ok(since_epoch) => since_epoch.as_nanos() as u64,
        Err(_) => 0,
    }
}

} // verus!
