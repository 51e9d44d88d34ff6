//! Wall-clock time, for stamping confirmed records.

use vstd::prelude::*;

verus! {

/// Relies on `std::time::SystemTime::now` and `duration_since(UNIX_EPOCH)`:
/// the seconds of the system clock since the Unix epoch, or 0 if the clock
/// stands before the epoch. Nothing is promised of the value: it depends on
/// the machine's clock at the moment of the call.
#[verifier::external_body]
pub fn current_timestamp() -> (r: u64) {
    match std::time::SystemTime::now().duration_since(std::time::UNIX_EPOCH) {
        Ok(d) => d.as_secs(),
        Err(_) => 0,
    }
}

} // verus!
