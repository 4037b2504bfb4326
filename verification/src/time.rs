//! Wall-clock access. The mutating operations take the current time as an
//! explicit argument, so their contracts hold for every reading; hosts that
//! want the real clock pass this function's result in.

use vstd::prelude::*;

verus! {

/// Seconds since the Unix epoch as the system clock reads now, or zero when
/// the clock reads earlier than the epoch. Nothing can be promised of the
/// value itself: two readings may differ.
pub fn current_time() -> u64 {
    system_time_secs()
}

/// Relies on `std::time::SystemTime::now` and `duration_since`: the whole
/// seconds of the clock's distance from the Unix epoch, zero when the clock
/// reads earlier than the epoch.
#[verifier::external_body]
fn system_time_secs() -> u64 {
    match std::time::SystemTime::now().duration_since(std::time::UNIX_EPOCH) {
        Ok(d) => d.as_secs(),
        Err(_) => 0,
    }
}

} // verus!
