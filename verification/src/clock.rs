//! Wall-clock readings, the one place where the protocol looks at time.
use vstd::prelude::*;

verus! {

/// Milliseconds since the Unix epoch: `std::time::SystemTime::now`, read
/// as the `Duration` since `UNIX_EPOCH` in whole milliseconds (a clock set
/// before the epoch reads 0). Nothing is claimed of the value: it is the time.
#[verifier::external_body]
pub(crate) fn unix_millis() -> (ms: u64) {
    match std::time::SystemTime::now().duration_since(std::time::UNIX_EPOCH) {
        Ok(d) => d.as_millis() as u64,
        Err(_) => 0,
    }
}

/// Whole seconds since the Unix epoch: a millisecond reading of the clock
/// divided by 1000, rounded down, so at most the seconds that a `u64` of
/// milliseconds can hold.
pub fn unix_secs() -> (s: u64)
    ensures
        s <= u64::MAX / 1000,
{
    let ms: u64 = unix_millis();
    ms / 1000
}

} // verus!
