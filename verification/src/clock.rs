//! The time.

use vstd::prelude::*;

verus! {

/// The milliseconds since the epoch that a timestamp has room for, given those
/// that have gone by; none if the clock is set before the epoch.
pub fn timestamp_of(elapsed: Option<u128>) -> (r: u64)
    ensures
        r == match elapsed {
            Some(millis) => millis as nat % 0x1_0000_0000_0000_0000,
            None => 0,
        },
{
    match elapsed {
        Some(millis) => {
            let low: u128 = millis % 0x1_0000_0000_0000_0000;
            low as u64
        },
        None => 0,
    }
}

/// `SystemTime::elapsed` on the epoch: the time that has gone by since then,
/// or none if the clock is set before it. Nothing is known of it beforehand.
#[verifier::external_body]
fn elapsed_millis() -> (r: Option<u128>) {
    match std::time::UNIX_EPOCH.elapsed() {
        Ok(elapsed) => Some(elapsed.as_millis()),
        Err(_) => None,
    }
}

/// The time now, in milliseconds since the epoch, as `timestamp_of` puts it.
/// What time it is nothing can be promised of.
pub fn now_millis() -> (r: u64) {
    timestamp_of(elapsed_millis())
}

} // verus!
