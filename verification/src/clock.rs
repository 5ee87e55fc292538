//! The wall clock, behind the one trusted item that reads it.

use vstd::prelude::*;

verus! {

/// Relies on std's `SystemTime::now` and `duration_since(UNIX_EPOCH)`:
/// whole seconds since the Unix epoch, 0 if the clock lies before it.
/// Nothing holds of the value; time is not a function of anything here.
#[verifier::external_body]
fn unix_seconds_raw() -> (r: u64) {
    match std::time::SystemTime::now().duration_since(std::time::UNIX_EPOCH) {
        Ok(d) => d.as_secs(),
        Err(_) => 0,
    }
}

/// The current Unix time in whole seconds, clamped into `i64` and so never
/// negative, as knock timestamps are signed on the wire.
pub fn now_unix() -> (r: i64)
    ensures
        r >= 0,
{
    let s = unix_seconds_raw();
    if s > i64::MAX as u64 {
        i64::MAX
    } else {
        s as i64
    }
}

} // verus!
