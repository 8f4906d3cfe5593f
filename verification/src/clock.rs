//! The wall clock. Every rule of the library takes time as a plain
//! argument; these are the only places where the clock itself is read, and
//! nothing is assumed about what it returns.

use std::time::{SystemTime, UNIX_EPOCH};
use vstd::prelude::*;

verus! {

/// Relies on std's `SystemTime::now` against the Unix epoch: seconds since
/// it, saturating to zero for a clock set before the epoch and to the
/// maximum far past it, so the read never panics. The clock can still say
/// anything within range; callers state what holds whatever came back.
#[verifier::external_body]
pub fn now_utc_seconds() -> i64 {
    match SystemTime::now().duration_since(UNIX_EPOCH) {
        Ok(d) => i64::try_from(d.as_secs()).unwrap_or(i64::MAX),
        Err(_) => 0,
    }
}

/// Relies on std's `SystemTime::now` against the Unix epoch: milliseconds
/// since it, under the same saturating terms.
#[verifier::external_body]
pub fn now_utc_millis() -> i64 {
    match SystemTime::now().duration_since(UNIX_EPOCH) {
        Ok(d) => i64::try_from(d.as_millis()).unwrap_or(i64::MAX),
        Err(_) => 0,
    }
}

} // verus!
