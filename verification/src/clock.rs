//! The process-wide clock, read through trusted wrappers. Nothing can
//! be promised of what a clock returns, so callers state what holds of
//! every reading.

use std::time::{SystemTime, UNIX_EPOCH};

use vstd::prelude::*;

verus! {

/// Relies on `SystemTime::now`: seconds since the epoch, zero for a
/// clock reading before it.
#[verifier::external_body]
pub fn now_unix_secs() -> u64 {
    match SystemTime::now().duration_since(UNIX_EPOCH) {
        Ok(d) => d.as_secs(),
        Err(_) => 0,
    }
}

/// Relies on `SystemTime::now`: milliseconds since the epoch, zero for
/// a clock reading before it, saturated far beyond any realistic date.
#[verifier::external_body]
pub fn now_unix_millis() -> u64 {
    match SystemTime::now().duration_since(UNIX_EPOCH) {
        Ok(d) => {
            let ms = d.as_millis();
            if ms > u64::MAX as u128 {
                u64::MAX
            } else {
                ms as u64
            }
        },
        Err(_) => 0,
    }
}

} // verus!
