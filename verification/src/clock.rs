//! The service clock. The core takes every timestamp as a plain value, so
//! the one clock read lives here, behind a trusted call; what comes back
//! depends on the machine and the moment, and nothing is promised of it.

use vstd::prelude::*;

verus! {

/// Relies on chrono::Local::now (with DateTime::timestamp): reads the wall
/// clock as whole seconds since the epoch. The reading depends on the
/// environment, so no ensures pins it.
#[verifier::external_body]
fn wall_clock_timestamp() -> (t: i64) {
    chrono::Local::now().timestamp()
}

/// The current time as whole seconds since the epoch, clamped below at
/// zero so it fits the unsigned stamps the core keeps.
pub fn now_seconds() -> u64 {
    let t = wall_clock_timestamp();
    if t < 0 {
        0
    } else {
        t as u64
    }
}

} // verus!
