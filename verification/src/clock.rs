//! The store's time source: wall-clock seconds for row timestamps.

use vstd::prelude::*;

verus! {

/// Relies on chrono's `Utc::now` / `DateTime::timestamp`: the wall clock,
/// read as whole seconds since the Unix epoch. Nothing can be promised of
/// a clock reading.
#[verifier::external_body]
fn now_timestamp() -> i64 {
    chrono::Utc::now().timestamp()
}

/// The wall clock as seconds since the epoch, clamped at zero for clocks
/// set before 1970.
pub fn now_seconds() -> u64 {
    let t = now_timestamp();
    if t < 0 {
        0
    } else {
        t as u64
    }
}

} // verus!
