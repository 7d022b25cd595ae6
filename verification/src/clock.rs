//! The wall clock.

use vstd::prelude::*;

verus! {

/// Relies on chrono's `Utc::now`: seconds since the Unix epoch. The
/// value depends on the wall clock, so nothing is promised of it.
#[verifier::external_body]
pub fn now_timestamp() -> i64 {
    chrono::Utc::now().timestamp()
}

} // verus!
