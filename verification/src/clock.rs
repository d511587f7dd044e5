//! The wall clock, read through chrono.
//!
//! Nothing can be promised of the value a clock returns, so callers that
//! need exact contracts take the time as an argument; these entry points
//! exist for the callers that keep the original, clockless signatures.

use vstd::prelude::*;

use chrono::Utc;

verus! {

/// Relies on `chrono::Utc::now`: seconds since the Unix epoch, cast to
/// `u64` as the token code always has.  Nothing is promised of the value.
#[verifier::external_body]
pub fn now_secs() -> u64 {
    Utc::now().timestamp() as u64
}

} // verus!
