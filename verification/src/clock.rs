//! Wall-clock access for creation timestamps.

use vstd::prelude::*;

verus! {

/// Relies on `chrono::Utc::now`: the current time as seconds since the Unix
/// epoch. The result depends on the moment of the call, so nothing is
/// promised of it.
#[verifier::external_body]
pub(crate) fn now_timestamp() -> i64 {
    chrono::Utc::now().timestamp()
}

} // verus!
