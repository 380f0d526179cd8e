//! The system clock, behind a trusted boundary.

use vstd::prelude::*;

verus! {

/// The current Unix timestamp in seconds.
///
/// Relies on chrono's `Utc::now().timestamp()`. Nothing is promised of the
/// value: the clock may move arbitrarily between calls, and every caller
/// states what holds whatever instant comes back.
#[verifier::external_body]
pub(crate) fn now_timestamp() -> i64 {
    chrono::Utc::now().timestamp()
}

} // verus!
