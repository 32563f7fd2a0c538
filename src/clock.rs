//! The current UTC date, as a day number.

use chrono::Datelike;
use vstd::prelude::*;

verus! {

/// Today's UTC date as a day number.
///
/// Relies on chrono's `Utc::now` (the system clock, which chrono expects to be
/// past the Unix epoch) and `Datelike::num_days_from_ce`, which counts
/// 1 January of year 1 as day 1. Nothing is promised of the value: it is the
/// time.
#[verifier::external_body]
pub(crate) fn utc_today() -> (day: i32) {
    chrono::Utc::now().date_naive().num_days_from_ce()
}

} // verus!
