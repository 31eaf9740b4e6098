//! The time of day.

use vstd::prelude::*;

verus! {

/// Reads the system clock with `time::OffsetDateTime::now_utc` and gives the
/// time as a Unix timestamp in seconds. Nothing is promised of the value:
/// two readings may give any two times. Where the system clock is set to a
/// year that `time` cannot hold, the call does not return.
#[verifier::external_body]
pub(crate) fn now_utc() -> i64 {
    time::OffsetDateTime::now_utc().unix_timestamp()
}

} // verus!
