//! The wall clock, read through `chrono`.

use chrono::Utc;
use vstd::prelude::*;

verus! {

/// `Utc::now().timestamp_millis()`: the milliseconds since the Unix epoch.
/// Nothing is claimed of the value: it is whatever the system clock says.
/// `Utc::now` does not return where the clock stands before the epoch.
#[verifier::external_body]
pub(crate) fn now_millis() -> i64 {
    Utc::now().timestamp_millis()
}

/// `Utc::now().format(..)` with the format of year, month and day: the
/// calendar date of the moment, in UTC. Nothing is claimed of the text.
/// Other formats are left out, as writing the text does not return for a
/// format that chrono does not know.
#[verifier::external_body]
pub(crate) fn today(format: &str) -> String
    requires
        format@ == "%Y-%m-%d"@,
{
    Utc::now().format(format).to_string()
}

/// `Utc::now().to_rfc3339()`: the moment as an RFC 3339 timestamp in UTC.
/// Nothing is claimed of the text.
#[verifier::external_body]
pub(crate) fn now_rfc3339() -> String {
    Utc::now().to_rfc3339()
}

} // verus!
