//! The time of day.

use vstd::prelude::*;

verus! {

/// The seconds since the Unix epoch: `chrono::Utc::now` and `DateTime::timestamp`. They
/// are never negative: chrono panics if the system's clock stands before 1970. Nothing
/// else is claimed of the value, which is that clock.
#[verifier::external_body]
pub(crate) fn unix_now() -> (seconds: i64)
    ensures
        seconds >= 0,
{
    chrono::Utc::now().timestamp()
}

/// The local date and time as `2024-01-31 18:05:09`: `chrono::Local::now` and
/// `DateTime::format`. Nothing is claimed of the text, which is the system's clock in the
/// system's time zone. chrono panics if the clock stands before 1970, and if the time zone
/// as the system describes it gives no valid offset for that time.
#[verifier::external_body]
pub(crate) fn local_now() -> (text: String) {
    chrono::Local::now().format("%Y-%m-%d %H:%M:%S").to_string()
}

} // verus!
