use chrono::Timelike;
use vstd::prelude::*;

verus! {

/// Largest timestamp magnitude, in epoch seconds, that the calendar
/// conversion accepts: chrono's `DateTime::from_timestamp` returns a value
/// for every timestamp within roughly 260000 years of the epoch, and this
/// bound stays safely inside that.
pub const TIMESTAMP_LIMIT: i64 = 8_000_000_000_000;

/// The second of the New York day (0 to 86399) in which an epoch-seconds
/// timestamp falls. The timezone database is compiled into chrono-tz, so
/// this is a fixed function of the timestamp alone.
pub uninterp spec fn new_york_second_of_day(t: int) -> int;

/// Relies on chrono's `DateTime::from_timestamp` and `with_timezone`, and on
/// chrono-tz's New York table, to turn epoch seconds into a local time of
/// day; `num_seconds_from_midnight` is documented to stay below 86400.
#[verifier::external_body]
pub(crate) fn ny_second_of_day(t: i64) -> (r: u32)
    requires
        -TIMESTAMP_LIMIT <= t <= TIMESTAMP_LIMIT,
    ensures
        r as int == new_york_second_of_day(t as int),
        r < 86400,
{
    let utc = chrono::DateTime::from_timestamp(t, 0)
        .expect("timestamp within the documented chrono range");
    let local = utc.with_timezone(&chrono_tz::America::New_York);
    local.time().num_seconds_from_midnight()
}

} // verus!
