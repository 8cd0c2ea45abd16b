//! Calendar fields of a UNIX timestamp in milliseconds, in UTC, as chrono
//! computes them.
use vstd::prelude::*;
use chrono::{Datelike, TimeZone, Timelike};

verus! {

/// The earliest timestamp (in milliseconds) that chrono can represent:
/// January 1 of the year -262143, 00:00:00 UTC.
pub const MIN_MILLIS: i64 = -8_334_601_228_800_000;

/// The latest timestamp (in milliseconds) that chrono can represent:
/// December 31 of the year 262142, 23:59:59.999 UTC.
pub const MAX_MILLIS: i64 = 8_210_266_876_799_999;

/// Milliseconds in a day.
pub const MILLIS_PER_DAY: i64 = 86_400_000;

/// Calendar and clock fields of an instant, in UTC.
#[derive(Clone, Copy, Debug, PartialEq, Eq, Structural)]
pub struct UtcTime {
    pub year: i32,
    pub month: u32,
    pub day: u32,
    pub hour: u32,
    pub minute: u32,
    pub second: u32,
}

/// The proleptic Gregorian (year, month, day) of the UTC day numbered `day`
/// (day 0 is January 1, 1970), as chrono's `Utc.timestamp_millis_opt`
/// computes it for every timestamp of that day. For the days chrono
/// represents, `calendar_ok` pins it down.
pub uninterp spec fn utc_date(day: int) -> (i32, u32, u32);

/// Whether `y` is a leap year of the proleptic Gregorian calendar.
pub open spec fn is_leap(y: int) -> bool {
    y % 4 == 0 && (y % 100 != 0 || y % 400 == 0)
}

/// The number of days of month `m` of year `y`.
pub open spec fn days_in_month(y: int, m: int) -> int {
    if m == 2 {
        if is_leap(y) {
            29
        } else {
            28
        }
    } else if m == 4 || m == 6 || m == 9 || m == 11 {
        30
    } else {
        31
    }
}

/// Whether `(y, m, d)` is a date of the proleptic Gregorian calendar.
pub open spec fn valid_date(y: int, m: int, d: int) -> bool {
    1 <= m <= 12 && 1 <= d <= days_in_month(y, m)
}

/// The number of days from January 1, 1970 to the date `(y, m, d)` of the
/// proleptic Gregorian calendar: years are counted from March, so that the
/// leap day ends a year, in eras of 400 years (146097 days).
pub open spec fn days_from_civil(y: int, m: int, d: int) -> int {
    let yy = if m <= 2 { y - 1 } else { y };
    let era = yy / 400;
    let yoe = yy - era * 400;
    let mp = if m > 2 { m - 3 } else { m + 9 };
    let doy = (153 * mp + 2) / 5 + d - 1;
    let doe = yoe * 365 + yoe / 4 - yoe / 100 + doy;
    era * 146097 + doe - 719468
}

/// Whether the date named for the UTC day `day` is the calendar date of that
/// day: a valid date that lies `day` days after January 1, 1970.
pub open spec fn calendar_ok(day: int) -> bool {
    let (y, m, d) = utc_date(day);
    valid_date(y as int, m as int, d as int) && days_from_civil(y as int, m as int, d as int) == day
}

/// The UTC day number of the timestamp `millis` (floor division).
pub open spec fn day_of(millis: int) -> int {
    millis / (MILLIS_PER_DAY as int)
}

/// All calendar and clock fields of the timestamp `millis` in UTC.
pub open spec fn utc_fields(millis: int) -> UtcTime {
    let (y, mo, d) = utc_date(day_of(millis));
    let secs = millis / 1000;
    UtcTime {
        year: y,
        month: mo,
        day: d,
        hour: ((secs / 3600) % 24) as u32,
        minute: ((secs / 60) % 60) as u32,
        second: (secs % 60) as u32,
    }
}

/// Whether chrono can represent the timestamp `millis`.
pub open spec fn representable(millis: int) -> bool {
    MIN_MILLIS <= millis <= MAX_MILLIS
}

/// Calls chrono's `Utc.timestamp_millis_opt(millis)` and reads the fields of
/// the instant with `year`, `month`, `day`, `hour`, `minute` and `second`.
///
/// What is claimed of chrono (its source `DateTime::from_timestamp_millis`,
/// `NaiveDate::from_num_days_from_ce_opt`): the result is a single instant
/// exactly when the timestamp lies between `MIN_MILLIS` and `MAX_MILLIS`; its
/// clock fields are the floor-division remainders of the timestamp (seconds
/// since midnight broken into hour, minute and second); its date is a valid
/// calendar date that depends only on the UTC day of the timestamp, and it is
/// the date that lies that many days after January 1, 1970 (`calendar_ok`),
/// which fixes it. The date is named `utc_date`.
#[verifier::external_body]
pub(crate) fn utc_time(millis: i64) -> (r: Option<UtcTime>)
    ensures
        r is Some <==> representable(millis as int),
        r matches Some(t) ==> {
            &&& (t.year, t.month, t.day) == utc_date(day_of(millis as int))
            &&& t == utc_fields(millis as int)
            &&& 1 <= t.month <= 12
            &&& 1 <= t.day <= 31
            &&& calendar_ok(day_of(millis as int))
        },
{
    match chrono::Utc.timestamp_millis_opt(millis).single() {
        Some(dt) => Some(
            UtcTime {
                year: dt.year(),
                month: dt.month(),
                day: dt.day(),
                hour: dt.hour(),
                minute: dt.minute(),
                second: dt.second(),
            },
        ),
        None => None,
    }
}

} // verus!
