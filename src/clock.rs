use vstd::prelude::*;
use crate::archive::Timestamp;

verus! {

/// The proleptic Gregorian date of a day number counted from 1970-01-01, as
/// (year, month, day); year 0 is 1 BC.
pub open spec fn civil_from_days(days: int) -> (int, int, int) {
    let z = days + 719468;
    let era = z / 146097;
    let doe = z - era * 146097;
    let yoe = (doe - doe / 1460 + doe / 36524 - doe / 146096) / 365;
    let doy = doe - (365 * yoe + yoe / 4 - yoe / 100);
    let mp = (5 * doy + 2) / 153;
    let day = doy - (153 * mp + 2) / 5 + 1;
    let month = if mp < 10 { mp + 3 } else { mp - 9 };
    let year = yoe + era * 400 + if month <= 2 { 1int } else { 0int };
    (year, month, day)
}

/// The UTC calendar reading of a Unix time, as
/// (year, month, day, hour, minute, second).
pub open spec fn utc_civil(secs: int) -> (int, int, int, int, int, int) {
    let date = civil_from_days(secs / 86400);
    let rem = secs % 86400;
    (date.0, date.1, date.2, rem / 3600, (rem % 3600) / 60, rem % 60)
}

/// First and last second of the years -9999 to 9999.
pub open spec fn in_year_range(secs: int) -> bool {
    -377705116800 <= secs <= 253402300799
}

/// Relies on `time::OffsetDateTime::from_unix_timestamp` and its getters: the
/// UTC reading of a Unix time in the proleptic Gregorian calendar, with
/// `Month` read as 1 to 12. The crate accepts at least the years -9999 to 9999.
#[verifier::external_body]
fn utc_reading(secs: i64) -> (r: Option<(i32, u8, u8, u8, u8, u8)>)
    ensures
        in_year_range(secs as int) ==> r is Some,
        r matches Some(f) ==> (f.0 as int, f.1 as int, f.2 as int, f.3 as int, f.4 as int, f.5 as int)
            == utc_civil(secs as int),
{
    let t = time::OffsetDateTime::from_unix_timestamp(secs).ok()?;
    Some((t.year(), t.month() as u8, t.day(), t.hour(), t.minute(), t.second()))
}

/// The timestamp of a UTC calendar reading whose year fits in 0..=65535.
pub open spec fn timestamp_of_reading(c: (int, int, int, int, int, int)) -> Option<Timestamp> {
    if 0 <= c.0 <= 0xffff {
        Some(Timestamp {
            year: c.0 as u16,
            month: c.1 as u8,
            day: c.2 as u8,
            hour: c.3 as u8,
            minute: c.4 as u8,
            second: c.5 as u8,
        })
    } else {
        None
    }
}

/// The UTC timestamp of a Unix time, or `None` where its year lies outside
/// 0..=65535 or the calendar cannot represent it.
pub fn timestamp_from_unix(secs: i64) -> (r: Option<Timestamp>)
    ensures
        in_year_range(secs as int) ==> r == timestamp_of_reading(utc_civil(secs as int)),
        r matches Some(t) ==> Some(t) == timestamp_of_reading(utc_civil(secs as int)),
{
    match utc_reading(secs) {
        Some((y, mo, d, h, mi, s)) => {
            if 0 <= y && y <= 0xffff {
                Some(Timestamp { year: y as u16, month: mo, day: d, hour: h, minute: mi, second: s })
            } else {
                None
            }
        },
        None => None,
    }
}

} // verus!
