//! Trusted declarations for checking UTF-8 with std and for reading calendar time
//! with the `time` crate.
use vstd::prelude::*;

verus! {

/// Wraps `std::str::from_utf8`: per its documentation it succeeds exactly when the
/// bytes are well-formed UTF-8, which is vstd's `valid_utf8`.
#[verifier::external_body]
pub(crate) fn utf8_is_valid(bytes: &[u8]) -> (r: bool)
    ensures
        r == vstd::utf8::valid_utf8(bytes@),
{
    std::str::from_utf8(bytes).is_ok()
}


/// The proleptic Gregorian date (year, month number, day) of the day `days` days
/// after 1970-01-01.
pub open spec fn civil_date(days: int) -> (int, int, int) {
    let z = days + 719468;
    let era = z / 146097;
    let doe = z - era * 146097;
    let yoe = (doe - doe / 1460 + doe / 36524 - doe / 146096) / 365;
    let doy = doe - (365 * yoe + yoe / 4 - yoe / 100);
    let mp = (5 * doy + 2) / 153;
    let day = doy - (153 * mp + 2) / 5 + 1;
    let month = if mp < 10 {
        mp + 3
    } else {
        mp - 9
    };
    let year = yoe + era * 400 + (if month <= 2 {
        1int
    } else {
        0int
    });
    (year, month, day)
}

/// The UTC calendar fields (year, month number, day, hour, minute, second) that
/// `time::OffsetDateTime::from_unix_timestamp` gives for a Unix timestamp in seconds,
/// or `None` where it reports the timestamp out of its range.
pub uninterp spec fn civil_time(secs: i64) -> Option<(i32, u8, u8, u8, u8, u8)>;

/// Wraps `time::OffsetDateTime::from_unix_timestamp` and reads the date and time fields
/// of its result. Their ranges are those that the crate documents for `month` and
/// `day`; the date is that of the timestamp's UTC day in the proleptic Gregorian
/// calendar that the crate uses, and the time of day is the timestamp's seconds
/// within that day, split into hours, minutes and seconds, as the crate computes it. The call succeeds at least
/// for the timestamps from the start of year -9999 to the end of year 9999.
#[verifier::external_body]
pub(crate) fn unix_civil_time(secs: i64) -> (r: Option<(i32, u8, u8, u8, u8, u8)>)
    ensures
        r == civil_time(secs),
        r matches Some(c) ==> 1 <= c.1 <= 12 && 1 <= c.2 <= 31 && c.3 < 24 && c.4 < 60 && c.5 < 60,
        r matches Some(c) ==> c.3 == (secs % 86400) / 3600 && c.4 == ((secs % 86400) % 3600) / 60
            && c.5 == (secs % 86400) % 60,
        r matches Some(c) ==> civil_date(secs / 86400) == (c.0 as int, c.1 as int, c.2 as int),
        -377_705_116_800 <= secs <= 253_402_300_799 ==> r is Some,
{
    match time::OffsetDateTime::from_unix_timestamp(secs) {
        Ok(t) => Some((t.year(), t.month() as u8, t.day(), t.hour(), t.minute(), t.second())),
        Err(_) => None,
    }
}

} // verus!
