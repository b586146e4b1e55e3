//! Timestamps of log entries, and the calendar arithmetic the log formats need,
//! which `chrono` performs.

use vstd::prelude::*;
use chrono::TimeZone;
use crate::ansi::decimal;

verus! {

/// Seconds since the Unix epoch and the nanoseconds within that second.
#[derive(Debug, Clone, Copy, PartialEq, Eq, Structural, PartialOrd, Ord, Hash)]
pub struct Timestamp(pub i64, pub u32);

/// Whether `a` comes after `b`: seconds first, then nanoseconds.
pub open spec fn stamp_after(a: Timestamp, b: Timestamp) -> bool {
    a.0 > b.0 || (a.0 == b.0 && a.1 > b.1)
}

impl Timestamp {
    /// The start of the epoch.
    pub fn zero() -> (r: Self)
        ensures
            r == Timestamp(0, 0),
    {
        Timestamp(0, 0)
    }

    /// Whether `self` comes after `other`, in the order that the derived `Ord` gives.
    pub fn is_after(&self, other: &Timestamp) -> (r: bool)
        ensures
            r == stamp_after(*self, *other),
    {
        self.0 > other.0 || (self.0 == other.0 && self.1 > other.1)
    }

    /// Whether `self` and `other` are the same instant.
    pub fn same(&self, other: &Timestamp) -> (r: bool)
        ensures
            r == (*self == *other),
    {
        self.0 == other.0 && self.1 == other.1
    }
}

/// Whether `year` is a leap year of the proleptic Gregorian calendar.
pub open spec fn leap_year(year: int) -> bool {
    year % 4 == 0 && (year % 100 != 0 || year % 400 == 0)
}

/// The number of days of the month `month` of `year`.
pub open spec fn days_in_month(year: int, month: int) -> int {
    if month == 2 {
        if leap_year(year) {
            29
        } else {
            28
        }
    } else if month == 4 || month == 6 || month == 9 || month == 11 {
        30
    } else {
        31
    }
}

/// Whether `chrono` has the date `year`-`month`-`day`: a day of the proleptic
/// Gregorian calendar within the years that `NaiveDate` holds.
pub open spec fn date_exists(year: i32, month: u32, day: u32) -> bool {
    &&& -262143 <= year <= 262142
    &&& 1 <= month <= 12
    &&& 1 <= day <= days_in_month(year as int, month as int)
}

/// The number of days from 1970-01-01 to the civil date `year`-`month`-`day` of
/// the proleptic Gregorian calendar (negative before it), counted in eras of
/// 400 years that begin on March 1.
pub open spec fn days_from_civil(year: int, month: int, day: int) -> int {
    let y = if month <= 2 {
        year - 1
    } else {
        year
    };
    let era = y / 400;
    let yoe = y - era * 400;
    let mp = if month > 2 {
        month - 3
    } else {
        month + 9
    };
    let doy = (153 * mp + 2) / 5 + day - 1;
    let doe = yoe * 365 + yoe / 4 - yoe / 100 + doy;
    era * 146097 + doe - 719468
}

/// The civil date, as year, month and day, of the day `days` after 1970-01-01:
/// the inverse of [days_from_civil].
pub open spec fn civil_from_days(days: int) -> (int, int, int) {
    let z = days + 719468;
    let era = z / 146097;
    let doe = z - era * 146097;
    let yoe = (doe - doe / 1460 + doe / 36524 - doe / 146096) / 365;
    let doy = doe - (365 * yoe + yoe / 4 - yoe / 100);
    let mp = (5 * doy + 2) / 153;
    let day = doy - (153 * mp + 2) / 5 + 1;
    let month = if mp < 10 {
        mp + 3
    } else {
        mp - 9
    };
    let year = yoe + era * 400 + if month <= 2 {
        1int
    } else {
        0int
    };
    (year, month, day)
}

/// The UTC instant, as seconds and nanoseconds, of a civil date and time: none
/// where the date does not exist or the time is out of range.
pub open spec fn utc_instant(year: i32, month: u32, day: u32, hour: u32, min: u32, sec: u32) -> Option<
    (i64, u32),
> {
    if date_exists(year, month, day) && hour < 24 && min < 60 && sec < 60 {
        Some(
            (
                (days_from_civil(year as int, month as int, day as int) * 86400 + hour * 3600 + min
                    * 60 + sec) as i64,
                0u32,
            ),
        )
    } else {
        None
    }
}

/// `n` in decimal, with zeros in front up to `width` digits.
pub open spec fn zero_padded(n: nat, width: nat) -> Seq<char> {
    let d = decimal(n);
    if d.len() >= width {
        d
    } else {
        Seq::new((width - d.len()) as nat, |i: int| '0') + d
    }
}

/// How chrono writes the UTC instant `secs` with `%m-%d %H:%M`: the month, the
/// day, the hour and the minute in two digits each.
pub open spec fn month_day_time_text(secs: int) -> Seq<char> {
    let days = secs / 86400;
    let in_day = secs % 86400;
    let (y, m, d) = civil_from_days(days);
    zero_padded(m as nat, 2) + seq!['-'] + zero_padded(d as nat, 2) + seq![' '] + zero_padded(
        (in_day / 3600) as nat,
        2,
    ) + seq![':'] + zero_padded(((in_day % 3600) / 60) as nat, 2)
}

/// The UTC instant, as seconds and nanoseconds, of the naive date and time that
/// `chrono` parses from `s` with the format `fmt` (`NaiveDateTime::parse_from_str`),
/// or `None` where `s` does not match.
pub uninterp spec fn chrono_parse_naive_utc(s: Seq<char>, fmt: Seq<char>) -> Option<(i64, u32)>;

/// Calls `chrono::Utc.with_ymd_and_hms` and keeps the single result as seconds and
/// nanoseconds. Trusted: the result is `utc_instant` of the arguments: chrono
/// builds the date with `NaiveDate::from_ymd_opt` (none where it does not exist)
/// and the time with `NaiveTime::from_hms_opt` (none where the hour, minute or
/// second is out of range), with no fraction of a second, and UTC gives exactly
/// one instant, counted from the Unix epoch.
#[verifier::external_body]
pub(crate) fn utc_ymd_hms(year: i32, month: u32, day: u32, hour: u32, min: u32, sec: u32) -> (r:
    Option<(i64, u32)>)
    ensures
        r == utc_instant(year, month, day, hour, min, sec),
{
    chrono::Utc.with_ymd_and_hms(year, month, day, hour, min, sec).single().map(
        |dt| (dt.timestamp(), dt.timestamp_subsec_nanos()),
    )
}

/// Calls `chrono::NaiveDateTime::parse_from_str(s, fmt)` and reads the result as a
/// UTC instant. Trusted: the result is `chrono_parse_naive_utc` of the characters of
/// the arguments, a function of them alone.
#[verifier::external_body]
pub(crate) fn parse_naive_utc(s: &str, fmt: &str) -> (r: Option<(i64, u32)>)
    ensures
        r == chrono_parse_naive_utc(s@, fmt@),
{
    chrono::NaiveDateTime::parse_from_str(s, fmt).ok().map(
        |dt| (dt.and_utc().timestamp(), dt.and_utc().timestamp_subsec_nanos()),
    )
}


/// Whether a timestamp lies within the years 1 to 9999, with less than a second of
/// nanoseconds: an instant that chrono represents.
pub open spec fn stamp_in_range(ts: Timestamp) -> bool {
    -62135596800 <= ts.0 <= 253402300799 && ts.1 < 1_000_000_000
}


/// `stamp_after` is a strict total order on timestamps: no stamp is after itself,
/// of two stamps at most one is after the other, it is transitive, and of two
/// different stamps one is after the other.
pub proof fn lemma_stamp_order(a: Timestamp, b: Timestamp, c: Timestamp)
    ensures
        !stamp_after(a, a),
        stamp_after(a, b) ==> !stamp_after(b, a),
        stamp_after(a, b) && stamp_after(b, c) ==> stamp_after(a, c),
        a != b ==> stamp_after(a, b) || stamp_after(b, a),
{
}

} // verus!
