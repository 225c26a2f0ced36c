//! Calendar timestamps as the device records them: no time zone attached.

use vstd::prelude::*;

verus! {

/// Earliest year that chrono's `NaiveDate` represents.
pub const MIN_YEAR: i32 = -262143;

/// Latest year that chrono's `NaiveDate` represents.
pub const MAX_YEAR: i32 = 262142;

/// Leap years of the proleptic Gregorian calendar.
pub open spec fn is_leap_year(y: int) -> bool {
    (y % 4 == 0 && y % 100 != 0) || y % 400 == 0
}

pub open spec fn days_in_month(y: int, m: int) -> int {
    if m == 2 {
        if is_leap_year(y) {
            29
        } else {
            28
        }
    } else if m == 4 || m == 6 || m == 9 || m == 11 {
        30
    } else {
        31
    }
}

/// A day of the proleptic Gregorian calendar within chrono's range.
pub open spec fn date_exists(y: int, m: int, d: int) -> bool {
    MIN_YEAR <= y <= MAX_YEAR && 1 <= m <= 12 && 1 <= d <= days_in_month(y, m)
}

/// A time of day, without leap seconds.
pub open spec fn time_exists(h: int, mi: int, s: int) -> bool {
    0 <= h < 24 && 0 <= mi < 60 && 0 <= s < 60
}

#[verifier::external_type_specification]
#[verifier::external_body]
pub struct ExNaiveDate(chrono::NaiveDate);

#[verifier::external_type_specification]
#[verifier::external_body]
pub struct ExNaiveTime(chrono::NaiveTime);

/// Relies on chrono's `NaiveDate::from_ymd_opt`: `None` exactly for a day that
/// does not exist, a month or day out of range, or a year outside chrono's range.
pub assume_specification[ chrono::NaiveDate::from_ymd_opt ](year: i32, month: u32, day: u32) -> (r:
    Option<chrono::NaiveDate>)
    ensures
        r is Some <==> date_exists(year as int, month as int, day as int),
;

/// Relies on chrono's `NaiveTime::from_hms_opt`: `None` exactly when the hour is
/// 24 or more, or the minute or second 60 or more.
pub assume_specification[ chrono::NaiveTime::from_hms_opt ](hour: u32, min: u32, sec: u32) -> (r:
    Option<chrono::NaiveTime>)
    ensures
        r is Some <==> time_exists(hour as int, min as int, sec as int),
;

/// A date and time of day with no time zone.
#[derive(Debug, Copy, Clone, PartialEq, Eq, Structural, Hash, PartialOrd, Ord)]
pub struct GpsDateTime {
    pub year: i32,
    pub month: u32,
    pub day: u32,
    pub hour: u32,
    pub minute: u32,
    pub second: u32,
}

impl GpsDateTime {
    /// The fields name an existing date and time.
    pub open spec fn wf(self) -> bool {
        date_exists(self.year as int, self.month as int, self.day as int) && time_exists(
            self.hour as int,
            self.minute as int,
            self.second as int,
        )
    }

    /// Chronological order: by date, then by time of day.
    pub open spec fn spec_before(self, o: GpsDateTime) -> bool {
        if self.year != o.year {
            self.year < o.year
        } else if self.month != o.month {
            self.month < o.month
        } else if self.day != o.day {
            self.day < o.day
        } else if self.hour != o.hour {
            self.hour < o.hour
        } else if self.minute != o.minute {
            self.minute < o.minute
        } else {
            self.second < o.second
        }
    }

    /// The timestamp, where the fields name an existing date and time.
    pub fn new(year: i32, month: u32, day: u32, hour: u32, minute: u32, second: u32) -> (r:
        Option<GpsDateTime>)
        ensures
            r is Some <==> date_exists(year as int, month as int, day as int) && time_exists(
                hour as int,
                minute as int,
                second as int,
            ),
            r matches Some(t) ==> t == (GpsDateTime { year, month, day, hour, minute, second }),
    {
        let date = chrono::NaiveDate::from_ymd_opt(year, month, day);
        let time = chrono::NaiveTime::from_hms_opt(hour, minute, second);
        if date.is_some() && time.is_some() {
            Some(GpsDateTime { year, month, day, hour, minute, second })
        } else {
            None
        }
    }

    /// Whether `self` comes strictly earlier than `o`.
    pub fn before(&self, o: &GpsDateTime) -> (r: bool)
        ensures
            r == self.spec_before(*o),
    {
        if self.year != o.year {
            self.year < o.year
        } else if self.month != o.month {
            self.month < o.month
        } else if self.day != o.day {
            self.day < o.day
        } else if self.hour != o.hour {
            self.hour < o.hour
        } else if self.minute != o.minute {
            self.minute < o.minute
        } else {
            self.second < o.second
        }
    }
}

} // verus!
