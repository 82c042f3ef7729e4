//! Wall-clock time in the US Eastern zone: the calendar reading of an instant,
//! the start of its day, and the texts the dashboard shows for it.

use crate::text::{decimal, push_decimal, push_str, string_of, two_digits};
use chrono::{Datelike, TimeZone, Timelike};
use vstd::prelude::*;

verus! {

/// A calendar date and time of day as a wall clock shows it.
#[derive(Clone, Copy, Debug, PartialEq, Eq, Structural)]
pub struct CivilTime {
    pub year: i32,
    pub month: u32,
    pub day: u32,
    pub hour: u32,
    pub minute: u32,
    pub second: u32,
}

/// An instant together with its reading on an Eastern wall clock.
#[derive(Clone, Copy, Debug, PartialEq, Eq, Structural)]
pub struct EasternTime {
    /// Seconds since the Unix epoch.
    pub timestamp: i64,
    pub local: CivilTime,
    /// Days since Monday, `0` to `6`.
    pub weekday: u32,
}

impl CivilTime {
    /// Every field lies in the range a calendar gives it.
    pub open spec fn wf(self) -> bool {
        &&& 1 <= self.month <= 12
        &&& 1 <= self.day <= 31
        &&& self.hour < 24
        &&& self.minute < 60
        &&& self.second < 60
    }

    /// Checks the ranges of the fields.
    pub fn is_valid(&self) -> (b: bool)
        ensures
            b == self.wf(),
    {
        1 <= self.month && self.month <= 12 && 1 <= self.day && self.day <= 31 && self.hour < 24
            && self.minute < 60 && self.second < 60
    }

    /// The fields as mathematical integers, in the order year to second.
    pub open spec fn fields(self) -> (int, int, int, int, int, int) {
        (
            self.year as int,
            self.month as int,
            self.day as int,
            self.hour as int,
            self.minute as int,
            self.second as int,
        )
    }

    /// Seconds elapsed since midnight on the wall clock.
    pub open spec fn day_seconds(self) -> int {
        self.hour * 3600 + self.minute * 60 + self.second
    }

    /// Counts the seconds since midnight on the wall clock.
    pub fn seconds_from_midnight(&self) -> (s: u32)
        requires
            self.wf(),
        ensures
            s == self.day_seconds(),
            s < 86400,
    {
        self.hour * 3600 + self.minute * 60 + self.second
    }
}

impl EasternTime {
    /// The reading is well formed and the weekday is one of the seven.
    pub open spec fn wf(self) -> bool {
        self.local.wf() && self.weekday < 7
    }

    /// Checks the reading and the weekday.
    pub fn is_valid(&self) -> (b: bool)
        ensures
            b == self.wf(),
    {
        self.local.is_valid() && self.weekday < 7
    }
}

/// The Eastern wall-clock reading of an instant: year, month, day, hour,
/// minute, second and days since Monday; `None` where the instant lies
/// outside the representable dates.
pub uninterp spec fn eastern_reading(timestamp: int) -> Option<(int, int, int, int, int, int, int)>;

/// The instant at which an Eastern wall clock shows the given reading, with
/// its weekday in days since Monday; `None` where the clock never shows it or
/// shows it twice.
pub uninterp spec fn eastern_instant(
    year: int,
    month: int,
    day: int,
    hour: int,
    minute: int,
    second: int,
) -> Option<(int, int)>;

/// `chrono_tz::US::Eastern.timestamp_opt(timestamp, 0)`, read through the
/// `Datelike` and `Timelike` getters of the result. The getters document the
/// ranges that `wf` states; the reading itself is the zone database's.
#[verifier::external_body]
fn eastern_at(timestamp: i64) -> (r: Option<EasternTime>)
    ensures
        match r {
            Some(t) => t.timestamp == timestamp && t.wf() && eastern_reading(timestamp as int)
                == Some(
                (
                    t.local.year as int,
                    t.local.month as int,
                    t.local.day as int,
                    t.local.hour as int,
                    t.local.minute as int,
                    t.local.second as int,
                    t.weekday as int,
                ),
            ),
            None => eastern_reading(timestamp as int) is None,
        },
{
    let dt = chrono_tz::US::Eastern.timestamp_opt(timestamp, 0).single()?;
    let local = CivilTime {
        year: dt.year(),
        month: dt.month(),
        day: dt.day(),
        hour: dt.hour(),
        minute: dt.minute(),
        second: dt.second(),
    };
    Some(EasternTime { timestamp, local, weekday: dt.weekday().num_days_from_monday() })
}

/// `chrono_tz::US::Eastern.from_local_datetime` on the date and time built by
/// `NaiveDate::from_ymd_opt` and `and_hms_opt`, kept only where the mapping
/// is single. The weekday getter documents no range; `num_days_from_monday`
/// counts from 0 to 6.
#[verifier::external_body]
fn eastern_from_local(local: &CivilTime) -> (r: Option<(i64, u32)>)
    ensures
        match r {
            Some((timestamp, weekday)) => weekday < 7 && eastern_instant(
                local.year as int,
                local.month as int,
                local.day as int,
                local.hour as int,
                local.minute as int,
                local.second as int,
            ) == Some((timestamp as int, weekday as int)),
            None => eastern_instant(
                local.year as int,
                local.month as int,
                local.day as int,
                local.hour as int,
                local.minute as int,
                local.second as int,
            ) is None,
        },
{
    let date = chrono::NaiveDate::from_ymd_opt(local.year, local.month, local.day)?;
    let naive = date.and_hms_opt(local.hour, local.minute, local.second)?;
    let dt = chrono_tz::US::Eastern.from_local_datetime(&naive).single()?;
    Some((dt.timestamp(), dt.weekday().num_days_from_monday()))
}

/// What `eastern_reading` gives as a value of the library, if anything.
pub open spec fn reading_at(timestamp: int) -> Option<EasternTime> {
    match eastern_reading(timestamp) {
        Some((year, month, day, hour, minute, second, weekday)) => Some(
            EasternTime {
                timestamp: timestamp as i64,
                local: CivilTime {
                    year: year as i32,
                    month: month as u32,
                    day: day as u32,
                    hour: hour as u32,
                    minute: minute as u32,
                    second: second as u32,
                },
                weekday: weekday as u32,
            },
        ),
        None => None,
    }
}

/// The Eastern reading of an instant given in seconds since the Unix epoch.
pub fn eastern_time(timestamp: i64) -> (r: Option<EasternTime>)
    ensures
        r == reading_at(timestamp as int),
        r matches Some(t) ==> t.wf() && t.timestamp == timestamp,
{
    eastern_at(timestamp)
}

/// The instant of an Eastern wall-clock reading, where there is exactly one.
pub open spec fn instant_of(local: CivilTime) -> Option<EasternTime> {
    match eastern_instant(
        local.year as int,
        local.month as int,
        local.day as int,
        local.hour as int,
        local.minute as int,
        local.second as int,
    ) {
        Some((timestamp, weekday)) => Some(
            EasternTime { timestamp: timestamp as i64, local, weekday: weekday as u32 },
        ),
        None => None,
    }
}

/// Places a wall-clock reading in the Eastern zone. The reading is kept as
/// given; only the instant and the weekday are looked up.
pub fn eastern_from_reading(local: CivilTime) -> (r: Option<EasternTime>)
    ensures
        r == instant_of(local),
        r matches Some(t) ==> t.local == local && t.weekday < 7,
{
    match eastern_from_local(&local) {
        Some((timestamp, weekday)) => Some(EasternTime { timestamp, local, weekday }),
        None => None,
    }
}

/// The wall-clock reading of midnight on the same date.
pub open spec fn midnight_of(local: CivilTime) -> CivilTime {
    CivilTime { year: local.year, month: local.month, day: local.day, hour: 0, minute: 0, second: 0 }
}

/// The instant of local midnight on the day of `now`, if the Eastern clock shows
/// that midnight exactly once.
pub open spec fn start_of_day_of(now: EasternTime) -> Option<i64> {
    match instant_of(midnight_of(now.local)) {
        Some(t) => Some(t.timestamp),
        None => None,
    }
}

/// The reading of midnight on the date of `local`.
pub fn midnight(local: &CivilTime) -> (m: CivilTime)
    ensures
        m == midnight_of(*local),
{
    CivilTime { year: local.year, month: local.month, day: local.day, hour: 0, minute: 0, second: 0 }
}

/// Floors an instant to the start of its Eastern day.
pub fn start_of_day(now: &EasternTime) -> (r: Option<i64>)
    ensures
        r == start_of_day_of(*now),
{
    match eastern_from_reading(midnight(&now.local)) {
        Some(t) => Some(t.timestamp),
        None => None,
    }
}

/// The hour on a twelve-hour dial.
pub open spec fn hour12(hour: int) -> int {
    if hour % 12 == 0 {
        12
    } else {
        hour % 12
    }
}

/// The meridiem mark of an hour, in capitals or in small letters.
pub open spec fn meridiem(hour: int, capitals: bool) -> Seq<char> {
    if hour < 12 {
        if capitals {
            "AM"@
        } else {
            "am"@
        }
    } else {
        if capitals {
            "PM"@
        } else {
            "pm"@
        }
    }
}

/// A time of day on a twelve-hour clock: the hour without padding, the minute
/// in two digits, then the meridiem mark, as in `4:07 pm`.
pub open spec fn clock_text(hour: int, minute: int, capitals: bool) -> Seq<char> {
    decimal(hour12(hour) as nat) + seq![':'] + two_digits(minute as nat) + seq![' '] + meridiem(
        hour,
        capitals,
    )
}

/// The English name of a weekday counted in days since Monday.
pub open spec fn weekday_name(weekday: int) -> Seq<char> {
    if weekday == 0 {
        "Monday"@
    } else if weekday == 1 {
        "Tuesday"@
    } else if weekday == 2 {
        "Wednesday"@
    } else if weekday == 3 {
        "Thursday"@
    } else if weekday == 4 {
        "Friday"@
    } else if weekday == 5 {
        "Saturday"@
    } else {
        "Sunday"@
    }
}

/// The three-letter English name of a month numbered from 1.
pub open spec fn month_abbreviation(month: int) -> Seq<char> {
    if month == 1 {
        "Jan"@
    } else if month == 2 {
        "Feb"@
    } else if month == 3 {
        "Mar"@
    } else if month == 4 {
        "Apr"@
    } else if month == 5 {
        "May"@
    } else if month == 6 {
        "Jun"@
    } else if month == 7 {
        "Jul"@
    } else if month == 8 {
        "Aug"@
    } else if month == 9 {
        "Sep"@
    } else if month == 10 {
        "Oct"@
    } else if month == 11 {
        "Nov"@
    } else {
        "Dec"@
    }
}

/// Month and day as in `Jul 12`: the day carries no leading zero.
pub open spec fn month_day_text(month: int, day: int) -> Seq<char> {
    month_abbreviation(month) + seq![' '] + decimal(day as nat)
}

/// Writes a time of day on a twelve-hour clock.
pub fn clock_string(time: &CivilTime, capitals: bool) -> (s: String)
    ensures
        s@ == clock_text(time.hour as int, time.minute as int, capitals),
{
    let mut out: Vec<char> = Vec::new();
    let dial: u32 = if time.hour % 12 == 0 {
        12
    } else {
        time.hour % 12
    };
    push_decimal(&mut out, dial as u64);
    out.push(':');
    if time.minute < 10 {
        out.push('0');
    }
    push_decimal(&mut out, time.minute as u64);
    out.push(' ');
    let ghost before = out@;
    if time.hour < 12 {
        if capitals {
            push_str(&mut out, "AM");
        } else {
            push_str(&mut out, "am");
        }
    } else {
        if capitals {
            push_str(&mut out, "PM");
        } else {
            push_str(&mut out, "pm");
        }
    }
    assert(before =~= decimal(hour12(time.hour as int) as nat) + seq![':'] + two_digits(
        time.minute as nat,
    ) + seq![' ']);
    string_of(&out)
}

/// Writes the name of a weekday.
pub fn weekday_string(weekday: u32) -> (s: String)
    ensures
        s@ == weekday_name(weekday as int),
{
    let name: &str = if weekday == 0 {
        "Monday"
    } else if weekday == 1 {
        "Tuesday"
    } else if weekday == 2 {
        "Wednesday"
    } else if weekday == 3 {
        "Thursday"
    } else if weekday == 4 {
        "Friday"
    } else if weekday == 5 {
        "Saturday"
    } else {
        "Sunday"
    };
    name.to_owned()
}

/// Writes month and day, as in `Jul 12`.
pub fn month_day_string(time: &CivilTime) -> (s: String)
    ensures
        s@ == month_day_text(time.month as int, time.day as int),
{
    let name: &str = if time.month == 1 {
        "Jan"
    } else if time.month == 2 {
        "Feb"
    } else if time.month == 3 {
        "Mar"
    } else if time.month == 4 {
        "Apr"
    } else if time.month == 5 {
        "May"
    } else if time.month == 6 {
        "Jun"
    } else if time.month == 7 {
        "Jul"
    } else if time.month == 8 {
        "Aug"
    } else if time.month == 9 {
        "Sep"
    } else if time.month == 10 {
        "Oct"
    } else if time.month == 11 {
        "Nov"
    } else {
        "Dec"
    };
    let mut out: Vec<char> = Vec::new();
    push_str(&mut out, name);
    out.push(' ');
    push_decimal(&mut out, time.day as u64);
    string_of(&out)
}

} // verus!
