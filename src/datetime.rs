//! Calendar dates, wall-clock times and their resolution to instants.
//!
//! An instant is a count of seconds since the Unix epoch (UTC).

use chrono::TimeZone;
use vstd::prelude::*;

verus! {

/// A calendar date in the proleptic Gregorian calendar.
#[derive(Clone, Copy, Debug, PartialEq, Eq, Structural)]
pub struct CivilDate {
    pub year: i32,
    pub month: u32,
    pub day: u32,
}

/// A wall-clock date and time with no zone attached.
#[derive(Clone, Copy, Debug, PartialEq, Eq, Structural)]
pub struct CivilDateTime {
    pub year: i32,
    pub month: u32,
    pub day: u32,
    pub hour: u32,
    pub minute: u32,
    pub second: u32,
}

/// A date-time as calendar data carries it: any field may be missing.
#[derive(Clone, Copy, Debug, PartialEq, Eq, Structural)]
pub struct PartialDateTime {
    pub year: Option<u16>,
    pub month: Option<u8>,
    pub day: Option<u8>,
    pub hour: Option<u8>,
    pub minute: Option<u8>,
    pub second: Option<u8>,
}

pub open spec fn is_leap_year(y: int) -> bool {
    (y % 4 == 0 && y % 100 != 0) || y % 400 == 0
}

pub open spec fn days_in_month(y: int, m: int) -> int {
    if m == 2 {
        if is_leap_year(y) { 29 } else { 28 }
    } else if m == 4 || m == 6 || m == 9 || m == 11 {
        30
    } else {
        31
    }
}

/// The supported years: the four-digit years that iCalendar date-times can
/// write, which every time-zone library handles.
pub open spec fn year_in_range(y: int) -> bool {
    1 <= y <= 9999
}

impl CivilDate {
    pub open spec fn valid(self) -> bool {
        &&& year_in_range(self.year as int)
        &&& 1 <= self.month <= 12
        &&& 1 <= self.day <= days_in_month(self.year as int, self.month as int)
    }
}

impl CivilDateTime {
    pub open spec fn valid(self) -> bool {
        &&& year_in_range(self.year as int)
        &&& 1 <= self.month <= 12
        &&& 1 <= self.day <= days_in_month(self.year as int, self.month as int)
        &&& self.hour < 24
        &&& self.minute < 60
        &&& self.second < 60
    }

    pub open spec fn date(self) -> CivilDate {
        CivilDate { year: self.year, month: self.month, day: self.day }
    }

    pub open spec fn fields(self) -> (int, int, int, int, int, int) {
        (
            self.year as int,
            self.month as int,
            self.day as int,
            self.hour as int,
            self.minute as int,
            self.second as int,
        )
    }
}

fn leap_year(y: i32) -> (r: bool)
    requires
        year_in_range(y as int),
    ensures
        r == is_leap_year(y as int),
{
    let u = y as u32;
    (u % 4 == 0 && u % 100 != 0) || u % 400 == 0
}

fn month_length(y: i32, m: u32) -> (r: u32)
    requires
        year_in_range(y as int),
    ensures
        r == days_in_month(y as int, m as int),
{
    if m == 2 {
        if leap_year(y) { 29 } else { 28 }
    } else if m == 4 || m == 6 || m == 9 || m == 11 {
        30
    } else {
        31
    }
}

/// Whether the date-time names an existing calendar date and time of day.
pub fn is_valid_civil(dt: &CivilDateTime) -> (r: bool)
    ensures
        r == dt.valid(),
{
    1 <= dt.year && dt.year <= 9999 && 1 <= dt.month && dt.month <= 12 && 1 <= dt.day
        && dt.day <= month_length(dt.year, dt.month) && dt.hour < 24 && dt.minute < 60
        && dt.second < 60
}

/// The wall-clock value that a partial date-time stands for: missing date
/// fields come from `today`, missing time fields are zero.
pub open spec fn completed(p: PartialDateTime, today: CivilDate) -> CivilDateTime {
    CivilDateTime {
        year: match p.year {
            Some(y) => y as i32,
            None => today.year,
        },
        month: match p.month {
            Some(m) => m as u32,
            None => today.month,
        },
        day: match p.day {
            Some(d) => d as u32,
            None => today.day,
        },
        hour: match p.hour {
            Some(h) => h as u32,
            None => 0,
        },
        minute: match p.minute {
            Some(m) => m as u32,
            None => 0,
        },
        second: match p.second {
            Some(s) => s as u32,
            None => 0,
        },
    }
}

/// Completes a partial date-time against the current local date.
pub fn complete(p: &PartialDateTime, today: &CivilDate) -> (r: CivilDateTime)
    ensures
        r == completed(*p, *today),
{
    CivilDateTime {
        year: match p.year {
            Some(y) => y as i32,
            None => today.year,
        },
        month: match p.month {
            Some(m) => m as u32,
            None => today.month,
        },
        day: match p.day {
            Some(d) => d as u32,
            None => today.day,
        },
        hour: match p.hour {
            Some(h) => h as u32,
            None => 0,
        },
        minute: match p.minute {
            Some(m) => m as u32,
            None => 0,
        },
        second: match p.second {
            Some(s) => s as u32,
            None => 0,
        },
    }
}

/// A partial date-time that carries no date field completes to the date of
/// "now", whatever that date is, and to midnight when it carries no time field
/// either.
pub proof fn lemma_completion_uses_today(p: PartialDateTime, today: CivilDate)
    requires
        p.year is None && p.month is None && p.day is None,
    ensures
        completed(p, today).date() == today,
        (p.hour is None && p.minute is None && p.second is None) ==> completed(p, today).hour == 0
            && completed(p, today).minute == 0 && completed(p, today).second == 0,
{
}

/// Whether the zone database knows the identifier.
pub uninterp spec fn zone_known(name: Seq<char>) -> bool;

/// The instant at which the wall clock of the named zone first shows the given
/// date and time, if it ever does.
pub uninterp spec fn zoned_instant(name: Seq<char>, fields: (int, int, int, int, int, int)) -> Option<int>;

/// Relies on `str::parse::<chrono_tz::Tz>` to look up the zone (`None` when it
/// is unknown), on chrono's `NaiveDate::from_ymd_opt` and
/// `NaiveDate::and_hms_opt`, which accept every valid value, and on
/// `TimeZone::from_local_datetime(..).earliest()` for the earliest instant that
/// shows the wall-clock value there.
#[verifier::external_body]
pub(crate) fn instant_in_zone(name: &str, dt: &CivilDateTime) -> (r: Option<Option<i64>>)
    requires
        dt.valid(),
    ensures
        r.is_some() == zone_known(name@),
        r matches Some(t) ==> match t {
            Some(s) => zoned_instant(name@, dt.fields()) == Some(s as int),
            None => zoned_instant(name@, dt.fields()) is None,
        },
{
    let tz = name.parse::<chrono_tz::Tz>().ok()?;
    let date = chrono::NaiveDate::from_ymd_opt(dt.year, dt.month, dt.day)?;
    let wall = date.and_hms_opt(dt.hour, dt.minute, dt.second)?;
    Some(tz.from_local_datetime(&wall).earliest().map(|t| t.timestamp()))
}

/// Relies on chrono's `Local.from_local_datetime(..).earliest()`: the earliest
/// instant at which this machine's local clock shows the value. It depends on
/// the machine's zone, so nothing is stated of it. The zone lookup behind it
/// fails only for years far outside the supported ones, which `requires`
/// leaves out.
#[verifier::external_body]
pub(crate) fn local_instant(dt: &CivilDateTime) -> (r: Option<i64>)
    requires
        dt.valid(),
{
    let date = chrono::NaiveDate::from_ymd_opt(dt.year, dt.month, dt.day)?;
    let wall = date.and_hms_opt(dt.hour, dt.minute, dt.second)?;
    chrono::Local.from_local_datetime(&wall).earliest().map(|t| t.timestamp())
}

} // verus!

verus! {

/// The day after `d`.
pub open spec fn following_day(d: CivilDate) -> CivilDate {
    if (d.day as int) < days_in_month(d.year as int, d.month as int) {
        CivilDate { year: d.year, month: d.month, day: (d.day + 1) as u32 }
    } else if d.month < 12 {
        CivilDate { year: d.year, month: (d.month + 1) as u32, day: 1 }
    } else {
        CivilDate { year: (d.year + 1) as i32, month: 1, day: 1 }
    }
}

/// The day before `d`.
pub open spec fn preceding_day(d: CivilDate) -> CivilDate {
    if d.day > 1 {
        CivilDate { year: d.year, month: d.month, day: (d.day - 1) as u32 }
    } else if d.month > 1 {
        CivilDate {
            year: d.year,
            month: (d.month - 1) as u32,
            day: days_in_month(d.year as int, d.month - 1) as u32,
        }
    } else {
        CivilDate { year: (d.year - 1) as i32, month: 12, day: 31 }
    }
}

/// Midnight at the start of a day.
pub open spec fn midnight(d: CivilDate) -> CivilDateTime {
    CivilDateTime { year: d.year, month: d.month, day: d.day, hour: 0, minute: 0, second: 0 }
}

/// The day after `d`, or `None` past the supported years.
pub fn next_day(d: &CivilDate) -> (r: Option<CivilDate>)
    requires
        d.valid(),
    ensures
        r is Some <==> following_day(*d).valid(),
        r matches Some(n) ==> n == following_day(*d),
{
    let n = if d.day < month_length(d.year, d.month) {
        CivilDate { year: d.year, month: d.month, day: d.day + 1 }
    } else if d.month < 12 {
        CivilDate { year: d.year, month: d.month + 1, day: 1 }
    } else if d.year < 9999 {
        CivilDate { year: d.year + 1, month: 1, day: 1 }
    } else {
        return None;
    };
    Some(n)
}

/// The day before `d`, or `None` before the supported years.
pub fn previous_day(d: &CivilDate) -> (r: Option<CivilDate>)
    requires
        d.valid(),
    ensures
        r is Some <==> preceding_day(*d).valid(),
        r matches Some(n) ==> n == preceding_day(*d),
{
    let n = if d.day > 1 {
        CivilDate { year: d.year, month: d.month, day: d.day - 1 }
    } else if d.month > 1 {
        CivilDate { year: d.year, month: d.month - 1, day: month_length(d.year, d.month - 1) }
    } else if d.year > 1 {
        CivilDate { year: d.year - 1, month: 12, day: 31 }
    } else {
        return None;
    };
    Some(n)
}

/// Whether the date names an existing day in the supported years.
pub fn is_valid_date(d: &CivilDate) -> (r: bool)
    ensures
        r == d.valid(),
{
    1 <= d.year && d.year <= 9999 && 1 <= d.month && d.month <= 12 && 1 <= d.day && d.day
        <= month_length(d.year, d.month)
}

/// Midnight at the start of a day.
pub fn start_of(d: &CivilDate) -> (r: CivilDateTime)
    ensures
        r == midnight(*d),
{
    CivilDateTime { year: d.year, month: d.month, day: d.day, hour: 0, minute: 0, second: 0 }
}

} // verus!
