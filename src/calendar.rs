use vstd::prelude::*;

verus! {

/// The first and last Julian day numbers that a date can have (years -9999 to 9999).
pub const MIN_JULIAN: i32 = -1930999;
pub const MAX_JULIAN: i32 = 5373484;

pub const SECONDS_PER_DAY: i64 = 86400;

/// A day of the proleptic Gregorian calendar.
#[derive(Debug, Clone, Copy, PartialEq, Eq, Structural)]
pub struct Date {
    pub year: i32,
    pub month: u8,
    pub day: u8,
}

/// A time of day.
#[derive(Debug, Clone, Copy, PartialEq, Eq, Structural)]
pub struct Time {
    pub hour: u8,
    pub minute: u8,
    pub second: u8,
    pub nanosecond: u32,
}

/// A date and a time of day, at UTC.
#[derive(Debug, Clone, Copy, PartialEq, Eq, Structural)]
pub struct DateTime {
    pub date: Date,
    pub time: Time,
}

/// A signed span of whole seconds.
#[derive(Debug, Clone, Copy, PartialEq, Eq, Structural)]
pub struct Duration {
    pub seconds: i64,
}

pub open spec fn is_leap_year(y: int) -> bool {
    y % 4 == 0 && (y % 100 != 0 || y % 400 == 0)
}

pub open spec fn days_in_month(y: int, m: int) -> int {
    if m == 2 {
        if is_leap_year(y) { 29 } else { 28 }
    } else if m == 4 || m == 6 || m == 9 || m == 11 {
        30
    } else {
        31
    }
}

/// A year, month and day that name a day of the calendar, within years -9999 to 9999.
pub open spec fn valid_date(y: int, m: int, d: int) -> bool {
    -9999 <= y <= 9999 && 1 <= m <= 12 && 1 <= d <= days_in_month(y, m)
}

/// The Julian day number of a proleptic Gregorian calendar date (day 0 is -4713-11-24).
pub open spec fn julian_of(y: int, m: int, d: int) -> int {
    let a = (14 - m) / 12;
    let yy = y + 4800 - a;
    let mm = m + 12 * a - 3;
    d + (153 * mm + 2) / 5 + 365 * yy + yy / 4 - yy / 100 + yy / 400 - 32045
}

/// The calendar date of a Julian day number.
pub uninterp spec fn calendar_of(j: int) -> (int, int, int);

/// The text that the time library gives to a span of seconds.
pub uninterp spec fn duration_text_of(seconds: int) -> Seq<char>;

impl Date {
    pub open spec fn wf(self) -> bool {
        valid_date(self.year as int, self.month as int, self.day as int)
    }

    pub open spec fn julian(self) -> int {
        julian_of(self.year as int, self.month as int, self.day as int)
    }
}

impl Time {
    pub open spec fn wf(self) -> bool {
        self.hour < 24 && self.minute < 60 && self.second < 60 && self.nanosecond < 1_000_000_000
    }

    /// Seconds since midnight.
    pub open spec fn second_of_day(self) -> int {
        self.hour as int * 3600 + self.minute as int * 60 + self.second as int
    }
}

impl DateTime {
    pub open spec fn wf(self) -> bool {
        self.date.wf() && self.time.wf()
    }
}

/// The date of a Julian day number, where there is one.
pub open spec fn date_of_julian(j: int) -> Option<Date> {
    if MIN_JULIAN <= j <= MAX_JULIAN {
        Some(Date { year: calendar_of(j).0 as i32, month: calendar_of(j).1 as u8, day: calendar_of(j).2 as u8 })
    } else {
        None
    }
}

/// Whole days in a span of seconds, rounded toward zero.
pub open spec fn whole_days(seconds: int) -> int {
    if seconds >= 0 {
        seconds / 86400
    } else {
        -((-seconds) / 86400)
    }
}

/// The date `days` days after `d`, if it lies within the calendar's range; no shift keeps it.
pub open spec fn shift_date(d: Date, days: int) -> Option<Date> {
    if days == 0 {
        Some(d)
    } else {
        date_of_julian(d.julian() + days)
    }
}

/// The time of day `seconds` seconds after `t`, wrapping around midnight.
pub open spec fn shift_time(t: Time, seconds: int) -> Time {
    let s = (t.second_of_day() + seconds) % 86400;
    Time {
        hour: (s / 3600) as u8,
        minute: ((s % 3600) / 60) as u8,
        second: (s % 60) as u8,
        nanosecond: t.nanosecond,
    }
}

/// The instant `seconds` seconds after `dt`, if its date lies within the calendar's range.
pub open spec fn shift_datetime(dt: DateTime, seconds: int) -> Option<DateTime> {
    let total = dt.time.second_of_day() + seconds;
    match shift_date(dt.date, total / 86400) {
        Some(d) => Some(DateTime { date: d, time: shift_time(dt.time, seconds) }),
        None => None,
    }
}

/// Relies on time::Month::try_from, time::Date::from_calendar_date and Date::to_julian_day:
/// a date exists exactly when the month is 1 to 12, the day fits that month of that year,
/// and the year lies within -9999 to 9999; its Julian day number lies within the range,
/// and time::Date::from_julian_day gives that date back for it.
#[verifier::external_body]
fn julian_day(year: i32, month: u8, day: u8) -> (r: Option<i32>)
    ensures
        r is Some <==> valid_date(year as int, month as int, day as int),
        r matches Some(j) ==> j == julian_of(year as int, month as int, day as int)
            && MIN_JULIAN <= j <= MAX_JULIAN
            && calendar_of(j as int) == (year as int, month as int, day as int),
{
    let month = time::Month::try_from(month).ok()?;
    time::Date::from_calendar_date(year, month, day).ok().map(|d| d.to_julian_day())
}

/// Relies on time::Date::from_julian_day and Date::to_calendar_date: a Julian day number
/// within the range gives the valid date whose Julian day number it is; any other is refused.
#[verifier::external_body]
fn calendar_date(j: i32) -> (r: Option<Date>)
    ensures
        r is Some <==> MIN_JULIAN <= j <= MAX_JULIAN,
        r matches Some(d) ==> d.wf() && d.julian() == j
            && (d.year as int, d.month as int, d.day as int) == calendar_of(j as int),
{
    time::Date::from_julian_day(j).ok().map(|d| Date { year: d.year(), month: d.month() as u8, day: d.day() })
}

/// Relies on time::OffsetDateTime::now_utc: the current instant at UTC, a valid date and time.
#[verifier::external_body]
pub(crate) fn now_utc() -> (r: DateTime)
    ensures
        r.wf(),
{
    let n = time::OffsetDateTime::now_utc();
    DateTime {
        date: Date { year: n.year(), month: n.month() as u8, day: n.day() },
        time: Time { hour: n.hour(), minute: n.minute(), second: n.second(), nanosecond: n.nanosecond() },
    }
}

/// Relies on the Display of time::Duration: its text depends on the number of seconds alone.
#[verifier::external_body]
pub(crate) fn duration_text(seconds: i64) -> (r: String)
    ensures
        r@ == duration_text_of(seconds as int),
{
    time::Duration::seconds(seconds).to_string()
}

impl Date {
    /// The date of a year, month and day, if they name a day of the calendar.
    pub fn from_calendar(year: i32, month: u8, day: u8) -> (r: Option<Date>)
        ensures
            r is Some <==> valid_date(year as int, month as int, day as int),
            r matches Some(d) ==> d == (Date { year, month, day }),
    {
        match julian_day(year, month, day) {
            Some(_) => Some(Date { year, month, day }),
            None => None,
        }
    }

    /// The date `days` days later (earlier, where negative), if it lies within the range.
    pub fn add_days(self, days: i64) -> (r: Option<Date>)
        requires
            self.wf(),
        ensures
            r == shift_date(self, days as int),
            r matches Some(d) ==> d.wf(),
    {
        if days == 0 {
            return Some(self);
        }
        let j = match julian_day(self.year, self.month, self.day) {
            Some(j) => j,
            None => {
                return None;
            },
        };
        let target: i64 = j as i64 + if days > 4_000_000_000 { 4_000_000_000 } else if days < -4_000_000_000 { -4_000_000_000 } else { days };
        if target < MIN_JULIAN as i64 || target > MAX_JULIAN as i64 {
            return None;
        }
        calendar_date(target as i32)
    }

    /// The signed number of days from `other` to `self`.
    pub fn days_since(self, other: Date) -> (r: i64)
        requires
            self.wf(),
            other.wf(),
        ensures
            r == self.julian() - other.julian(),
            MIN_JULIAN - MAX_JULIAN <= r <= MAX_JULIAN - MIN_JULIAN,
    {
        let a = julian_day(self.year, self.month, self.day);
        let b = julian_day(other.year, other.month, other.day);
        match (a, b) {
            (Some(a), Some(b)) => a as i64 - b as i64,
            _ => 0,
        }
    }
}

impl Time {
    /// A time of day from its parts, if each lies within its range.
    pub fn from_hms(hour: u8, minute: u8, second: u8) -> (r: Option<Time>)
        ensures
            r is Some <==> (hour < 24 && minute < 60 && second < 60),
            r matches Some(t) ==> t == (Time { hour, minute, second, nanosecond: 0 }),
    {
        if hour < 24 && minute < 60 && second < 60 {
            Some(Time { hour, minute, second, nanosecond: 0 })
        } else {
            None
        }
    }

    /// The time of day `seconds` seconds later, wrapping around midnight.
    pub fn add_seconds(self, seconds: i128) -> (r: Time)
        requires
            self.wf(),
            -0x1_0000_0000_0000_0000 <= seconds <= 0x1_0000_0000_0000_0000,
        ensures
            r == shift_time(self, seconds as int),
            r.wf(),
    {
        let sod: i128 = self.hour as i128 * 3600 + self.minute as i128 * 60 + self.second as i128;
        let total: i128 = sod + seconds;
        let mut s: i128 = total % 86400;
        if s < 0 {
            s = s + 86400;
        }
        assert(s == (self.second_of_day() + seconds) % 86400);
        Time {
            hour: (s / 3600) as u8,
            minute: ((s % 3600) / 60) as u8,
            second: (s % 60) as u8,
            nanosecond: self.nanosecond,
        }
    }
}

impl DateTime {
    /// The instant `seconds` seconds later, if its date lies within the range.
    pub fn add_seconds(self, seconds: i128) -> (r: Option<DateTime>)
        requires
            self.wf(),
            -0x1_0000_0000_0000_0000 <= seconds <= 0x1_0000_0000_0000_0000,
        ensures
            r == shift_datetime(self, seconds as int),
            r matches Some(d) ==> d.wf(),
    {
        let sod: i128 = self.time.hour as i128 * 3600 + self.time.minute as i128 * 60 + self.time.second as i128;
        let total: i128 = sod + seconds;
        let mut carry: i128 = total / 86400;
        if total % 86400 < 0 {
            carry = carry - 1;
        }
        assert(carry == (self.time.second_of_day() + seconds) / 86400);
        match self.date.add_days(carry as i64) {
            Some(d) => Some(DateTime { date: d, time: self.time.add_seconds(seconds) }),
            None => None,
        }
    }
}

} // verus!
