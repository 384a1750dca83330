//! Calendar dates and UTC instants, as plain values.
//!
//! The proleptic Gregorian calendar that `chrono` implements is stated
//! here by day numbers (days since 1970-01-01); `chrono` still does the
//! arithmetic, parsing and formatting behind the wrappers below.

use vstd::prelude::*;

use chrono::Datelike;
use chrono::Timelike;

verus! {

/// The first year `chrono::NaiveDate` represents.
pub const MIN_YEAR: i32 = -262143;

/// The last year `chrono::NaiveDate` represents.
pub const MAX_YEAR: i32 = 262142;

/// A calendar date (`chrono::NaiveDate`).
#[derive(Clone, Copy, Debug, PartialEq, Eq, Structural)]
pub struct CalDate {
    pub year: i32,
    pub month: u32,
    pub day: u32,
}

/// A UTC instant (`chrono::DateTime<Utc>`): a date, the seconds since
/// midnight and the nanoseconds within the second (above 10^9 only in a
/// leap second, which is the last second of a minute).
#[derive(Clone, Copy, Debug, PartialEq, Eq, Structural)]
pub struct Instant {
    pub date: CalDate,
    pub secs: u32,
    pub nanos: u32,
}

pub open spec fn is_leap_year(y: int) -> bool {
    (y % 4 == 0 && y % 100 != 0) || y % 400 == 0
}

pub open spec fn days_in_month(y: int, m: int) -> int {
    if m == 2 {
        if is_leap_year(y) {
            29
        } else {
            28
        }
    } else if m == 4 || m == 6 || m == 9 || m == 11 {
        30
    } else {
        31
    }
}

/// Days since 1970-01-01 of a proleptic Gregorian date.
pub open spec fn day_number(y: int, m: int, d: int) -> int {
    let yy = if m <= 2 {
        y - 1
    } else {
        y
    };
    let era = yy / 400;
    let yoe = yy - era * 400;
    let mp = if m > 2 {
        m - 3
    } else {
        m + 9
    };
    let doy = (153 * mp + 2) / 5 + d - 1;
    let doe = yoe * 365 + yoe / 4 - yoe / 100 + doy;
    era * 146097 + doe - 719468
}

/// The day number of the first date `chrono` represents.
pub open spec fn min_day() -> int {
    day_number(MIN_YEAR as int, 1, 1)
}

/// The day number of the last date `chrono` represents.
pub open spec fn max_day() -> int {
    day_number(MAX_YEAR as int, 12, 31)
}

/// Weekday of a day number, Monday being 0 (1970-01-01 was a Thursday).
pub open spec fn weekday_of(n: int) -> int {
    (n + 3) % 7
}

/// The English name of weekday `k`, counted from Monday as 0.
pub open spec fn english_weekday(k: int) -> Seq<char> {
    if k == 0 {
        "monday"@
    } else if k == 1 {
        "tuesday"@
    } else if k == 2 {
        "wednesday"@
    } else if k == 3 {
        "thursday"@
    } else if k == 4 {
        "friday"@
    } else if k == 5 {
        "saturday"@
    } else {
        "sunday"@
    }
}

/// Weekday numbers follow the calendar: 1970-01-01 (day 0) was a
/// Thursday, the next day is the next weekday, and the weekdays repeat
/// every seven days.
pub proof fn law_weekday_numbers_follow_the_calendar(n: int)
    ensures
        day_number(1970, 1, 1) == 0,
        english_weekday(weekday_of(day_number(1970, 1, 1))) == "thursday"@,
        0 <= weekday_of(n) < 7,
        weekday_of(n + 1) == (weekday_of(n) + 1) % 7,
        weekday_of(n + 7) == weekday_of(n),
{
    vstd::arithmetic::div_mod::lemma_add_mod_noop(n + 3, 1, 7);
    vstd::arithmetic::div_mod::lemma_add_mod_noop(n + 3, 7, 7);
}

/// The day number of a real date stays well inside an `i64`.
pub proof fn lemma_days_bounded(d: CalDate)
    requires
        d.wf(),
    ensures
        -100_000_000 <= d.days() <= 100_000_000,
{
    let y = d.year as int;
    let m = d.month as int;
    let yy = if m <= 2 {
        y - 1
    } else {
        y
    };
    let era = yy / 400;
    assert(-656 <= era <= 656);
}

impl CalDate {
    /// A real date in the range `chrono` represents.
    pub open spec fn wf(self) -> bool {
        &&& MIN_YEAR <= self.year <= MAX_YEAR
        &&& 1 <= self.month <= 12
        &&& 1 <= self.day <= days_in_month(self.year as int, self.month as int)
    }

    pub open spec fn days(self) -> int {
        day_number(self.year as int, self.month as int, self.day as int)
    }

    /// Chronological order, which is the order of (year, month, day).
    pub open spec fn before(self, other: CalDate) -> bool {
        self.year < other.year || (self.year == other.year && (self.month < other.month || (
        self.month == other.month && self.day < other.day)))
    }

    /// The date `year-month-day`, when it exists in the range `chrono`
    /// represents.
    pub fn new(year: i32, month: u32, day: u32) -> (r: Option<CalDate>)
        ensures
            r matches Some(d) ==> d.wf() && d.year == year && d.month == month && d.day == day,
            r is None ==> !(CalDate { year, month, day }).wf(),
    {
        if year < MIN_YEAR || year > MAX_YEAR || month < 1 || month > 12 || day < 1 {
            return None;
        }
        let leap = (year % 4 == 0 && year % 100 != 0) || year % 400 == 0;
        let dim: u32 = if month == 2 {
            if leap {
                29
            } else {
                28
            }
        } else if month == 4 || month == 6 || month == 9 || month == 11 {
            30
        } else {
            31
        };
        if day > dim {
            None
        } else {
            Some(CalDate { year, month, day })
        }
    }

    /// Whether `self` comes strictly before `other`.
    pub fn is_before(&self, other: &CalDate) -> (r: bool)
        ensures
            r == self.before(*other),
    {
        self.year < other.year || (self.year == other.year && (self.month < other.month || (
        self.month == other.month && self.day < other.day)))
    }
}

/// The last date `chrono` represents: the end of `MAX_YEAR`.
pub open spec fn is_last_date(d: CalDate) -> bool {
    d.year == MAX_YEAR && d.month == 12 && d.day == 31
}

/// The day after `d`: the next day of the month, else the first of the
/// next month, else New Year's Day of the next year.
pub open spec fn next_day(d: CalDate) -> CalDate {
    if (d.day as int) < days_in_month(d.year as int, d.month as int) {
        CalDate { year: d.year, month: d.month, day: (d.day + 1) as u32 }
    } else if d.month < 12 {
        CalDate { year: d.year, month: (d.month + 1) as u32, day: 1 }
    } else {
        CalDate { year: (d.year + 1) as i32, month: 1, day: 1 }
    }
}

impl CalDate {
    /// The day after `self`, or `None` for the
    /// last date `chrono` represents.
    pub fn succ(&self) -> (r: Option<CalDate>)
        requires
            self.wf(),
        ensures
            r is None <==> is_last_date(*self),
            r matches Some(n) ==> n == next_day(*self) && n.wf() && self.before(n),
    {
        if self.day < 28 {
            return Some(CalDate { year: self.year, month: self.month, day: self.day + 1 });
        }
        match CalDate::new(self.year, self.month, self.day + 1) {
            Some(n) => Some(n),
            None => {
                if self.month < 12 {
                    Some(CalDate { year: self.year, month: self.month + 1, day: 1 })
                } else if self.year < MAX_YEAR {
                    Some(CalDate { year: self.year + 1, month: 1, day: 1 })
                } else {
                    None
                }
            },
        }
    }
}

impl Instant {
    pub open spec fn wf(self) -> bool {
        &&& self.date.wf()
        &&& self.secs < 86400
        &&& self.nanos < 2_000_000_000
        &&& self.nanos >= 1_000_000_000 ==> self.secs % 60 == 59
    }

    /// Chronological order: by date, then time of day.
    pub open spec fn before(self, other: Instant) -> bool {
        self.date.before(other.date) || (self.date == other.date && (self.secs < other.secs || (
        self.secs == other.secs && self.nanos < other.nanos)))
    }

    /// Midnight UTC at the start of a date.
    pub open spec fn midnight(d: CalDate) -> Instant {
        Instant { date: d, secs: 0, nanos: 0 }
    }

    /// Whether `self` comes strictly before `other`.
    pub fn is_before(&self, other: &Instant) -> (r: bool)
        ensures
            r == self.before(*other),
    {
        self.date.is_before(&other.date) || (self.date == other.date && (self.secs < other.secs || (
        self.secs == other.secs && self.nanos < other.nanos)))
    }

    /// Midnight UTC at the start of a date.
    pub fn at_midnight(d: CalDate) -> (r: Instant)
        ensures
            r == Instant::midnight(d),
    {
        Instant { date: d, secs: 0, nanos: 0 }
    }
}

// ---------------------------------------------------------------------------
// chrono: arithmetic
// ---------------------------------------------------------------------------

/// `NaiveDate::checked_add_signed(TimeDelta::days(n))`: the date `n` days
/// after `d`, or `None` when it falls outside the range `chrono`
/// represents.
#[verifier::external_body]
pub fn add_days(d: CalDate, n: i64) -> (r: Option<CalDate>)
    requires
        d.wf(),
        -100_000_000_000 <= n <= 100_000_000_000,
    ensures
        r matches Some(x) ==> x.wf() && x.days() == d.days() + n,
        r is None <==> !(min_day() <= d.days() + n <= max_day()),
{
    let nd = chrono::NaiveDate::from_ymd_opt(d.year, d.month, d.day).unwrap();
    nd.checked_add_signed(chrono::TimeDelta::days(n)).map(
        |x| CalDate { year: x.year(), month: x.month(), day: x.day() },
    )
}

/// `(a - b).num_days()`: the whole days from `b` to `a`.
#[verifier::external_body]
pub fn days_between(a: CalDate, b: CalDate) -> (r: i64)
    requires
        a.wf(),
        b.wf(),
    ensures
        r == a.days() - b.days(),
{
    let na = chrono::NaiveDate::from_ymd_opt(a.year, a.month, a.day).unwrap();
    let nb = chrono::NaiveDate::from_ymd_opt(b.year, b.month, b.day).unwrap();
    (na - nb).num_days()
}

/// `d.weekday().num_days_from_monday()`: Monday is 0, Sunday is 6.
#[verifier::external_body]
pub fn weekday_from_monday(d: CalDate) -> (r: u32)
    requires
        d.wf(),
    ensures
        r == weekday_of(d.days()),
{
    let nd = chrono::NaiveDate::from_ymd_opt(d.year, d.month, d.day).unwrap();
    nd.weekday().num_days_from_monday()
}

// ---------------------------------------------------------------------------
// chrono: formatting and parsing
// ---------------------------------------------------------------------------

/// Three-letter English weekday name of a weekday index (Monday is 0).
pub open spec fn weekday_abbrev(w: int) -> Seq<char> {
    if w == 0 {
        seq!['M', 'o', 'n']
    } else if w == 1 {
        seq!['T', 'u', 'e']
    } else if w == 2 {
        seq!['W', 'e', 'd']
    } else if w == 3 {
        seq!['T', 'h', 'u']
    } else if w == 4 {
        seq!['F', 'r', 'i']
    } else if w == 5 {
        seq!['S', 'a', 't']
    } else {
        seq!['S', 'u', 'n']
    }
}

/// A number below 100 as two digits.
pub open spec fn two_digits(n: int) -> Seq<char> {
    seq![crate::text::digit_char((n / 10) as nat), crate::text::digit_char((n % 10) as nat)]
}

/// Zero-padded on the left to four chars.
pub open spec fn zero_pad4(s: Seq<char>) -> Seq<char> {
    if s.len() < 4 {
        Seq::new((4 - s.len()) as nat, |i: int| '0') + s
    } else {
        s
    }
}

/// `%Y`: years 0..=9999 as four digits, others with a sign and at least
/// four digits.
pub open spec fn year_text(y: int) -> Seq<char> {
    if 0 <= y <= 9999 {
        zero_pad4(crate::text::decimal(y as nat))
    } else if y < 0 {
        seq!['-'] + zero_pad4(crate::text::decimal((-y) as nat))
    } else {
        seq!['+'] + zero_pad4(crate::text::decimal(y as nat))
    }
}

/// `%Y-%m-%d`.
pub open spec fn iso_text(d: CalDate) -> Seq<char> {
    year_text(d.year as int) + seq!['-'] + two_digits(d.month as int) + seq!['-'] + two_digits(
        d.day as int,
    )
}

/// `%m-%d`.
pub open spec fn month_day_text(d: CalDate) -> Seq<char> {
    two_digits(d.month as int) + seq!['-'] + two_digits(d.day as int)
}

/// `NaiveDate::format(fmt).to_string()`, for the three formats used
/// here (chrono panics on a malformed format string). The result is
/// stated: `%a` the three-letter weekday name, `%Y` the year (four
/// digits, signed outside 0..=9999), `%m` and `%d` two digits.
#[verifier::external_body]
pub fn format_date(d: CalDate, fmt: &str) -> (r: String)
    requires
        d.wf(),
        fmt@ == "%a"@ || fmt@ == "%Y-%m-%d"@ || fmt@ == "%m-%d"@,
    ensures
        fmt@ == "%a"@ ==> r@ == weekday_abbrev(weekday_of(d.days())),
        fmt@ == "%Y-%m-%d"@ ==> r@ == iso_text(d),
        fmt@ == "%m-%d"@ ==> r@ == month_day_text(d),
{
    let nd = chrono::NaiveDate::from_ymd_opt(d.year, d.month, d.day).unwrap();
    nd.format(fmt).to_string()
}

/// `NaiveDate`'s `Display`: the ISO form `%Y-%m-%d`.
#[verifier::external_body]
pub fn date_text(d: CalDate) -> (r: String)
    requires
        d.wf(),
    ensures
        r@ == iso_text(d),
{
    chrono::NaiveDate::from_ymd_opt(d.year, d.month, d.day).unwrap().to_string()
}

/// `%Y-%m-%dT%H:%M` of an instant: the date, `T`, the hour and minute.
pub open spec fn minute_text(i: Instant) -> Seq<char> {
    iso_text(i.date) + seq!['T'] + two_digits(i.secs as int / 3600) + seq![':'] + two_digits(
        (i.secs as int / 60) % 60,
    )
}

/// `DateTime<Utc>::format(fmt).to_string()`, for the one format used
/// here, `%Y-%m-%dT%H:%M` (chrono's formatting fails, and `to_string`
/// panics, on a malformed format string): the ISO date, `T`, then the
/// hour and the minute as two digits each.
#[verifier::external_body]
pub fn format_instant(i: Instant, fmt: &str) -> (r: String)
    requires
        i.wf(),
        fmt@ == "%Y-%m-%dT%H:%M"@,
    ensures
        r@ == minute_text(i),
{
    let date = chrono::NaiveDate::from_ymd_opt(i.date.year, i.date.month, i.date.day).unwrap();
    let time = chrono::NaiveTime::from_num_seconds_from_midnight_opt(i.secs, i.nanos).unwrap();
    chrono::TimeZone::from_utc_datetime(&chrono::Utc, &date.and_time(time)).format(fmt).to_string()
}

/// What `NaiveDate::parse_from_str(s, fmt)` gives: the date's year,
/// month and day, or `None` for an error.
pub uninterp spec fn chrono_parse_date(s: Seq<char>, fmt: Seq<char>) -> Option<(int, int, int)>;

/// `NaiveDate::parse_from_str(s, fmt)`, the error dropped. A date it
/// returns is a real date.
#[verifier::external_body]
pub fn parse_date(s: &str, fmt: &str) -> (r: Option<CalDate>)
    ensures
        match (r, chrono_parse_date(s@, fmt@)) {
            (Some(x), Some((y, m, d))) => x.wf() && x.year == y && x.month == m && x.day == d,
            (None, None) => true,
            _ => false,
        },
{
    chrono::NaiveDate::parse_from_str(s, fmt).ok().map(
        |x| CalDate { year: x.year(), month: x.month(), day: x.day() },
    )
}

/// The current UTC instant (`Utc::now()`). Nothing is known of it but
/// that it is a well-formed instant.
#[verifier::external_body]
pub fn now_utc() -> (r: Instant)
    ensures
        r.wf(),
{
    let now = chrono::Utc::now();
    let d = now.date_naive();
    Instant {
        date: CalDate { year: d.year(), month: d.month(), day: d.day() },
        secs: now.num_seconds_from_midnight(),
        nanos: now.nanosecond(),
    }
}

} // verus!
