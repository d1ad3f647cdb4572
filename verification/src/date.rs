//! Calendar dates as day numbers in the proleptic Gregorian calendar, with
//! January 1 of year 1 as day 1. Reading and writing dates as text, and the
//! passage between day numbers and civil dates, are chrono's.

use chrono::Datelike;
use vstd::prelude::*;

use crate::text;

verus! {

/// The day number of January 1 in the first year that a date can have.
pub const MIN_DAY: i32 = -95_746_129;

/// The day number of December 31 in the last year that a date can have.
pub const MAX_DAY: i32 = 95_745_399;

/// The years that a date can have.
pub const MIN_YEAR: i32 = -262_143;

pub const MAX_YEAR: i32 = 262_142;

pub open spec fn is_leap_year(y: int) -> bool {
    y % 4 == 0 && (y % 100 != 0 || y % 400 == 0)
}

pub open spec fn days_in_month(y: int, m: int) -> int {
    if m == 2 {
        if is_leap_year(y) {
            29
        } else {
            28
        }
    } else if m == 4 || m == 6 || m == 9 || m == 11 {
        30
    } else {
        31
    }
}

/// The length of a month.
pub fn month_length(y: i32, m: u32) -> (r: u32)
    requires
        MIN_YEAR <= y <= MAX_YEAR,
    ensures
        r == days_in_month(y as int, m as int),
{
    if m == 2 {
        let shifted: u32 = (y + 262_400) as u32;
        if shifted % 4 == 0 && (shifted % 100 != 0 || shifted % 400 == 0) {
            29
        } else {
            28
        }
    } else if m == 4 || m == 6 || m == 9 || m == 11 {
        30
    } else {
        31
    }
}

/// Days of year `y` before the first of month `m`.
pub open spec fn days_before_month(y: int, m: int) -> int
    decreases m,
{
    if m <= 1 {
        0
    } else {
        days_before_month(y, m - 1) + days_in_month(y, m - 1)
    }
}

/// Days from the calendar's start to the first of January of year `y`.
pub open spec fn days_before_year(y: int) -> int {
    365 * (y - 1) + (y - 1) / 4 - (y - 1) / 100 + (y - 1) / 400
}

/// Whether `y`-`m`-`d` names a day.
pub open spec fn is_civil(y: int, m: int, d: int) -> bool {
    1 <= m <= 12 && 1 <= d <= days_in_month(y, m)
}

/// The day number of `y`-`m`-`d`.
pub open spec fn civil_day(y: int, m: int, d: int) -> int {
    days_before_year(y) + days_before_month(y, m) + d
}

/// The year, month, and day of a day number.
pub open spec fn civil_of(day: int) -> (int, int, int) {
    choose|y: int, m: int, d: int| is_civil(y, m, d) && #[trigger] civil_day(y, m, d) == day
}

proof fn leap_days(a: int)
    ensures
        (a + 1) / 4 == a / 4 + (if (a + 1) % 4 == 0 {
            1int
        } else {
            0
        }),
        (a + 1) / 100 == a / 100 + (if (a + 1) % 100 == 0 {
            1int
        } else {
            0
        }),
        (a + 1) / 400 == a / 400 + (if (a + 1) % 400 == 0 {
            1int
        } else {
            0
        }),
        (a + 1) % 400 == 0 ==> (a + 1) % 100 == 0,
        (a + 1) % 100 == 0 ==> (a + 1) % 4 == 0,
{
}

/// A year is as long as its months.
proof fn year_length(y: int)
    ensures
        days_before_month(y, 13) == (if is_leap_year(y) {
            366int
        } else {
            365
        }),
        days_before_year(y + 1) == days_before_year(y) + days_before_month(y, 13),
{
    leap_days(y - 1);
    let february = days_in_month(y, 2);
    assert(days_before_month(y, 1) == 0);
    assert(days_before_month(y, 2) == 31);
    assert(days_before_month(y, 3) == 31 + february);
    assert(days_before_month(y, 4) == 62 + february);
    assert(days_before_month(y, 5) == 92 + february);
    assert(days_before_month(y, 6) == 123 + february);
    assert(days_before_month(y, 7) == 153 + february);
    assert(days_before_month(y, 8) == 184 + february);
    assert(days_before_month(y, 9) == 215 + february);
    assert(days_before_month(y, 10) == 245 + february);
    assert(days_before_month(y, 11) == 276 + february);
    assert(days_before_month(y, 12) == 306 + february);
    assert(days_before_month(y, 13) == 337 + february);
}

proof fn months_ascend(y: int, m: int, n: int)
    requires
        1 <= m <= n,
    ensures
        days_before_month(y, m) + 28 * (n - m) <= days_before_month(y, n),
    decreases n - m,
{
    if m < n {
        months_ascend(y, m, n - 1);
    }
}

proof fn years_ascend(y: int, z: int)
    requires
        y <= z,
    ensures
        days_before_year(y) <= days_before_year(z),
    decreases z - y,
{
    if y < z {
        years_ascend(y, z - 1);
        year_length(z - 1);
    }
}

proof fn within_year(y: int, m: int, d: int)
    requires
        is_civil(y, m, d),
    ensures
        days_before_year(y) < civil_day(y, m, d) <= days_before_year(y + 1),
{
    year_length(y);
    months_ascend(y, 1, m);
    months_ascend(y, m + 1, 13);
}

/// No two civil dates have the same day number.
pub proof fn civil_dates_are_unique(y: int, m: int, d: int, z: int, n: int, e: int)
    requires
        is_civil(y, m, d),
        is_civil(z, n, e),
        civil_day(y, m, d) == civil_day(z, n, e),
    ensures
        y == z,
        m == n,
        d == e,
{
    within_year(y, m, d);
    within_year(z, n, e);
    if y < z {
        years_ascend(y + 1, z);
    } else if z < y {
        years_ascend(z + 1, y);
    }
    if m < n {
        months_ascend(y, m + 1, n);
    } else if n < m {
        months_ascend(y, n + 1, m);
    }
}

/// A date in a later month has a higher day number.
pub proof fn later_months_come_later(y: int, m: int, d: int, z: int, n: int, e: int)
    requires
        is_civil(y, m, d),
        is_civil(z, n, e),
        y * 12 + m < z * 12 + n,
    ensures
        civil_day(y, m, d) < civil_day(z, n, e),
{
    within_year(y, m, d);
    within_year(z, n, e);
    if y < z {
        years_ascend(y + 1, z);
    } else {
        months_ascend(y, m + 1, n);
    }
}

proof fn some_civil_date(day: int) -> (r: (int, int, int))
    ensures
        is_civil(r.0, r.1, r.2),
        civil_day(r.0, r.1, r.2) == day,
    decreases if day < 1 { 1 - day } else { day - 1 },
{
    if day == 1 {
        (1, 1, 1)
    } else if day > 1 {
        let (y, m, d) = some_civil_date(day - 1);
        if d < days_in_month(y, m) {
            (y, m, d + 1)
        } else if m < 12 {
            (y, m + 1, 1)
        } else {
            year_length(y);
            (y + 1, 1, 1)
        }
    } else {
        let (y, m, d) = some_civil_date(day + 1);
        if d > 1 {
            (y, m, d - 1)
        } else if m > 1 {
            (y, m - 1, days_in_month(y, m - 1))
        } else {
            year_length(y - 1);
            (y - 1, 12, 31)
        }
    }
}

/// Every day number is that of one civil date, and of no other: the one that
/// [`civil_of`] gives.
pub proof fn civil_of_is_the_date(day: int)
    ensures
        ({
            let (y, m, d) = civil_of(day);
            is_civil(y, m, d) && civil_day(y, m, d) == day
        }),
        forall|y: int, m: int, d: int|
            is_civil(y, m, d) && #[trigger] civil_day(y, m, d) == day ==> civil_of(day) == (y, m, d),
{
    let (a, b, c) = some_civil_date(day);
    assert(civil_day(a, b, c) == day);
    let (p, q, r) = civil_of(day);
    assert forall|y: int, m: int, d: int|
        is_civil(y, m, d) && #[trigger] civil_day(y, m, d) == day implies civil_of(day) == (
        y,
        m,
        d,
    ) by {
        civil_dates_are_unique(y, m, d, p, q, r);
    }
}

/// A year in ISO 8601: four digits, and a sign when four do not suffice.
pub open spec fn year_text(y: int) -> Seq<char> {
    if y < 0 {
        "-"@ + text::four_digits((-y) as nat)
    } else if y > 9999 {
        "+"@ + text::four_digits(y as nat)
    } else {
        text::four_digits(y as nat)
    }
}

/// The ISO 8601 text of a day number: `YYYY-MM-DD`.
pub open spec fn date_text(day: int) -> Seq<char> {
    let (y, m, d) = civil_of(day);
    year_text(y) + "-"@ + text::two_digits(m as nat) + "-"@ + text::two_digits(d as nat)
}

/// The day number that chrono reads from a text under the format `%Y-%m-%d`,
/// or nothing where it reads none.
pub uninterp spec fn read_date(s: Seq<char>) -> Option<int>;

/// chrono's `NaiveDate::parse_from_str` with `%Y-%m-%d`, as a day number.
/// Which texts it accepts is left to the name; what it gives is a date, so
/// the day number is in range.
#[verifier::external_body]
fn parse_day(s: &str) -> (r: Option<i32>)
    ensures
        (match r {
            Some(day) => read_date(s@) == Some(day as int) && MIN_DAY <= day <= MAX_DAY,
            None => read_date(s@) is None,
        }),
{
    chrono::NaiveDate::parse_from_str(s, "%Y-%m-%d").ok().map(|d| d.num_days_from_ce())
}

/// chrono's `NaiveDate::from_ymd_opt`: a date exactly where the month and
/// the day exist and the year is one that a date can have; its
/// `num_days_from_ce` counts days from January 1 of year 1 as day 1.
#[verifier::external_body]
fn day_of_ymd(y: i32, m: u32, d: u32) -> (r: Option<i32>)
    ensures
        (match r {
            Some(day) => {
                &&& is_civil(y as int, m as int, d as int)
                &&& MIN_YEAR <= y <= MAX_YEAR
                &&& day == civil_day(y as int, m as int, d as int)
                &&& MIN_DAY <= day <= MAX_DAY
            },
            None => !(is_civil(y as int, m as int, d as int) && MIN_YEAR <= y <= MAX_YEAR),
        }),
{
    chrono::NaiveDate::from_ymd_opt(y, m, d).map(|d| d.num_days_from_ce())
}

/// chrono's `year`, `month`, and `day` of the date with a day number: a civil
/// date with that number, in a year that a date can have.
#[verifier::external_body]
fn ymd_of_day(day: i32) -> (r: (i32, u32, u32))
    requires
        MIN_DAY <= day <= MAX_DAY,
    ensures
        is_civil(r.0 as int, r.1 as int, r.2 as int),
        civil_day(r.0 as int, r.1 as int, r.2 as int) == day,
        MIN_YEAR <= r.0 <= MAX_YEAR,
{
    let d = chrono::NaiveDate::from_num_days_from_ce_opt(day).unwrap();
    (d.year(), d.month(), d.day())
}

/// chrono's `Display` of the date with a day number: ISO 8601.
#[verifier::external_body]
fn text_of_day(day: i32) -> (r: String)
    requires
        MIN_DAY <= day <= MAX_DAY,
    ensures
        r@ == date_text(day as int),
{
    chrono::NaiveDate::from_num_days_from_ce_opt(day).unwrap().to_string()
}

/// chrono's `weekday` of the date with a day number, counted from Monday as
/// 0. Day 1 is a Monday.
#[verifier::external_body]
fn weekday_of_day(day: i32) -> (r: u32)
    requires
        MIN_DAY <= day <= MAX_DAY,
    ensures
        r == (day - 1) % 7,
{
    chrono::NaiveDate::from_num_days_from_ce_opt(day).unwrap().weekday().num_days_from_monday()
}

/// A calendar date.
#[derive(Debug, Clone, Copy, PartialEq, Eq, Structural)]
pub struct Date {
    number: i32,
}

impl Date {
    /// The date's day number.
    pub closed spec fn day(self) -> int {
        self.number as int
    }

    #[verifier::type_invariant]
    spec fn in_range(self) -> bool {
        MIN_DAY <= self.number <= MAX_DAY
    }

    /// Read a date written as `YYYY-MM-DD`.
    pub fn parse(s: &str) -> (r: Option<Date>)
        ensures
            (match r {
                Some(d) => read_date(s@) == Some(d.day()),
                None => read_date(s@) is None,
            }),
    {
        match parse_day(s) {
            Some(number) => Some(Date { number }),
            None => None,
        }
    }

    /// The date of a year, month, and day, where there is one.
    pub fn from_ymd_opt(y: i32, m: u32, d: u32) -> (r: Option<Date>)
        ensures
            (match r {
                Some(date) => {
                    &&& is_civil(y as int, m as int, d as int)
                    &&& MIN_YEAR <= y <= MAX_YEAR
                    &&& date.day() == civil_day(y as int, m as int, d as int)
                },
                None => !(is_civil(y as int, m as int, d as int) && MIN_YEAR <= y <= MAX_YEAR),
            }),
    {
        match day_of_ymd(y, m, d) {
            Some(number) => Some(Date { number }),
            None => None,
        }
    }

    /// The date with a day number, where there is one.
    pub fn from_day_number(number: i64) -> (r: Option<Date>)
        ensures
            (match r {
                Some(date) => date.day() == number && MIN_DAY <= number <= MAX_DAY,
                None => !(MIN_DAY <= number <= MAX_DAY),
            }),
    {
        if (MIN_DAY as i64) <= number && number <= (MAX_DAY as i64) {
            Some(Date { number: number as i32 })
        } else {
            None
        }
    }

    /// The date's day number.
    pub fn day_number(self) -> (r: i32)
        ensures
            r == self.day(),
            MIN_DAY <= r <= MAX_DAY,
    {
        proof {
            use_type_invariant(&self);
        }
        self.number
    }

    /// The date's year, month, and day.
    pub fn ymd(self) -> (r: (i32, u32, u32))
        ensures
            (r.0 as int, r.1 as int, r.2 as int) == civil_of(self.day()),
            is_civil(r.0 as int, r.1 as int, r.2 as int),
            civil_day(r.0 as int, r.1 as int, r.2 as int) == self.day(),
            MIN_YEAR <= r.0 <= MAX_YEAR,
    {
        proof {
            use_type_invariant(&self);
            civil_of_is_the_date(self.day());
        }
        ymd_of_day(self.number)
    }

    /// The date's weekday, counted from Monday as 0.
    pub fn weekday(self) -> (r: u32)
        ensures
            r == (self.day() - 1) % 7,
    {
        proof {
            use_type_invariant(&self);
        }
        weekday_of_day(self.number)
    }

    /// The date in ISO 8601.
    pub fn text(self) -> (r: String)
        ensures
            r@ == date_text(self.day()),
    {
        proof {
            use_type_invariant(&self);
        }
        text_of_day(self.number)
    }
}

proof fn months_repeat(y: int, m: int)
    ensures
        days_before_month(y + 400, m) == days_before_month(y, m),
    decreases m,
{
    if m > 1 {
        months_repeat(y, m - 1);
        assert((y + 400) % 4 == y % 4);
        assert((y + 400) % 100 == y % 100);
        assert((y + 400) % 400 == y % 400);
    }
}

/// The calendar repeats every four hundred years, which are 146097 days. Day
/// one is the first of January of year one.
pub proof fn calendars_repeat(y: int, m: int, d: int)
    ensures
        civil_day(y + 400, m, d) == civil_day(y, m, d) + 146_097,
        civil_day(1, 1, 1) == 1,
{
    months_repeat(y, m);
    reveal_with_fuel(days_before_month, 2);
}

/// A year has 365 days, and one more where it is a leap year: every fourth
/// year, but of the years that end a century only every fourth. Of its months
/// four have thirty days, seven have thirty-one, and February has the rest.
pub proof fn years_have_their_days(y: int)
    ensures
        civil_day(y + 1, 1, 1) - civil_day(y, 1, 1) == (if y % 400 == 0 || (y % 4 == 0 && y % 100
            != 0) {
            366int
        } else {
            365int
        }),
        civil_day(y, 2, 1) - civil_day(y, 1, 1) == 31,
        civil_day(y, 4, 1) - civil_day(y, 3, 1) == 31,
        civil_day(y, 5, 1) - civil_day(y, 4, 1) == 30,
        civil_day(y, 6, 1) - civil_day(y, 5, 1) == 31,
        civil_day(y, 7, 1) - civil_day(y, 6, 1) == 30,
        civil_day(y, 8, 1) - civil_day(y, 7, 1) == 31,
        civil_day(y, 9, 1) - civil_day(y, 8, 1) == 31,
        civil_day(y, 10, 1) - civil_day(y, 9, 1) == 30,
        civil_day(y, 11, 1) - civil_day(y, 10, 1) == 31,
        civil_day(y, 12, 1) - civil_day(y, 11, 1) == 30,
        civil_day(y + 1, 1, 1) - civil_day(y, 12, 1) == 31,
{
    leap_days(y - 1);
    reveal_with_fuel(days_before_month, 13);
}

} // verus!
