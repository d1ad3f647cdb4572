//! Instants in UTC to the nanosecond: a day number, a second of the day, and
//! a fraction. A fraction of a second or more stands for a leap second.
//! Reading and writing instants as text is chrono's.

use chrono::Datelike;
use chrono::Timelike;
use vstd::prelude::*;

use crate::date;
use crate::date::{MAX_DAY, MIN_DAY};
use crate::num;
use crate::text;

verus! {

/// What an [`Instant`] is.
pub struct Moment {
    pub day: int,
    pub second: int,
    pub nano: int,
}

/// Whether a moment is one that an instant can have. A leap second follows
/// the last second of a minute.
pub open spec fn is_moment(m: Moment) -> bool {
    &&& MIN_DAY <= m.day <= MAX_DAY
    &&& 0 <= m.second < 86_400
    &&& 0 <= m.nano < 2_000_000_000
    &&& m.nano >= 1_000_000_000 ==> m.second % 60 == 59
}

/// Whether `a` is later than `b`.
pub open spec fn is_after(a: Moment, b: Moment) -> bool {
    if a.day != b.day {
        a.day > b.day
    } else if a.second != b.second {
        a.second > b.second
    } else {
        a.nano > b.nano
    }
}

/// The moment some whole seconds later; nothing where the calendar ends
/// before it. A moment in a leap second that is left counts as one in the
/// second before.
pub open spec fn later(m: Moment, seconds: int) -> Option<Moment> {
    if seconds == 0 {
        Some(m)
    } else {
        let total = m.second + seconds;
        let day = m.day + total / 86_400;
        if day > MAX_DAY {
            None
        } else {
            Some(
                Moment {
                    day,
                    second: total % 86_400,
                    nano: if m.nano >= 1_000_000_000 {
                        m.nano - 1_000_000_000
                    } else {
                        m.nano
                    },
                },
            )
        }
    }
}

/// Nanoseconds from `b` to `a`. A leap second between the two times of day
/// counts.
pub open spec fn nanos_between(a: Moment, b: Moment) -> int {
    let leap: int = if a.second > b.second && b.nano >= 1_000_000_000 {
        1
    } else if a.second < b.second && a.nano >= 1_000_000_000 {
        -1
    } else {
        0
    };
    ((a.day - b.day) * 86_400 + (a.second - b.second) + leap) * 1_000_000_000 + (a.nano - b.nano)
}

/// Whole days from `b` to `a`, rounded toward zero.
pub open spec fn days_between(a: Moment, b: Moment) -> int {
    num::quotient(num::quotient(nanos_between(a, b), 1_000_000_000), 86_400)
}

/// `n` in exactly `width` digits.
pub open spec fn padded(n: nat, width: nat) -> Seq<char>
    decreases width,
{
    if width == 0 {
        Seq::empty()
    } else {
        padded(n / 10, (width - 1) as nat) + text::digit_text(n % 10)
    }
}

/// A fraction of a second in three, six, or nine digits, as few as suffice.
pub open spec fn fraction_text(nano: nat) -> Seq<char> {
    if nano == 0 {
        Seq::empty()
    } else if nano % 1_000_000 == 0 {
        "."@ + padded(nano / 1_000_000, 3)
    } else if nano % 1_000 == 0 {
        "."@ + padded(nano / 1_000, 6)
    } else {
        "."@ + padded(nano, 9)
    }
}

/// The text of a moment: `YYYY-MM-DD hh:mm:ss UTC`, with a fraction where
/// there is one. A leap second is written as second 60.
pub open spec fn moment_text(m: Moment) -> Seq<char> {
    let leap = m.nano >= 1_000_000_000;
    let second = m.second % 60 + (if leap {
        1int
    } else {
        0
    });
    let nano = if leap {
        m.nano - 1_000_000_000
    } else {
        m.nano
    };
    date::date_text(m.day) + " "@ + text::two_digits((m.second / 3600) as nat) + ":"@
        + text::two_digits((m.second / 60 % 60) as nat) + ":"@ + text::two_digits(second as nat)
        + fraction_text(nano as nat) + " UTC"@
}

/// The moment in UTC that chrono reads from an RFC 3339 text, or nothing
/// where it reads none.
pub uninterp spec fn read_rfc3339(s: Seq<char>) -> Option<(int, int, int)>;

/// chrono's `DateTime::parse_from_rfc3339`, taken to UTC and split into day
/// number, second of the day, and fraction. Which texts it accepts is left to
/// the name; what it gives is a moment that an instant can have.
#[verifier::external_body]
fn parse_rfc3339(s: &str) -> (r: Option<(i32, u32, u32)>)
    ensures
        (match r {
            Some((day, second, nano)) => {
                &&& read_rfc3339(s@) == Some((day as int, second as int, nano as int))
                &&& is_moment(
                    Moment { day: day as int, second: second as int, nano: nano as int },
                )
            },
            None => read_rfc3339(s@) is None,
        }),
{
    let t = chrono::DateTime::parse_from_rfc3339(s).ok()?.naive_utc();
    Some((t.date().num_days_from_ce(), t.num_seconds_from_midnight(), t.nanosecond()))
}

/// chrono's `Display` of the `DateTime<Utc>` with the given day number,
/// second of the day, and fraction.
#[verifier::external_body]
fn text_of_moment(day: i32, second: u32, nano: u32) -> (r: String)
    requires
        is_moment(Moment { day: day as int, second: second as int, nano: nano as int }),
    ensures
        r@ == moment_text(Moment { day: day as int, second: second as int, nano: nano as int }),
{
    let date = chrono::NaiveDate::from_num_days_from_ce_opt(day).unwrap();
    let time = chrono::NaiveTime::from_num_seconds_from_midnight_opt(second, nano).unwrap();
    date.and_time(time).and_utc().to_string()
}

/// An instant in UTC.
#[derive(Debug, Clone, Copy, PartialEq, Eq, Structural)]
pub struct Instant {
    day: i32,
    second: u32,
    nano: u32,
}

impl View for Instant {
    type V = Moment;

    closed spec fn view(&self) -> Moment {
        Moment { day: self.day as int, second: self.second as int, nano: self.nano as int }
    }
}

impl Instant {
    #[verifier::type_invariant]
    spec fn in_range(self) -> bool {
        is_moment(
            Moment { day: self.day as int, second: self.second as int, nano: self.nano as int },
        )
    }

    /// The instant of a day number, a second of the day, and a fraction in
    /// nanoseconds, where there is one.
    pub fn new(day: i32, second: u32, nano: u32) -> (r: Option<Instant>)
        ensures
            ({
                let m = Moment { day: day as int, second: second as int, nano: nano as int };
                match r {
                    Some(i) => i@ == m && is_moment(m),
                    None => !is_moment(m),
                }
            }),
    {
        if MIN_DAY <= day && day <= MAX_DAY && second < 86_400 && nano < 2_000_000_000 && (nano
            < 1_000_000_000 || second % 60 == 59) {
            Some(Instant { day, second, nano })
        } else {
            None
        }
    }

    /// Read an instant written in RFC 3339.
    pub fn parse(s: &str) -> (r: Option<Instant>)
        ensures
            (match r {
                Some(i) => read_rfc3339(s@) == Some((i@.day, i@.second, i@.nano)),
                None => read_rfc3339(s@) is None,
            }),
    {
        match parse_rfc3339(s) {
            Some((day, second, nano)) => Some(Instant { day, second, nano }),
            None => None,
        }
    }

    /// The day number, the second of the day, and the fraction.
    pub fn parts(self) -> (r: (i32, u32, u32))
        ensures
            self@ == (Moment { day: r.0 as int, second: r.1 as int, nano: r.2 as int }),
            is_moment(self@),
    {
        proof {
            use_type_invariant(&self);
        }
        (self.day, self.second, self.nano)
    }

    /// Whether this instant is later than another.
    pub fn after(self, other: Instant) -> (r: bool)
        ensures
            r == is_after(self@, other@),
    {
        if self.day != other.day {
            self.day > other.day
        } else if self.second != other.second {
            self.second > other.second
        } else {
            self.nano > other.nano
        }
    }

    /// The instant some whole seconds later, where the calendar holds it.
    pub fn plus_seconds(self, seconds: u128) -> (r: Option<Instant>)
        ensures
            (match r {
                Some(i) => later(self@, seconds as int) == Some(i@),
                None => later(self@, seconds as int) is None,
            }),
    {
        proof {
            use_type_invariant(&self);
        }
        if seconds == 0 {
            return Some(self);
        }
        if seconds > 40_000_000_000_000_000 {
            return None;
        }
        let total: u128 = self.second as u128 + seconds;
        let days: u128 = total / 86_400;
        let second: u32 = (total % 86_400) as u32;
        if days > 400_000_000 {
            return None;
        }
        let day: i64 = self.day as i64 + days as i64;
        if day > MAX_DAY as i64 {
            return None;
        }
        let nano: u32 = if self.nano >= 1_000_000_000 {
            self.nano - 1_000_000_000
        } else {
            self.nano
        };
        Some(Instant { day: day as i32, second, nano })
    }

    /// Whole days from another instant to this one, rounded toward zero.
    pub fn days_since(self, other: Instant) -> (r: i128)
        ensures
            r == days_between(self@, other@),
    {
        proof {
            use_type_invariant(&self);
            use_type_invariant(&other);
        }
        let leap: i128 = if self.second > other.second && other.nano >= 1_000_000_000 {
            1
        } else if self.second < other.second && self.nano >= 1_000_000_000 {
            -1
        } else {
            0
        };
        let seconds: i128 = (self.day as i128 - other.day as i128) * 86_400 + (self.second as i128
            - other.second as i128) + leap;
        let nanos: i128 = seconds * 1_000_000_000 + (self.nano as i128 - other.nano as i128);
        let whole: i128 = num::divide(nanos, 1_000_000_000);
        num::divide(whole, 86_400)
    }

    /// The instant as text.
    pub fn text(self) -> (r: String)
        ensures
            r@ == moment_text(self@),
    {
        proof {
            use_type_invariant(&self);
        }
        text_of_moment(self.day, self.second, self.nano)
    }
}

/// Outside leap seconds, the days between two moments are the whole days in
/// the nanoseconds between them, counted toward zero.
pub proof fn days_between_are_whole_days(a: Moment, b: Moment)
    requires
        a.nano < 1_000_000_000,
        b.nano < 1_000_000_000,
    ensures
        ({
            let day: int = 86_400_000_000_000;
            let apart = (a.day - b.day) * day + (a.second - b.second) * 1_000_000_000 + (a.nano
                - b.nano);
            let rest = apart - days_between(a, b) * day;
            &&& -day < rest < day
            &&& apart >= 0 ==> rest >= 0
            &&& apart <= 0 ==> rest <= 0
        }),
{
    let apart = nanos_between(a, b);
    let seconds = num::quotient(apart, 1_000_000_000);
    num::quotients_round_toward_zero(apart, 1_000_000_000);
    num::quotients_round_toward_zero(seconds, 86_400);
}

} // verus!
