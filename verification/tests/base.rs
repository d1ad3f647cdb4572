//! Dates, instants, tables, numbers, and text.

use control_spine::capa::engine::normalize_description;
use control_spine::date::{month_length, Date, MAX_DAY, MAX_YEAR, MIN_DAY, MIN_YEAR};
use control_spine::instant::Instant;
use control_spine::num::{divide, unsigned_abs};
use control_spine::table::Table;
use control_spine::text::{
    blank, eq_ignoring_case, four_digit_text, join, plus_text, signed_text, sorted_unique,
    split_words, text_before, trim, two_digit_text, unsigned_text,
};

use chrono::{DateTime, Datelike, Days, NaiveDate, TimeDelta, Utc};

fn day(s: &str) -> Date {
    Date::parse(s).unwrap()
}

fn at(s: &str) -> Instant {
    Instant::parse(s).unwrap()
}

#[test]
fn dates_read_and_print() {
    assert_eq!(day("2026-09-22").text(), "2026-09-22");
    assert_eq!(day("2026-09-22").ymd(), (2026, 9, 22));
    assert_eq!(Date::parse("2026-02-29"), None);
    assert_eq!(Date::parse("22/09/2026"), None);
    assert_eq!(Date::parse(""), None);
    assert!(Date::parse("2024-02-29").is_some());
    assert_eq!(Date::from_ymd_opt(2026, 13, 1), None);
    assert_eq!(Date::from_ymd_opt(2024, 2, 29).unwrap().text(), "2024-02-29");
}

#[test]
fn dates_span_the_calendar() {
    assert_eq!(NaiveDate::MIN.num_days_from_ce(), MIN_DAY);
    assert_eq!(NaiveDate::MAX.num_days_from_ce(), MAX_DAY);
    assert_eq!(NaiveDate::MIN.year(), MIN_YEAR);
    assert_eq!(NaiveDate::MAX.year(), MAX_YEAR);
    for number in [MIN_DAY, MAX_DAY] {
        let date = Date::from_day_number(number as i64).unwrap();
        let there = NaiveDate::from_num_days_from_ce_opt(number).unwrap();
        assert_eq!(date.text(), there.to_string());
        assert_eq!(date.ymd(), (there.year(), there.month(), there.day()));
    }
    assert_eq!(Date::from_day_number(MIN_DAY as i64 - 1), None);
    assert_eq!(Date::from_day_number(MAX_DAY as i64 + 1), None);
    assert_eq!(Date::from_day_number(i64::MAX), None);
}

#[test]
fn dates_count_days() {
    assert_eq!(Date::from_ymd_opt(1, 1, 1).unwrap().day_number(), 1);
    assert_eq!(day("1970-01-01").day_number(), 719_163);
    let mut there = NaiveDate::from_ymd_opt(1999, 12, 25).unwrap();
    for _ in 0..900 {
        let here = Date::from_ymd_opt(there.year(), there.month(), there.day()).unwrap();
        assert_eq!(here.day_number(), there.num_days_from_ce());
        assert_eq!(here.weekday(), there.weekday().num_days_from_monday());
        assert_eq!(here.text(), there.to_string());
        there = there.checked_add_days(Days::new(1)).unwrap();
    }
}

#[test]
fn dates_know_their_months() {
    assert_eq!(month_length(2024, 2), 29);
    assert_eq!(month_length(2023, 2), 28);
    assert_eq!(month_length(1900, 2), 28);
    assert_eq!(month_length(2000, 2), 29);
    assert_eq!(month_length(2026, 4), 30);
    assert_eq!(month_length(2026, 12), 31);
}

#[test]
fn instants_read_and_print() {
    let i = at("2026-09-22T01:30:00+02:00");
    assert_eq!(i, at("2026-09-21T23:30:00Z"));
    assert_eq!(i.text(), "2026-09-21 23:30:00 UTC");
    let there: DateTime<Utc> = "2026-09-21T23:30:00.25Z".parse().unwrap();
    assert_eq!(at("2026-09-21T23:30:00.25Z").text(), there.to_string());
    assert_eq!(Instant::parse("2026-09-22"), None);
    assert_eq!(Instant::new(1, 86_400, 0), None);
    assert_eq!(Instant::new(1, 86_399, 2_000_000_000), None);
}

#[test]
fn instants_are_compared_and_moved() {
    let a = at("2026-09-20T12:00:00Z");
    let b = a.plus_seconds(86_400).unwrap();
    assert_eq!(b, at("2026-09-21T12:00:00Z"));
    assert!(b.after(a));
    assert!(!a.after(a));
    assert_eq!(b.days_since(a), 1);
    assert_eq!(a.days_since(b), -1);
    assert_eq!(at("2026-09-21T11:59:59Z").days_since(a), 0);
    assert_eq!(a.plus_seconds(u128::MAX), None);
}

#[test]
fn instants_agree_with_leap_seconds() {
    let texts = [
        "2016-12-31T23:59:59Z",
        "2016-12-31T23:59:60Z",
        "2016-12-31T23:59:60.5Z",
        "2017-01-01T00:00:00Z",
        "2017-01-01T23:59:60Z",
        "2017-01-02T23:59:59.9Z",
    ];
    for x in texts {
        let a: DateTime<Utc> = DateTime::parse_from_rfc3339(x).unwrap().with_timezone(&Utc);
        assert_eq!(at(x).text(), a.to_string());
        for y in texts {
            let b: DateTime<Utc> = DateTime::parse_from_rfc3339(y).unwrap().with_timezone(&Utc);
            assert_eq!(at(x).after(at(y)), a > b, "{x} {y}");
            assert_eq!(
                at(x).days_since(at(y)),
                a.signed_duration_since(b).num_days() as i128,
                "{x} {y}"
            );
        }
        for seconds in [0i64, 1, 2, 3_600, 86_399, 86_400, 200_000] {
            let moved = a.checked_add_signed(TimeDelta::seconds(seconds)).unwrap();
            assert_eq!(at(x).plus_seconds(seconds as u128).unwrap().text(), moved.to_string());
        }
    }
}

#[test]
fn tables_keep_one_value_for_each_key() {
    let mut table: Table<u32> = Table::new();
    table.insert("b".to_string(), 1);
    table.insert("a".to_string(), 2);
    table.insert("b".to_string(), 3);
    assert_eq!(table.len(), 2);
    assert_eq!((table.key(0), *table.value(0)), ("a", 2));
    assert_eq!((table.key(1), *table.value(1)), ("b", 3));
    assert_eq!(table.get("b"), Some(&3));
    assert_eq!(table.get("c"), None);
    assert!(table.contains_key("a"));
    assert_eq!(table.find("c"), None);
}

#[test]
fn tables_trim_their_keys() {
    let mut table: Table<u32> = Table::new();
    table.insert("a".to_string(), 1);
    table.insert(" a ".to_string(), 2);
    table.insert("b\t".to_string(), 3);
    let trimmed = table.with_trimmed_keys();
    assert_eq!(trimmed.len(), 2);
    // " a " sorts before "a", so "a" comes last and stays.
    assert_eq!(trimmed.get("a"), Some(&1));
    assert_eq!(trimmed.get("b"), Some(&3));
}

#[test]
fn numbers_divide_toward_zero() {
    assert_eq!(divide(-7, 2), -3);
    assert_eq!(divide(7, -2), -3);
    assert_eq!(divide(i128::MIN, 1), i128::MIN);
    assert_eq!(unsigned_abs(i128::MIN), 1u128 << 127);
}

#[test]
fn numbers_print() {
    for n in [0u128, 1, 9, 10, 99, 100, u128::MAX] {
        assert_eq!(unsigned_text(n), n.to_string());
    }
    for i in [0i128, 1, -1, i128::MIN, i128::MAX] {
        assert_eq!(signed_text(i), i.to_string());
        assert_eq!(plus_text(i), format!("{i:+}"));
    }
    assert_eq!(two_digit_text(7), "07");
    assert_eq!(two_digit_text(123), "123");
    assert_eq!(four_digit_text(7), "0007");
    assert_eq!(four_digit_text(2026), "2026");
}

#[test]
fn text_is_trimmed_split_and_compared() {
    for s in ["", " ", " a b ", "\u{2003}x\u{a0}", "\tä\r\n", "a"] {
        assert_eq!(trim(s), s.trim());
        assert_eq!(blank(s), s.trim().is_empty());
        let words: Vec<&str> = s.split_whitespace().collect();
        assert_eq!(split_words(s), words);
    }
    assert!(eq_ignoring_case("Engine", "ENGINE"));
    assert!(!eq_ignoring_case("É", "é"));
    let texts = ["", "a", "ab", "b", "B", "é", "z", "\u{10000}", "\u{ffff}"];
    for a in texts {
        for b in texts {
            assert_eq!(text_before(a, b), a < b);
            assert_eq!(eq_ignoring_case(a, b), a.eq_ignore_ascii_case(b));
        }
    }
    let list = vec!["b".to_string(), "a".to_string(), "b".to_string()];
    assert_eq!(join(&list, ", "), "b, a, b");
    assert_eq!(sorted_unique(list), vec!["a", "b"]);
}

#[test]
fn text_is_lowered_as_std_lowers_it() {
    assert_eq!(normalize_description("ΣΟΦΟΣ İ"), "ΣΟΦΟΣ İ".to_lowercase());
}
