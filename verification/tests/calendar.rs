//! Dates, against chrono.

use chrono::Datelike;
use chrono::NaiveDate;
use workcheck::calendar::last_day_of_month;
use workcheck::calendar::weekday_of;
use workcheck::calendar::Date;
use workcheck::calendar::MAX_DAY;
use workcheck::calendar::MAX_YEAR;
use workcheck::calendar::MIN_DAY;
use workcheck::calendar::MIN_YEAR;
use workcheck::days::days_within;
use workcheck::days::has_day;
use workcheck::days::sorted_days;
use workcheck::days::DateSet;

#[test]
fn day_numbers_agree_with_chrono() {
    for (y, m, d) in [(2026, 2, 28), (2024, 2, 29), (1, 1, 1), (0, 12, 31), (-400, 3, 1), (1900, 3, 1), (2000, 12, 31)] {
        let ours = Date::from_ymd_opt(y, m, d).unwrap();
        let theirs = NaiveDate::from_ymd_opt(y, m, d).unwrap();
        assert_eq!(ours.days(), theirs.num_days_from_ce());
        assert_eq!(ours.ymd(), (y, m, d));
        assert_eq!(ours.weekday(), theirs.weekday().num_days_from_sunday());
        assert_eq!(ours.to_text(), theirs.to_string());
        assert_eq!(Date::parse(&ours.to_text()), Some(ours));
    }
}

#[test]
fn dates_that_are_none() {
    assert_eq!(Date::from_ymd_opt(2026, 2, 29), None);
    assert_eq!(Date::from_ymd_opt(2026, 13, 1), None);
    assert_eq!(Date::from_ymd_opt(2026, 0, 1), None);
    assert_eq!(Date::from_ymd_opt(2026, 1, 0), None);
    assert_eq!(Date::parse("not-a-date"), None);
    assert_eq!(Date::parse("2026-02-30"), None);
    assert_eq!(Date::parse(""), None);
}

#[test]
fn calendar_ends_where_chrono_ends() {
    assert_eq!(NaiveDate::MIN.num_days_from_ce(), MIN_DAY);
    assert_eq!(NaiveDate::MAX.num_days_from_ce(), MAX_DAY);
    assert_eq!(NaiveDate::MIN.year(), MIN_YEAR);
    assert_eq!(NaiveDate::MAX.year(), MAX_YEAR);
    let last = Date::from_days(MAX_DAY);
    assert_eq!(last.plus_days(1), None);
    assert_eq!(last.plus_days(-1).unwrap().days(), MAX_DAY - 1);
    assert_eq!(last.to_text(), "+262142-12-31");
    assert_eq!(Date::from_days(MIN_DAY).plus_days(-1), None);
    assert_eq!(Date::from_days(MIN_DAY).to_text(), "-262143-01-01");
    assert_eq!(Date::from_ymd_opt(MAX_YEAR + 1, 1, 1), None);
    assert_eq!(Date::from_ymd_opt(MIN_YEAR - 1, 12, 31), None);
    assert_eq!(Date::from_ymd_opt(0, 1, 1).unwrap().to_text(), "0000-01-01");
}

#[test]
fn months_and_weekdays() {
    assert_eq!(last_day_of_month(2026, 2), 28);
    assert_eq!(last_day_of_month(2024, 2), 29);
    assert_eq!(last_day_of_month(1900, 2), 28);
    assert_eq!(last_day_of_month(2026, 4), 30);
    assert_eq!(last_day_of_month(2026, 12), 31);
    assert_eq!(last_day_of_month(MAX_YEAR, 12), 31);
    assert_eq!(weekday_of(1), 1);
    assert_eq!(weekday_of(0), 0);
    assert_eq!(weekday_of(-1), 6);
}

#[test]
fn lists_and_sets_of_days() {
    assert_eq!(sorted_days(&vec![5, 1, 5, 3]), vec![1, 3, 5]);
    assert_eq!(days_within(&vec![1, 3, 5], 2, 5), vec![3, 5]);
    assert!(has_day(&vec![1, 3], 3));
    assert!(!has_day(&vec![1, 3], 2));
    let mut set = DateSet::new();
    let d = Date::from_ymd_opt(2026, 1, 1).unwrap();
    assert!(!set.has(d.days()));
    set.insert(d);
    set.insert(d);
    assert!(set.has(d.days()));
    assert!(!set.has(d.days() + 1));
}
