//! Due dates and labels of recurrence rules.

use workcheck::calendar::Date;
use workcheck::days::DateSet;
use workcheck::label::rule_label;
use workcheck::label::rule_summary;
use workcheck::label::short_recur;
use workcheck::label::weekday_ko;
use workcheck::json::param_value;
use workcheck::recur::base_occurrences;
use workcheck::recur::occurrences_between;
use workcheck::recur::parse_cfg;
use workcheck::recur::parse_rule;

fn d(y: i32, m: u32, day: u32) -> Date {
    Date::from_ymd_opt(y, m, day).unwrap()
}
fn empty() -> DateSet {
    DateSet::new()
}

#[test]
fn monthly_clamp_february() {
    let occ = occurrences_between("monthly", r#"{"day":31}"#, d(2026, 2, 1), d(2026, 2, 28), &empty());
    assert_eq!(occ, vec![d(2026, 2, 28)]);
}

#[test]
fn monthly_clamp_april() {
    let occ = occurrences_between("monthly", r#"{"day":31}"#, d(2026, 4, 1), d(2026, 4, 30), &empty());
    assert_eq!(occ, vec![d(2026, 4, 30)]);
}

#[test]
fn daily_weekdays_only_skips_weekend() {
    let occ = occurrences_between("daily", r#"{"weekdaysOnly":true}"#, d(2026, 7, 20), d(2026, 7, 26), &empty());
    assert_eq!(occ, vec![d(2026,7,20), d(2026,7,21), d(2026,7,22), d(2026,7,23), d(2026,7,24)]);
}

#[test]
fn daily_weekdays_only_skips_holiday() {
    let mut h = empty();
    h.insert(d(2026, 8, 17));
    let occ = occurrences_between("daily", r#"{"weekdaysOnly":true}"#, d(2026, 8, 17), d(2026, 8, 17), &h);
    assert!(occ.is_empty());
}

#[test]
fn weekly_friday() {
    let occ = occurrences_between("weekly", r#"{"weekday":5}"#, d(2026, 7, 1), d(2026, 7, 31), &empty());
    assert_eq!(occ, vec![d(2026,7,3), d(2026,7,10), d(2026,7,17), d(2026,7,24), d(2026,7,31)]);
}

#[test]
fn quarterly_last_month_end() {
    let occ = occurrences_between("quarterly", r#"{"monthOfQuarter":3,"day":31}"#, d(2026, 1, 1), d(2026, 12, 31), &empty());
    assert_eq!(occ, vec![d(2026,3,31), d(2026,6,30), d(2026,9,30), d(2026,12,31)]);
}

#[test]
fn yearly_leap_day_clamp() {
    let occ = occurrences_between("yearly", r#"{"month":2,"day":29}"#, d(2026, 1, 1), d(2026, 12, 31), &empty());
    assert_eq!(occ, vec![d(2026, 2, 28)]);
}

#[test]
fn labels() {
    assert_eq!(rule_label("daily", r#"{"weekdaysOnly":true}"#), "매일 · 평일만");
    assert_eq!(rule_label("weekly", r#"{"weekday":5}"#), "매주 · 금");
    assert_eq!(rule_label("monthly", r#"{"day":1}"#), "매월 · 1일");
}

#[test]
fn once_within_range() {
    let occ = occurrences_between("once", r#"{"date":"2026-07-25"}"#, d(2026, 7, 1), d(2026, 7, 31), &empty());
    assert_eq!(occ, vec![d(2026, 7, 25)]);
}

#[test]
fn once_outside_range() {
    let occ = occurrences_between("once", r#"{"date":"2026-08-25"}"#, d(2026, 7, 1), d(2026, 7, 31), &empty());
    assert!(occ.is_empty());
}

#[test]
fn once_bad_param() {
    let occ = occurrences_between("once", r#"{"date":"not-a-date"}"#, d(2026, 7, 1), d(2026, 7, 31), &empty());
    assert!(occ.is_empty());
    let occ2 = occurrences_between("once", r#"{}"#, d(2026, 7, 1), d(2026, 7, 31), &empty());
    assert!(occ2.is_empty());
    assert_eq!(rule_label("once", r#"{"date":"2026-07-25"}"#), "1회 · 7/25");
    assert_eq!(rule_label("once", r#"{}"#), "1회");
}

#[test]
fn weekly_multi_weekdays() {
    let occ = occurrences_between(
        "weekly",
        r#"{"weekdays":[2,4]}"#,
        d(2026, 8, 1),
        d(2026, 8, 31),
        &empty(),
    );
    assert_eq!(
        occ,
        vec![
            d(2026, 8, 4), d(2026, 8, 6), d(2026, 8, 11), d(2026, 8, 13),
            d(2026, 8, 18), d(2026, 8, 20), d(2026, 8, 25), d(2026, 8, 27),
        ]
    );
}

#[test]
fn weekly_biweekly_phase() {
    let occ = occurrences_between(
        "weekly",
        r#"{"weekdays":[2,4],"interval":2,"start":"2026-08-03"}"#,
        d(2026, 8, 1),
        d(2026, 8, 31),
        &empty(),
    );
    assert_eq!(occ, vec![d(2026, 8, 4), d(2026, 8, 6), d(2026, 8, 18), d(2026, 8, 20)]);
}

#[test]
fn daily_interval_three() {
    let occ = occurrences_between(
        "daily",
        r#"{"interval":3,"start":"2026-08-03"}"#,
        d(2026, 8, 1),
        d(2026, 8, 15),
        &empty(),
    );
    assert_eq!(
        occ,
        vec![d(2026, 8, 3), d(2026, 8, 6), d(2026, 8, 9), d(2026, 8, 12), d(2026, 8, 15)]
    );
}

#[test]
fn monthly_days_with_last_day() {
    let occ = occurrences_between(
        "monthly",
        r#"{"mode":"days","days":[10,25],"lastDay":true}"#,
        d(2026, 2, 1),
        d(2026, 3, 31),
        &empty(),
    );
    assert_eq!(
        occ,
        vec![
            d(2026, 2, 10), d(2026, 2, 25), d(2026, 2, 28),
            d(2026, 3, 10), d(2026, 3, 25), d(2026, 3, 31),
        ]
    );
}

#[test]
fn monthly_nth_last_friday() {
    let occ = occurrences_between(
        "monthly",
        r#"{"mode":"nth","nth":-1,"weekday":5}"#,
        d(2026, 1, 1),
        d(2026, 3, 31),
        &empty(),
    );
    assert_eq!(occ, vec![d(2026, 1, 30), d(2026, 2, 27), d(2026, 3, 27)]);
}

#[test]
fn monthly_nth_first_monday() {
    let occ = occurrences_between(
        "monthly",
        r#"{"mode":"nth","nth":1,"weekday":1}"#,
        d(2026, 8, 1),
        d(2026, 9, 30),
        &empty(),
    );
    assert_eq!(occ, vec![d(2026, 8, 3), d(2026, 9, 7)]);
}

#[test]
fn monthly_nth_fifth_may_be_absent() {
    let aug = occurrences_between(
        "monthly", r#"{"mode":"nth","nth":5,"weekday":1}"#,
        d(2026, 8, 1), d(2026, 8, 31), &empty());
    assert_eq!(aug, vec![d(2026, 8, 31)]);
    let sep = occurrences_between(
        "monthly", r#"{"mode":"nth","nth":5,"weekday":1}"#,
        d(2026, 9, 1), d(2026, 9, 30), &empty());
    assert!(sep.is_empty());
}

#[test]
fn holiday_skip_drops_occurrence() {
    let mut h = empty();
    h.insert(d(2026, 8, 14));
    let occ = occurrences_between(
        "weekly", r#"{"weekdays":[5],"holiday":"skip"}"#,
        d(2026, 8, 1), d(2026, 8, 31), &h);
    assert_eq!(occ, vec![d(2026, 8, 7), d(2026, 8, 21), d(2026, 8, 28)]);
}

#[test]
fn holiday_before_moves_backward() {
    let mut h = empty();
    h.insert(d(2026, 8, 14));
    let occ = occurrences_between(
        "weekly", r#"{"weekdays":[5],"holiday":"before"}"#,
        d(2026, 8, 1), d(2026, 8, 31), &h);
    assert_eq!(occ, vec![d(2026, 8, 7), d(2026, 8, 13), d(2026, 8, 21), d(2026, 8, 28)]);
}

#[test]
fn holiday_after_moves_over_long_weekend() {
    let mut h = empty();
    h.insert(d(2026, 8, 14));
    h.insert(d(2026, 8, 17));
    let occ = occurrences_between(
        "weekly", r#"{"weekdays":[5],"holiday":"after"}"#,
        d(2026, 8, 1), d(2026, 8, 31), &h);
    assert_eq!(occ, vec![d(2026, 8, 7), d(2026, 8, 18), d(2026, 8, 21), d(2026, 8, 28)]);
}

#[test]
fn holiday_before_pulls_outside_date_into_window() {
    let occ = occurrences_between(
        "monthly", r#"{"mode":"days","days":[1],"holiday":"before"}"#,
        d(2026, 7, 1), d(2026, 7, 31), &empty());
    assert_eq!(occ, vec![d(2026, 7, 1), d(2026, 7, 31)]);
}

#[test]
fn holiday_after_pushes_outside_date_into_window() {
    let mut h = empty();
    h.insert(d(2026, 7, 31));
    let occ = occurrences_between(
        "monthly", r#"{"mode":"days","days":[31],"holiday":"after"}"#,
        d(2026, 8, 1), d(2026, 8, 31), &h);
    assert_eq!(occ, vec![d(2026, 8, 3), d(2026, 8, 31)]);
}

#[test]
fn until_stops_generation() {
    let occ = occurrences_between(
        "weekly", r#"{"weekdays":[5],"until":"2026-08-14"}"#,
        d(2026, 8, 1), d(2026, 8, 31), &empty());
    assert_eq!(occ, vec![d(2026, 8, 7), d(2026, 8, 14)]);
}

#[test]
fn count_stops_generation() {
    let occ = occurrences_between(
        "weekly", r#"{"weekdays":[5],"start":"2026-08-03","count":2}"#,
        d(2026, 8, 1), d(2026, 12, 31), &empty());
    assert_eq!(occ, vec![d(2026, 8, 7), d(2026, 8, 14)]);
}

#[test]
fn count_without_start_is_ignored() {
    let occ = occurrences_between(
        "weekly", r#"{"weekdays":[5],"count":2}"#,
        d(2026, 8, 1), d(2026, 8, 31), &empty());
    assert_eq!(occ, vec![d(2026,8,7), d(2026,8,14), d(2026,8,21), d(2026,8,28)]);
}

#[test]
fn until_and_count_together() {
    let occ = occurrences_between(
        "weekly",
        r#"{"weekdays":[5],"start":"2026-08-03","count":3,"until":"2026-08-14"}"#,
        d(2026, 8, 1), d(2026, 12, 31), &empty());
    assert_eq!(occ, vec![d(2026, 8, 7), d(2026, 8, 14)]);
}

#[test]
fn start_excludes_earlier_dates() {
    let occ = occurrences_between(
        "weekly", r#"{"weekdays":[5],"start":"2026-08-10"}"#,
        d(2026, 8, 1), d(2026, 8, 31), &empty());
    assert_eq!(occ, vec![d(2026, 8, 14), d(2026, 8, 21), d(2026, 8, 28)]);
}

#[test]
fn legacy_params_match_new_format() {
    let (f, t) = (d(2026, 8, 1), d(2026, 10, 31));
    let mut h = empty();
    h.insert(d(2026, 8, 17));

    assert_eq!(
        occurrences_between("daily", r#"{"weekdaysOnly":true}"#, f, t, &h),
        occurrences_between("daily", r#"{"holiday":"skip"}"#, f, t, &h)
    );
    assert_eq!(
        occurrences_between("weekly", r#"{"weekday":5}"#, f, t, &h),
        occurrences_between("weekly", r#"{"weekdays":[5]}"#, f, t, &h)
    );
    assert_eq!(
        occurrences_between("monthly", r#"{"day":10}"#, f, t, &h),
        occurrences_between("monthly", r#"{"mode":"days","days":[10]}"#, f, t, &h)
    );
}

#[test]
fn interval_without_start_falls_back_to_one() {
    let occ = occurrences_between("daily", r#"{"interval":3}"#, d(2026, 8, 1), d(2026, 8, 5), &empty());
    assert_eq!(
        occ,
        vec![d(2026,8,1), d(2026,8,2), d(2026,8,3), d(2026,8,4), d(2026,8,5)]
    );
    assert_eq!(rule_label("daily", r#"{"interval":3}"#), "매일");
}

#[test]
fn empty_selection_yields_nothing() {
    let occ = occurrences_between("weekly", r#"{"weekdays":[]}"#, d(2026, 8, 1), d(2026, 8, 31), &empty());
    assert!(occ.is_empty());
    let occ2 = occurrences_between(
        "monthly", r#"{"mode":"days","days":[],"lastDay":false}"#,
        d(2026, 8, 1), d(2026, 8, 31), &empty());
    assert!(occ2.is_empty());
}

#[test]
fn shifted_duplicates_are_deduped() {
    let mut h = empty();
    h.insert(d(2026, 8, 11));
    let occ = occurrences_between(
        "monthly", r#"{"mode":"days","days":[11,12],"holiday":"after"}"#,
        d(2026, 8, 1), d(2026, 8, 31), &h);
    assert_eq!(occ, vec![d(2026, 8, 12)]);
}

#[test]
fn extended_labels() {
    assert_eq!(rule_label("weekly", r#"{"weekdays":[2,4]}"#), "매주 · 화·목");
    assert_eq!(
        rule_label("weekly", r#"{"weekdays":[1],"interval":2,"start":"2026-08-03"}"#),
        "2주마다 · 월"
    );
    assert_eq!(
        rule_label("daily", r#"{"interval":3,"start":"2026-08-03"}"#),
        "3일마다"
    );
    assert_eq!(
        rule_label("monthly", r#"{"mode":"nth","nth":-1,"weekday":5}"#),
        "매월 · 마지막 금"
    );
    assert_eq!(
        rule_label("monthly", r#"{"mode":"nth","nth":1,"weekday":1}"#),
        "매월 · 첫째 월"
    );
    assert_eq!(
        rule_label("monthly", r#"{"mode":"days","days":[10,25],"lastDay":true}"#),
        "매월 · 10, 25일, 말일"
    );
}

#[test]
fn summaries() {
    assert_eq!(
        rule_summary("weekly", r#"{"weekdays":[2,4],"holiday":"after","until":"2026-12-31"}"#),
        "매주 화·목 · 공휴일이면 다음 영업일 · 2026-12-31까지"
    );
    assert_eq!(rule_summary("daily", r#"{}"#), "매일");
    assert_eq!(
        rule_summary("daily", r#"{"weekdaysOnly":true}"#),
        "매일 · 공휴일이면 건너뜀"
    );
    assert_eq!(
        rule_summary("monthly", r#"{"mode":"nth","nth":-1,"weekday":5,"holiday":"before"}"#),
        "매월 마지막 금 · 공휴일이면 직전 영업일"
    );
    assert_eq!(
        rule_summary("weekly", r#"{"weekdays":[5],"start":"2026-08-03","count":5}"#),
        "매주 금 · 5회"
    );
    assert_eq!(rule_summary("weekly", r#"{"weekdays":[5],"count":5}"#), "매주 금");
}

#[test]
fn windows_join() {
    let param = r#"{"weekdays":[5],"holiday":"after","start":"2026-07-01","count":6}"#;
    let mut h = empty();
    h.insert(d(2026, 7, 31));
    let whole = occurrences_between("weekly", param, d(2026, 7, 1), d(2026, 8, 31), &h);
    let mut parts = occurrences_between("weekly", param, d(2026, 7, 1), d(2026, 7, 31), &h);
    parts.extend(occurrences_between("weekly", param, d(2026, 8, 1), d(2026, 8, 31), &h));
    assert_eq!(whole, parts);
    assert_eq!(whole.len(), 6);
    assert_eq!(whole[4], d(2026, 8, 3));
}

#[test]
fn reversed_window_is_empty() {
    assert!(occurrences_between("daily", "{}", d(2026, 7, 2), d(2026, 7, 1), &empty()).is_empty());
}

#[test]
fn unknown_type_and_bad_parameter() {
    assert!(occurrences_between("hourly", "{}", d(2026, 7, 1), d(2026, 7, 31), &empty()).is_empty());
    let occ = occurrences_between("weekly", "not json", d(2026, 7, 1), d(2026, 7, 14), &empty());
    assert_eq!(occ, vec![d(2026, 7, 6), d(2026, 7, 13)]);
}

#[test]
fn occurrence_that_would_move_too_far_is_given_up() {
    let mut h = empty();
    for k in 0..60 {
        h.insert(d(2026, 8, 1).plus_days(k).unwrap());
    }
    let p = r#"{"date":"2026-08-03","holiday":"after"}"#;
    assert!(occurrences_between("once", p, d(2026, 8, 1), d(2026, 12, 31), &h).is_empty());
    let p = r#"{"date":"2026-08-31","holiday":"after"}"#;
    assert_eq!(occurrences_between("once", p, d(2026, 8, 1), d(2026, 12, 31), &h), vec![d(2026, 9, 30)]);
    let p = r#"{"date":"2026-08-03","holiday":"before"}"#;
    assert_eq!(occurrences_between("once", p, d(2026, 7, 1), d(2026, 12, 31), &h), vec![d(2026, 7, 31)]);
}

#[test]
fn move_may_take_exactly_the_limit() {
    let mut h = empty();
    for k in 0..31 {
        h.insert(d(2026, 8, 3).plus_days(k).unwrap());
    }
    let p = r#"{"date":"2026-08-03","holiday":"after"}"#;
    assert_eq!(occurrences_between("once", p, d(2026, 8, 1), d(2026, 12, 31), &h), vec![d(2026, 9, 3)]);
}

#[test]
fn only_business_days_are_due_when_occurrences_move() {
    let mut h = empty();
    h.insert(d(2026, 8, 17));
    for policy in ["skip", "before", "after"] {
        let p = format!("{{\"holiday\":\"{}\"}}", policy);
        for day in occurrences_between("daily", &p, d(2026, 8, 1), d(2026, 8, 31), &h) {
            assert!(day.weekday() != 0 && day.weekday() != 6 && day != d(2026, 8, 17));
        }
    }
}

#[test]
fn nothing_is_due_before_the_start() {
    let p = r#"{"days":[1],"holiday":"before","start":"2026-08-01"}"#;
    let occ = occurrences_between("monthly", p, d(2026, 7, 1), d(2026, 9, 30), &empty());
    assert_eq!(occ, vec![d(2026, 9, 1)]);
    let p = r#"{"holiday":"before","start":"2026-08-01"}"#;
    let occ = occurrences_between("daily", p, d(2026, 7, 1), d(2026, 8, 4), &empty());
    assert_eq!(occ, vec![d(2026, 8, 3), d(2026, 8, 4)]);
    let p = r#"{"days":[1],"holiday":"before","start":"2026-08-01","count":2}"#;
    let occ = occurrences_between("monthly", p, d(2026, 7, 1), d(2026, 12, 31), &empty());
    assert_eq!(occ, vec![d(2026, 9, 1), d(2026, 10, 1)]);
    let p = r#"{"days":[1],"holiday":"after","start":"2026-08-01"}"#;
    let occ = occurrences_between("monthly", p, d(2026, 7, 1), d(2026, 8, 31), &empty());
    assert_eq!(occ, vec![d(2026, 8, 3)]);
}

#[test]
fn numbers_out_of_range_are_brought_in() {
    let occ = occurrences_between("weekly", r#"{"weekdays":[5,9]}"#, d(2026, 7, 1), d(2026, 7, 7), &empty());
    assert_eq!(occ, vec![d(2026, 7, 3)]);
    let occ = occurrences_between("monthly", r#"{"days":[0,40]}"#, d(2026, 7, 1), d(2026, 7, 31), &empty());
    assert_eq!(occ, vec![d(2026, 7, 1), d(2026, 7, 31)]);
    let occ = occurrences_between("quarterly", r#"{"monthOfQuarter":9,"day":0}"#, d(2026, 1, 1), d(2026, 6, 30), &empty());
    assert_eq!(occ, vec![d(2026, 3, 1), d(2026, 6, 1)]);
    let occ = occurrences_between("yearly", r#"{"month":13,"day":99}"#, d(2026, 1, 1), d(2026, 12, 31), &empty());
    assert_eq!(occ, vec![d(2026, 12, 31)]);
    let occ = occurrences_between("monthly", r#"{"mode":"nth","nth":1,"weekday":77}"#, d(2026, 8, 1), d(2026, 8, 31), &empty());
    assert_eq!(occ, vec![d(2026, 8, 1)]);
    for nth in ["0", "-2", "6", "9223372036854775807", "4294967297"] {
        let p = format!("{{\"mode\":\"nth\",\"nth\":{},\"weekday\":1}}", nth);
        assert!(occurrences_between("monthly", &p, d(2026, 8, 1), d(2026, 12, 31), &empty()).is_empty());
    }
    let occ = occurrences_between("daily", r#"{"interval":-4,"start":"2026-08-01"}"#, d(2026, 8, 1), d(2026, 8, 3), &empty());
    assert_eq!(occ.len(), 3);
}

#[test]
fn counting_reaches_far() {
    let p = r#"{"month":2,"day":29,"start":"2026-01-01","count":50}"#;
    let occ = occurrences_between("yearly", p, d(2026, 1, 1), d(2200, 1, 1), &empty());
    assert_eq!(occ.len(), 50);
    assert_eq!(occ[49], d(2075, 2, 28));
    let p = r#"{"month":2,"day":29,"start":"2026-01-01","count":60}"#;
    let occ = occurrences_between("yearly", p, d(2026, 1, 1), d(2200, 1, 1), &empty());
    assert_eq!(occ.len(), 55);
    let p = r#"{"start":"2026-01-01","count":0}"#;
    assert_eq!(occurrences_between("daily", p, d(2026, 1, 1), d(2026, 1, 9), &empty()).len(), 9);
}

#[test]
fn ends_of_the_calendar() {
    let last = Date::from_days(workcheck::calendar::MAX_DAY);
    let first = Date::from_days(workcheck::calendar::MIN_DAY);
    for kind in ["daily", "weekly", "monthly", "quarterly", "yearly"] {
        for policy in ["none", "skip", "before", "after"] {
            let p = format!("{{\"holiday\":\"{}\",\"day\":31,\"month\":12,\"monthOfQuarter\":3}}", policy);
            let occ = occurrences_between(kind, &p, last.plus_days(-3).unwrap(), last, &empty());
            assert!(occ.len() <= 4);
            let occ = occurrences_between(kind, &p, first, first.plus_days(3).unwrap(), &empty());
            assert!(occ.len() <= 4);
        }
    }
    let occ = occurrences_between("yearly", r#"{"month":12,"day":31}"#, last.plus_days(-3).unwrap(), last, &empty());
    assert_eq!(occ, vec![last]);
}

#[test]
fn further_labels() {
    assert_eq!(rule_label("quarterly", r#"{"monthOfQuarter":3,"day":31}"#), "매분기 · 3번째 달 31일");
    assert_eq!(rule_label("quarterly", "{}"), "매분기 · 1번째 달 1일");
    assert_eq!(rule_label("yearly", r#"{"month":12,"day":25}"#), "매년 · 12/25");
    assert_eq!(rule_label("hourly", "{}"), "hourly");
    assert_eq!(rule_label("weekly", r#"{"weekdays":[]}"#), "매주");
    assert_eq!(rule_label("weekly", r#"{"weekdays":[0,1,2,3,4,5,6]}"#), "매주 · 일·월·화·수·목·금·토");
    assert_eq!(rule_label("monthly", r#"{"days":[],"lastDay":true}"#), "매월 · 말일");
    assert_eq!(rule_label("monthly", r#"{"days":[]}"#), "매월");
    assert_eq!(rule_label("monthly", r#"{"mode":"nth","nth":0,"weekday":9}"#), "매월 · 0번째 ?");
    assert_eq!(rule_label("monthly", r#"{"mode":"nth","nth":-2}"#), "매월 · -2번째 월");
    for (nth, name) in [(2, "둘째"), (3, "셋째"), (4, "넷째"), (5, "다섯째"), (6, "6번째")] {
        let p = format!("{{\"mode\":\"nth\",\"nth\":{},\"weekday\":3}}", nth);
        assert_eq!(rule_label("monthly", &p), format!("매월 · {} 수", name));
    }
    assert_eq!(rule_label("weekly", r#"{"holiday":"skip","weekday":5}"#), "매주 · 금");
    assert_eq!(
        rule_summary("once", r#"{"date":"2026-07-25","holiday":"before"}"#),
        "1회 7/25 · 공휴일이면 직전 영업일"
    );
}

#[test]
fn short_words() {
    assert_eq!(short_recur("weekly"), "매주");
    assert_eq!(short_recur("monthly"), "매월");
    assert_eq!(short_recur("quarterly"), "분기");
    assert_eq!(short_recur("yearly"), "연간");
    assert_eq!(short_recur("once"), "1회");
    assert_eq!(short_recur("daily"), "예정");
    assert_eq!(weekday_ko(d(2026, 7, 24)), "금");
    assert_eq!(weekday_ko(d(2026, 7, 26)), "일");
}

fn base(kind: &str, param: &str, from: Date, to: Date) -> Vec<Date> {
    let p = param_value(param);
    base_occurrences(&parse_rule(kind, &p), &parse_cfg(&p), from.days(), to.days())
        .into_iter()
        .map(Date::from_days)
        .collect()
}

#[test]
fn occurrences_before_holidays_come_in_order() {
    let p = r#"{"weekdays":[0,1,5],"start":"2026-08-05","interval":2}"#;
    assert_eq!(
        base("weekly", p, d(2026, 8, 1), d(2026, 8, 31)),
        vec![d(2026, 8, 7), d(2026, 8, 16), d(2026, 8, 17), d(2026, 8, 21), d(2026, 8, 30), d(2026, 8, 31)]
    );
    let p = r#"{"start":"2026-07-30","interval":3,"holiday":"skip"}"#;
    assert_eq!(base("daily", p, d(2026, 8, 1), d(2026, 8, 6)), vec![d(2026, 8, 2), d(2026, 8, 5)]);
    assert_eq!(
        base("monthly", r#"{"mode":"nth","nth":5,"weekday":5}"#, d(2026, 7, 1), d(2026, 10, 31)),
        vec![d(2026, 7, 31), d(2026, 10, 30)]
    );
    assert_eq!(
        base("quarterly", r#"{"monthOfQuarter":2,"day":31}"#, d(2026, 1, 1), d(2026, 12, 31)),
        vec![d(2026, 2, 28), d(2026, 5, 31), d(2026, 8, 31), d(2026, 11, 30)]
    );
    assert_eq!(
        base("yearly", r#"{"month":2,"day":29}"#, d(2027, 1, 1), d(2028, 12, 31)),
        vec![d(2027, 2, 28), d(2028, 2, 29)]
    );
    assert_eq!(base("once", r#"{"date":"2026-08-03"}"#, d(2026, 8, 1), d(2026, 8, 31)), vec![d(2026, 8, 3)]);
    assert!(base("once", r#"{"date":"soon"}"#, d(2026, 8, 1), d(2026, 8, 31)).is_empty());
    assert!(base("hourly", "{}", d(2026, 8, 1), d(2026, 8, 31)).is_empty());
    assert_eq!(
        base("monthly", r#"{"days":[20,31,5],"lastDay":true}"#, d(2026, 2, 6), d(2026, 3, 30)),
        vec![d(2026, 2, 20), d(2026, 2, 28), d(2026, 2, 28), d(2026, 3, 20), d(2026, 3, 5)]
    );
}

#[test]
fn count_keeps_the_first_however_late_the_window() {
    let all = occurrences_between(
        "weekly", r#"{"weekdays":[1,4],"holiday":"before","start":"2026-07-01"}"#,
        d(2026, 6, 1), d(2026, 12, 31), &empty());
    for n in [1usize, 2, 5, 100] {
        let p = format!("{{\"weekdays\":[1,4],\"holiday\":\"before\",\"start\":\"2026-07-01\",\"count\":{}}}", n);
        let late = d(2026, 7, 9);
        let kept: Vec<Date> =
            all.iter().take(n).copied().filter(|x| x.days() >= late.days()).collect();
        assert_eq!(occurrences_between("weekly", &p, late, d(2026, 12, 31), &empty()), kept);
    }
}

#[test]
fn summaries_follow_labels() {
    for (kind, p) in [
        ("daily", "{}"),
        ("daily", r#"{"interval":3,"start":"2026-08-03"}"#),
        ("weekly", r#"{"weekdays":[2,4]}"#),
        ("weekly", r#"{"weekdays":[]}"#),
        ("monthly", r#"{"mode":"nth","nth":-1,"weekday":5}"#),
        ("monthly", r#"{"days":[10,25],"lastDay":true}"#),
        ("quarterly", r#"{"monthOfQuarter":3,"day":31}"#),
        ("yearly", r#"{"month":12,"day":25}"#),
        ("once", r#"{"date":"2026-07-25"}"#),
    ] {
        let plain = rule_summary(kind, p);
        assert_eq!(plain, rule_label(kind, p).replacen(" · ", " ", 1));
        let sep = if p == "{}" { "" } else { "," };
        let with = |more: &str| p.replacen('{', &format!("{{{}{}", more, sep), 1);
        assert_eq!(
            rule_summary(kind, &with(r#""until":"2026-12-31""#)),
            format!("{} · 2026-12-31까지", plain)
        );
        assert_eq!(
            rule_summary(kind, &with(r#""holiday":"before","until":"2026-12-31""#)),
            format!("{} · 공휴일이면 직전 영업일 · 2026-12-31까지", plain)
        );
    }
}
