//! Dates of the proleptic Gregorian calendar.
//!
//! A date is modelled by its day number: January 1 of year 1 is day 1. The
//! calendar ends where `chrono::NaiveDate` ends, on December 31 of year 262142,
//! and begins on January 1 of year -262143.

use vstd::prelude::*;

use chrono::Datelike;

use crate::text;

verus! {

pub const MIN_YEAR: i32 = -262143;

pub const MAX_YEAR: i32 = 262142;

/// Day number of January 1 of `MIN_YEAR`.
pub const MIN_DAY: i32 = -95746129;

/// Day number of December 31 of `MAX_YEAR`.
pub const MAX_DAY: i32 = 95745399;

// ── Model ───────────────────────────────────────────────

pub open spec fn is_leap(y: int) -> bool {
    y % 4 == 0 && (y % 100 != 0 || y % 400 == 0)
}

pub open spec fn leap_days(y: int) -> int {
    if is_leap(y) {
        1
    } else {
        0
    }
}

/// Number of days of month `m` in year `y`.
pub open spec fn days_in_month(y: int, m: int) -> int {
    if m == 2 {
        28 + leap_days(y)
    } else if m == 4 || m == 6 || m == 9 || m == 11 {
        30
    } else {
        31
    }
}

/// Number of days of year `y` before its month `m`.
pub open spec fn days_before_month(y: int, m: int) -> int
    decreases m,
{
    if m <= 1 {
        0
    } else {
        days_before_month(y, m - 1) + days_in_month(y, m - 1)
    }
}

/// Number of the last day before year `y`.
pub open spec fn days_before_year(y: int) -> int {
    365 * (y - 1) + (y - 1) / 4 - (y - 1) / 100 + (y - 1) / 400
}

/// Day number of day `d` of month `m` of year `y`.
pub open spec fn day_number(y: int, m: int, d: int) -> int {
    days_before_year(y) + days_before_month(y, m) + d
}

/// Whether `y`-`m`-`d` names a day of the calendar, in whatever year.
pub open spec fn is_civil(y: int, m: int, d: int) -> bool {
    1 <= m <= 12 && 1 <= d <= days_in_month(y, m)
}

/// Whether `y`-`m`-`d` names a day of the supported years.
pub open spec fn is_ymd(y: int, m: int, d: int) -> bool {
    MIN_YEAR <= y <= MAX_YEAR && is_civil(y, m, d)
}

/// Whether day number `n` lies in the supported years.
pub open spec fn in_calendar(n: int) -> bool {
    MIN_DAY <= n <= MAX_DAY
}

/// Year, month and day of the month of day number `n`.
pub open spec fn civil(n: int) -> (int, int, int) {
    choose|y: int, m: int, d: int| is_civil(y, m, d) && #[trigger] day_number(y, m, d) == n
}

/// Day of the week of day number `n`: 0 for Sunday up to 6 for Saturday.
pub open spec fn weekday(n: int) -> int {
    n % 7
}

/// Number of the Sunday on or before day `n`.
pub open spec fn sunday_of(n: int) -> int {
    n - weekday(n)
}

/// Number of the Monday on or before day `n`.
pub open spec fn monday_of(n: int) -> int {
    n - (n - 1) % 7
}

/// The year in four digits; outside 0 to 9999 with a sign.
pub open spec fn year_text(y: int) -> Seq<char> {
    if 0 <= y <= 9999 {
        text::zero_padded(y as nat, 4)
    } else if y < 0 {
        seq!['-'] + text::zero_padded((-y) as nat, 4)
    } else {
        seq!['+'] + text::zero_padded(y as nat, 4)
    }
}

/// Day `n` written as year, month and day, separated by hyphens.
pub open spec fn date_text(n: int) -> Seq<char> {
    let (y, m, d) = civil(n);
    year_text(y) + seq!['-'] + text::zero_padded(m as nat, 2) + seq!['-'] + text::zero_padded(d as nat, 2)
}

/// What `chrono::NaiveDate::parse_from_str` reads from a text with the format
/// `%Y-%m-%d`: the day number, or nothing where it reports an error.
pub uninterp spec fn parsed_date(text: Seq<char>) -> Option<int>;

// ── Calendar arithmetic ─────────────────────────────────

pub proof fn lemma_year_length(y: int)
    ensures
        days_before_year(y + 1) == days_before_year(y) + 365 + leap_days(y),
        days_before_month(y, 13) == 365 + leap_days(y),
{
    assert(y / 4 == (y - 1) / 4 + if y % 4 == 0 { 1int } else { 0 });
    assert(y / 100 == (y - 1) / 100 + if y % 100 == 0 { 1int } else { 0 });
    assert(y / 400 == (y - 1) / 400 + if y % 400 == 0 { 1int } else { 0 });
    assert(y % 100 == 0 ==> y % 4 == 0);
    assert(y % 400 == 0 ==> y % 100 == 0);
    lemma_year_days(y);
}

proof fn lemma_year_days(y: int)
    ensures
        days_before_month(y, 13) == 365 + leap_days(y),
{
    assert(days_before_month(y, 2) == 31) by {
        reveal_with_fuel(days_before_month, 2);
    }
    assert(days_before_month(y, 4) == 90 + leap_days(y)) by {
        reveal_with_fuel(days_before_month, 3);
    }
    assert(days_before_month(y, 7) == 181 + leap_days(y)) by {
        reveal_with_fuel(days_before_month, 4);
    }
    assert(days_before_month(y, 10) == 273 + leap_days(y)) by {
        reveal_with_fuel(days_before_month, 4);
    }
    assert(days_before_month(y, 13) == 365 + leap_days(y)) by {
        reveal_with_fuel(days_before_month, 4);
    }
}

pub proof fn lemma_years_ascend(y1: int, y2: int)
    requires
        y1 <= y2,
    ensures
        days_before_year(y1) + 365 * (y2 - y1) <= days_before_year(y2),
    decreases y2 - y1,
{
    if y1 < y2 {
        lemma_years_ascend(y1, y2 - 1);
        lemma_year_length(y2 - 1);
    }
}

pub proof fn lemma_months_ascend(y: int, m1: int, m2: int)
    requires
        1 <= m1 <= m2,
    ensures
        days_before_month(y, m1) <= days_before_month(y, m2),
        m1 < m2 ==> days_before_month(y, m1) + days_in_month(y, m1) <= days_before_month(y, m2),
    decreases m2 - m1,
{
    if m1 < m2 {
        lemma_months_ascend(y, m1, m2 - 1);
    }
}

/// Day numbers are ordered as their dates are: by year, then month, then day.
pub proof fn lemma_day_order(y1: int, m1: int, d1: int, y2: int, m2: int, d2: int)
    requires
        is_civil(y1, m1, d1),
        is_civil(y2, m2, d2),
    ensures
        day_number(y1, m1, d1) < day_number(y2, m2, d2) <==> (y1 < y2 || (y1 == y2 && (m1 < m2 || (
        m1 == m2 && d1 < d2)))),
        day_number(y1, m1, d1) == day_number(y2, m2, d2) <==> (y1 == y2 && m1 == m2 && d1 == d2),
{
    lemma_in_year(y1, m1, d1);
    lemma_in_year(y2, m2, d2);
    if y1 < y2 {
        lemma_years_ascend(y1 + 1, y2);
    } else if y2 < y1 {
        lemma_years_ascend(y2 + 1, y1);
    } else if m1 < m2 {
        lemma_months_ascend(y1, m1, m2);
    } else if m2 < m1 {
        lemma_months_ascend(y1, m2, m1);
    }
}

/// A date lies within its year.
pub proof fn lemma_in_year(y: int, m: int, d: int)
    requires
        is_civil(y, m, d),
    ensures
        days_before_year(y) < day_number(y, m, d) <= days_before_year(y + 1),
{
    lemma_year_length(y);
    lemma_months_ascend(y, 1, m);
    lemma_months_ascend(y, m, 13);
}

/// A date is the only one with its day number.
pub proof fn lemma_civil(y: int, m: int, d: int)
    requires
        is_civil(y, m, d),
    ensures
        civil(day_number(y, m, d)) == (y, m, d),
{
    let n = day_number(y, m, d);
    let (y2, m2, d2) = civil(n);
    assert(is_civil(y2, m2, d2) && day_number(y2, m2, d2) == n);
    lemma_day_order(y, m, d, y2, m2, d2);
}

/// The dates of the supported years are those with a supported day number.
pub proof fn lemma_calendar_bounds(y: int, m: int, d: int)
    requires
        is_civil(y, m, d),
    ensures
        is_ymd(y, m, d) <==> in_calendar(day_number(y, m, d)),
{
    lemma_in_year(y, m, d);
    assert(days_before_year(MIN_YEAR as int) == MIN_DAY - 1);
    assert(days_before_year(MAX_YEAR + 1) == MAX_DAY);
    if y < MIN_YEAR {
        lemma_years_ascend(y + 1, MIN_YEAR as int);
    } else {
        lemma_years_ascend(MIN_YEAR as int, y);
    }
    if y > MAX_YEAR {
        lemma_years_ascend(MAX_YEAR + 1, y);
    } else {
        lemma_years_ascend(y + 1, MAX_YEAR + 1);
    }
}

// ── Calls into chrono ───────────────────────────────────

/// `chrono::NaiveDate::from_ymd_opt` finds a date exactly where the calendar
/// has that day in a supported year; `num_days_from_ce` counts its days with
/// January 1 of year 1 as day 1.
#[verifier::external_body]
fn chrono_days(year: i32, month: u32, day: u32) -> (r: Option<i32>)
    ensures
        r is Some <==> is_ymd(year as int, month as int, day as int),
        r matches Some(n) ==> n == day_number(year as int, month as int, day as int),
{
    match chrono::NaiveDate::from_ymd_opt(year, month, day) {
        Some(date) => Some(date.num_days_from_ce()),
        None => None,
    }
}

/// `chrono::NaiveDate::from_num_days_from_ce_opt` finds the date of every
/// supported day number, here taken apart into year, month and day.
#[verifier::external_body]
fn chrono_ymd(days: i32) -> (r: (i32, u32, u32))
    requires
        in_calendar(days as int),
    ensures
        is_ymd(r.0 as int, r.1 as int, r.2 as int),
        day_number(r.0 as int, r.1 as int, r.2 as int) == days,
{
    let date = chrono::NaiveDate::from_num_days_from_ce_opt(days).unwrap();
    (date.year(), date.month(), date.day())
}

/// `chrono::NaiveDate::parse_from_str` with the format `%Y-%m-%d`, the date
/// given by its day number. Nothing is said of which texts it accepts.
#[verifier::external_body]
fn chrono_parse(text: &str) -> (r: Option<i32>)
    ensures
        r is Some <==> parsed_date(text@) is Some,
        r matches Some(n) ==> parsed_date(text@) == Some(n as int) && in_calendar(n as int),
{
    match chrono::NaiveDate::parse_from_str(text, "%Y-%m-%d") {
        Ok(date) => Some(date.num_days_from_ce()),
        Err(_) => None,
    }
}

/// The `Display` output of `chrono::NaiveDate`.
#[verifier::external_body]
fn chrono_text(days: i32) -> (r: String)
    requires
        in_calendar(days as int),
    ensures
        r@ == date_text(days as int),
{
    chrono::NaiveDate::from_num_days_from_ce_opt(days).unwrap().to_string()
}

// ── Dates ───────────────────────────────────────────────

/// A date of the supported years.
#[derive(Debug, Clone, Copy, PartialEq, Eq, Hash)]
pub struct Date {
    days: i32,
}

impl View for Date {
    type V = int;

    closed spec fn view(&self) -> int {
        self.days as int
    }
}

impl Date {
    #[verifier::type_invariant]
    closed spec fn supported(self) -> bool {
        in_calendar(self.days as int)
    }

    /// The date with day number `n`.
    pub fn from_days(n: i32) -> (r: Date)
        requires
            in_calendar(n as int),
        ensures
            r@ == n,
    {
        Date { days: n }
    }

    /// The date `year`-`month`-`day`, if there is one.
    pub fn from_ymd_opt(year: i32, month: u32, day: u32) -> (r: Option<Date>)
        ensures
            r is Some <==> is_ymd(year as int, month as int, day as int),
            r matches Some(d) ==> d@ == day_number(year as int, month as int, day as int)
                && in_calendar(d@),
    {
        match chrono_days(year, month, day) {
            Some(n) => {
                proof {
                    lemma_calendar_bounds(year as int, month as int, day as int);
                }
                Some(Date { days: n })
            },
            None => None,
        }
    }

    /// The date that `text` writes as year, month and day.
    pub fn parse(text: &str) -> (r: Option<Date>)
        ensures
            r is Some <==> parsed_date(text@) is Some,
            r matches Some(d) ==> parsed_date(text@) == Some(d@) && in_calendar(d@),
    {
        match chrono_parse(text) {
            Some(n) => Some(Date { days: n }),
            None => None,
        }
    }

    /// The day number.
    pub fn days(&self) -> (n: i32)
        ensures
            n == self@,
            in_calendar(self@),
    {
        proof {
            use_type_invariant(self);
        }
        self.days
    }

    /// Year, month and day of the month.
    pub fn ymd(&self) -> (r: (i32, u32, u32))
        ensures
            (r.0 as int, r.1 as int, r.2 as int) == civil(self@),
            is_ymd(r.0 as int, r.1 as int, r.2 as int),
            day_number(r.0 as int, r.1 as int, r.2 as int) == self@,
            in_calendar(self@),
    {
        proof {
            use_type_invariant(self);
        }
        let r = chrono_ymd(self.days);
        proof {
            lemma_civil(r.0 as int, r.1 as int, r.2 as int);
        }
        r
    }

    /// Day of the week, 0 for Sunday.
    pub fn weekday(&self) -> (w: u32)
        ensures
            w == weekday(self@),
            w <= 6,
    {
        weekday_of(self.days)
    }

    /// The date `k` days later, or earlier if `k` is negative, unless the
    /// calendar ends before.
    pub fn plus_days(&self, k: i32) -> (r: Option<Date>)
        ensures
            r is Some <==> in_calendar(self@ + k),
            r matches Some(d) ==> d@ == self@ + k,
    {
        proof {
            use_type_invariant(self);
        }
        let n: i64 = self.days as i64 + k as i64;
        if MIN_DAY as i64 <= n && n <= MAX_DAY as i64 {
            Some(Date { days: n as i32 })
        } else {
            None
        }
    }

    /// The date as text.
    pub fn to_text(&self) -> (r: String)
        ensures
            r@ == date_text(self@),
    {
        proof {
            use_type_invariant(self);
        }
        chrono_text(self.days)
    }
}

/// Day of the week of day number `n`, 0 for Sunday.
pub fn weekday_of(n: i32) -> (w: u32)
    ensures
        w == weekday(n as int),
        w <= 6,
{
    let r: i32 = n % 7;
    if r < 0 {
        (r + 7) as u32
    } else {
        r as u32
    }
}

/// The last day of a month, 28 to 31.
pub fn last_day_of_month(year: i32, month: u32) -> (r: u32)
    requires
        MIN_YEAR <= year <= MAX_YEAR,
        1 <= month <= 12,
    ensures
        r == days_in_month(year as int, month as int),
        28 <= r <= 31,
{
    if month == 12 {
        return 31;
    }
    proof {
        lemma_calendar_bounds(year as int, month as int, 1);
        lemma_calendar_bounds(year as int, month as int, days_in_month(year as int, month as int));
    }
    match chrono_days(year, month + 1, 1) {
        Some(first_next) => {
            proof {
                lemma_calendar_bounds(year as int, month + 1, 1);
                assert(day_number(year as int, month + 1, 1) - 1 == day_number(
                    year as int,
                    month as int,
                    days_in_month(year as int, month as int),
                ));
                lemma_civil(
                    year as int,
                    month as int,
                    days_in_month(year as int, month as int),
                );
            }
            let last = chrono_ymd(first_next - 1);
            proof {
                lemma_civil(last.0 as int, last.1 as int, last.2 as int);
            }
            last.2
        },
        None => 31,
    }
}

} // verus!
