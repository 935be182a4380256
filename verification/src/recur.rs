//! Due dates of recurring work.
//!
//! A rule is a recurrence type and a JSON parameter.
//!
//! Members common to all types:
//! - `holiday`: `"none"`, `"skip"`, `"before"` or `"after"`, what becomes of an
//!   occurrence on a weekend or holiday
//! - `start`: first day, and the day from which intervals are counted; an
//!   occurrence that would move before it is given up
//! - `until`: last day
//! - `count`: number of occurrences from `start` on; ignored without `start`
//!
//! Members by type:
//! - `daily`: `interval`, every so many days
//! - `weekly`: `weekdays` (0 for Sunday), `interval`, every so many weeks
//! - `monthly`: `days` and `lastDay`, or with `mode` `"nth"` `nth` (-1 for the
//!   last) and `weekday`
//! - `quarterly`: `monthOfQuarter`, `day`
//! - `yearly`: `month`, `day`
//! - `once`: `date`
//!
//! Older parameters are read too: `weekdaysOnly` as `holiday` `"skip"`,
//! `weekday` as `weekdays`, `day` as `days`. Without `start` every interval
//! counts as 1.

use vstd::prelude::*;

use crate::calendar;
use crate::calendar::Date;
use crate::calendar::MAX_DAY;
use crate::calendar::MAX_YEAR;
use crate::calendar::MIN_DAY;
use crate::calendar::MIN_YEAR;
use crate::days;
use crate::days::DateSet;
use crate::json;
use crate::json::Json;
use crate::json::JsonView;

verus! {

/// How many days an occurrence may move to reach a business day; one that
/// would have to move further is given up.
pub const MOVE_LIMIT: i32 = 31;

/// How many days from `start` on are searched for the occurrences that `count`
/// allows.
pub const COUNT_MAX_SPAN: i32 = 20000;

// ── Rules ───────────────────────────────────────────────

/// What becomes of an occurrence on a weekend or holiday.
#[derive(Debug, Clone, Copy, PartialEq, Eq, Structural)]
pub enum HolidayPolicy {
    /// It stays.
    Keep,
    /// It is dropped.
    Skip,
    /// It moves to the business day before.
    Before,
    /// It moves to the business day after.
    After,
}

/// The members common to all recurrence types.
pub struct RecurCfgView {
    pub holiday: HolidayPolicy,
    pub start: Option<int>,
    pub until: Option<int>,
    pub count: Option<int>,
    pub interval: int,
}

/// The members of a recurrence type.
pub enum RuleView {
    Daily,
    /// The days of the week.
    Weekly(Seq<int>),
    /// The days of the month, and whether the last one is due too.
    MonthlyDays(Seq<int>, bool),
    /// Which one, and the day of the week.
    MonthlyNth(int, int),
    /// The month of the quarter and its day.
    Quarterly(int, int),
    /// The month and its day.
    Yearly(int, int),
    /// The date.
    Once(Option<int>),
    Unknown,
}

/// The members common to all recurrence types.
pub struct RecurCfg {
    pub holiday: HolidayPolicy,
    pub start: Option<Date>,
    pub until: Option<Date>,
    pub count: Option<u64>,
    /// Always 1 without `start`.
    pub interval: i64,
}

/// The members of a recurrence type.
pub enum Rule {
    Daily,
    Weekly(Vec<u32>),
    MonthlyDays(Vec<u32>, bool),
    MonthlyNth(i64, u32),
    Quarterly(u32, u32),
    Yearly(u32, u32),
    Once(Option<Date>),
    Unknown,
}

/// The day number of an optional date.
pub open spec fn opt_day(d: Option<Date>) -> Option<int> {
    match d {
        Some(d) => Some(d@),
        None => None,
    }
}

pub open spec fn u32s(v: Seq<u32>) -> Seq<int> {
    Seq::new(v.len(), |i: int| v[i] as int)
}

impl RecurCfg {
    pub open spec fn view(&self) -> RecurCfgView {
        RecurCfgView {
            holiday: self.holiday,
            start: opt_day(self.start),
            until: opt_day(self.until),
            count: match self.count {
                Some(n) => Some(n as int),
                None => None,
            },
            interval: self.interval as int,
        }
    }
}

impl Rule {
    pub open spec fn view(&self) -> RuleView {
        match self {
            Rule::Daily => RuleView::Daily,
            Rule::Weekly(w) => RuleView::Weekly(u32s(w@)),
            Rule::MonthlyDays(d, last) => RuleView::MonthlyDays(u32s(d@), *last),
            Rule::MonthlyNth(nth, w) => RuleView::MonthlyNth(*nth as int, *w as int),
            Rule::Quarterly(m, d) => RuleView::Quarterly(*m as int, *d as int),
            Rule::Yearly(m, d) => RuleView::Yearly(*m as int, *d as int),
            Rule::Once(d) => RuleView::Once(opt_day(*d)),
            Rule::Unknown => RuleView::Unknown,
        }
    }
}

// ── Reading parameters: model ───────────────────────────

pub open spec fn clamp_int(n: int, lo: int, hi: int) -> int {
    if n < lo {
        lo
    } else if n > hi {
        hi
    } else {
        n
    }
}

/// The low 32 bits of a number.
pub open spec fn low32(n: u64) -> int {
    n as int % 0x1_0000_0000
}

/// The low 32 bits of a number member, or 1 without it.
pub open spec fn low32_or_one(p: JsonView, key: Seq<char>) -> int {
    match p.at(key).as_u64() {
        Some(n) => low32(n),
        None => 1,
    }
}

/// The number member `key`, or 1 without it.
pub open spec fn u64_or_one(p: JsonView, key: Seq<char>) -> u64 {
    match p.at(key).as_u64() {
        Some(n) => n,
        None => 1,
    }
}

/// The date member `key`.
pub open spec fn date_at(p: JsonView, key: Seq<char>) -> Option<int> {
    match p.at(key).as_text() {
        Some(s) => calendar::parsed_date(s),
        None => None,
    }
}

/// The low 32 bits of the numbers among some values.
pub open spec fn low32s(items: Seq<JsonView>) -> Seq<int>
    decreases items.len(),
{
    if items.len() == 0 {
        Seq::empty()
    } else {
        match items.last().as_u64() {
            Some(n) => low32s(items.drop_last()).push(low32(n)),
            None => low32s(items.drop_last()),
        }
    }
}

/// The numbers of the array member `list`; without it the one number member
/// `single`.
pub open spec fn list_or_single(p: JsonView, list: Seq<char>, single: Seq<char>) -> Seq<int> {
    match p.at(list).as_array() {
        Some(items) => low32s(items),
        None => seq![low32_or_one(p, single)],
    }
}

/// The holiday policy of a parameter. An unknown name keeps the occurrences.
pub open spec fn holiday_of(p: JsonView) -> HolidayPolicy {
    match p.at("holiday"@).as_text() {
        Some(s) => if s == "skip"@ {
            HolidayPolicy::Skip
        } else if s == "before"@ {
            HolidayPolicy::Before
        } else if s == "after"@ {
            HolidayPolicy::After
        } else {
            HolidayPolicy::Keep
        },
        None => if p.at("weekdaysOnly"@).as_bool() == Some(true) {
            HolidayPolicy::Skip
        } else {
            HolidayPolicy::Keep
        },
    }
}

/// The common members of a parameter.
pub open spec fn cfg_of(p: JsonView) -> RecurCfgView {
    RecurCfgView {
        holiday: holiday_of(p),
        start: date_at(p, "start"@),
        until: date_at(p, "until"@),
        count: match p.at("count"@).as_u64() {
            Some(n) => if n >= 1 {
                Some(n as int)
            } else {
                None
            },
            None => None,
        },
        interval: match (date_at(p, "start"@), p.at("interval"@).as_i64()) {
            (Some(_), Some(n)) => if n >= 1 {
                n as int
            } else {
                1
            },
            _ => 1,
        },
    }
}

/// The days of the week of a weekly parameter; others than 0 to 6 are ignored.
pub open spec fn weekdays_of(p: JsonView) -> Seq<int> {
    up_to_six(list_or_single(p, "weekdays"@, "weekday"@))
}

/// The numbers of a list up to 6.
pub open spec fn up_to_six(s: Seq<int>) -> Seq<int>
    decreases s.len(),
{
    if s.len() == 0 {
        s
    } else if s.last() <= 6 {
        up_to_six(s.drop_last()).push(s.last())
    } else {
        up_to_six(s.drop_last())
    }
}

/// The days of the month of a monthly parameter, brought into 1 to 31.
pub open spec fn month_days_of(p: JsonView) -> Seq<int> {
    let raw = list_or_single(p, "days"@, "day"@);
    Seq::new(raw.len(), |i: int| clamp_int(raw[i], 1, 31))
}

/// Whether a monthly parameter asks for the last day of the month too.
pub open spec fn last_day_flag(p: JsonView) -> bool {
    p.at("lastDay"@).as_bool() == Some(true)
}

/// Whether a monthly parameter picks a day of the week.
pub open spec fn nth_mode(p: JsonView) -> bool {
    p.at("mode"@).as_text() == Some("nth"@)
}

/// Which one of its weekday a monthly parameter picks.
pub open spec fn nth_of(p: JsonView) -> int {
    match p.at("nth"@).as_i64() {
        Some(n) => n as int,
        None => 1,
    }
}

/// The rule that a recurrence type and its parameter state.
pub open spec fn rule_of(recur_type: Seq<char>, p: JsonView) -> RuleView {
    if recur_type == "daily"@ {
        RuleView::Daily
    } else if recur_type == "weekly"@ {
        RuleView::Weekly(weekdays_of(p))
    } else if recur_type == "monthly"@ {
        if nth_mode(p) {
            RuleView::MonthlyNth(nth_of(p), low32_or_one(p, "weekday"@))
        } else {
            RuleView::MonthlyDays(month_days_of(p), last_day_flag(p))
        }
    } else if recur_type == "quarterly"@ {
        RuleView::Quarterly(low32_or_one(p, "monthOfQuarter"@), low32_or_one(p, "day"@))
    } else if recur_type == "yearly"@ {
        RuleView::Yearly(low32_or_one(p, "month"@), low32_or_one(p, "day"@))
    } else if recur_type == "once"@ {
        RuleView::Once(date_at(p, "date"@))
    } else {
        RuleView::Unknown
    }
}

// ── Reading parameters ──────────────────────────────────

/// The low 32 bits of a number.
fn truncate(n: u64) -> (r: u32)
    ensures
        r == low32(n),
{
    (n % 0x1_0000_0000) as u32
}

/// The date member `key`.
pub fn parse_date(p: &Json, key: &str) -> (r: Option<Date>)
    ensures
        opt_day(r) == date_at(p.view(), key@),
{
    match p.text_at(key) {
        Some(s) => Date::parse(s.as_str()),
        None => None,
    }
}

/// The numbers of the array member `key`, if there is such an array.
pub fn u32_list(p: &Json, key: &str) -> (r: Option<Vec<u32>>)
    ensures
        r is Some <==> p.view().at(key@).as_array() is Some,
        r matches Some(v) ==> u32s(v@) == low32s(p.view().at(key@).as_array().unwrap()),
{
    match p.array_at(key) {
        Some(items) => {
            let ghost all = json::values(items@);
            let mut out: Vec<u32> = Vec::new();
            let mut i: usize = 0;
            assert(u32s(out@) == low32s(all.take(0)));
            while i < items.len()
                invariant
                    all == json::values(items@),
                    i <= items.len(),
                    u32s(out@) == low32s(all.take(i as int)),
                decreases items.len() - i,
            {
                let ghost before = u32s(out@);
                assert(all.take(i + 1).drop_last() == all.take(i as int));
                assert(all.take(i + 1).last() == items@[i as int].view());
                if let Some(n) = items[i].as_u64() {
                    out.push(truncate(n));
                    assert(u32s(out@) == before.push(low32(n)));
                }
                i += 1;
            }
            assert(all.take(i as int) == all);
            Some(out)
        },
        None => None,
    }
}

/// The low 32 bits of a number member, or 1 without it.
fn u32_or_one(p: &Json, key: &str) -> (r: u32)
    ensures
        r == low32_or_one(p.view(), key@),
{
    match p.u64_at(key) {
        Some(n) => truncate(n),
        None => 1,
    }
}

/// The numbers of the array member `list`; without it the one number member
/// `single`.
fn numbers_at(p: &Json, list: &str, single: &str) -> (r: Vec<u32>)
    ensures
        u32s(r@) == list_or_single(p.view(), list@, single@),
{
    match u32_list(p, list) {
        Some(v) => v,
        None => {
            let mut v: Vec<u32> = Vec::new();
            v.push(u32_or_one(p, single));
            assert(u32s(v@) == seq![low32_or_one(p.view(), single@)]);
            v
        },
    }
}

/// The holiday policy. Without `holiday`, `weekdaysOnly` is read as `"skip"`.
pub fn parse_holiday(p: &Json) -> (r: HolidayPolicy)
    ensures
        r == holiday_of(p.view()),
{
    match p.text_at("holiday") {
        Some(s) => if s.as_str().eq("skip") {
            HolidayPolicy::Skip
        } else if s.as_str().eq("before") {
            HolidayPolicy::Before
        } else if s.as_str().eq("after") {
            HolidayPolicy::After
        } else {
            HolidayPolicy::Keep
        },
        None => match p.bool_at("weekdaysOnly") {
            Some(true) => HolidayPolicy::Skip,
            _ => HolidayPolicy::Keep,
        },
    }
}

/// The common members.
pub fn parse_cfg(p: &Json) -> (r: RecurCfg)
    ensures
        r.view() == cfg_of(p.view()),
        r.interval >= 1,
{
    let start = parse_date(p, "start");
    let interval: i64 = match p.i64_at("interval") {
        Some(n) => if start.is_some() && n >= 1 {
            n
        } else {
            1
        },
        None => 1,
    };
    let count: Option<u64> = match p.u64_at("count") {
        Some(n) => if n >= 1 {
            Some(n)
        } else {
            None
        },
        None => None,
    };
    RecurCfg {
        holiday: parse_holiday(p),
        start,
        until: parse_date(p, "until"),
        count,
        interval,
    }
}

/// The days of the week of a weekly parameter.
pub fn weekly_weekdays(p: &Json) -> (r: Vec<u32>)
    ensures
        u32s(r@) == weekdays_of(p.view()),
{
    let raw = numbers_at(p, "weekdays", "weekday");
    let ghost all = u32s(raw@);
    let mut out: Vec<u32> = Vec::new();
    let mut i: usize = 0;
    assert(u32s(out@) == up_to_six(all.take(0)));
    while i < raw.len()
        invariant
            all == u32s(raw@),
            i <= raw.len(),
            u32s(out@) == up_to_six(all.take(i as int)),
        decreases raw.len() - i,
    {
        let ghost before = u32s(out@);
        assert(all.take(i + 1).drop_last() == all.take(i as int));
        if raw[i] <= 6 {
            out.push(raw[i]);
            assert(u32s(out@) == before.push(raw@[i as int] as int));
        }
        i += 1;
    }
    assert(all.take(i as int) == all);
    out
}

/// The days of the month of a monthly parameter, and whether the last one is
/// due too.
pub fn monthly_days(p: &Json) -> (r: (Vec<u32>, bool))
    ensures
        u32s(r.0@) == month_days_of(p.view()),
        r.1 == last_day_flag(p.view()),
{
    let raw = numbers_at(p, "days", "day");
    let mut out: Vec<u32> = Vec::new();
    let mut i: usize = 0;
    while i < raw.len()
        invariant
            i <= raw.len(),
            out.len() == i,
            forall|k: int| 0 <= k < i ==> out@[k] == clamp_int(raw@[k] as int, 1, 31),
        decreases raw.len() - i,
    {
        out.push(clamp_u32(raw[i], 1, 31));
        i += 1;
    }
    assert(u32s(out@) =~= month_days_of(p.view()));
    let last = match p.bool_at("lastDay") {
        Some(b) => b,
        None => false,
    };
    (out, last)
}

fn clamp_u32(n: u32, lo: u32, hi: u32) -> (r: u32)
    ensures
        r == clamp_int(n as int, lo as int, hi as int),
{
    if n < lo {
        lo
    } else if n > hi {
        hi
    } else {
        n
    }
}

/// Whether a monthly parameter picks a day of the week.
pub fn is_nth_mode(p: &Json) -> (b: bool)
    ensures
        b == nth_mode(p.view()),
{
    match p.text_at("mode") {
        Some(s) => s.as_str().eq("nth"),
        None => false,
    }
}

/// Which one of its weekday a monthly parameter picks.
pub fn nth_at(p: &Json) -> (r: i64)
    ensures
        r == nth_of(p.view()),
{
    match p.i64_at("nth") {
        Some(n) => n,
        None => 1,
    }
}

/// The rule that a recurrence type and its parameter state.
pub fn parse_rule(recur_type: &str, p: &Json) -> (r: Rule)
    ensures
        r.view() == rule_of(recur_type@, p.view()),
{
    if recur_type.eq("daily") {
        Rule::Daily
    } else if recur_type.eq("weekly") {
        Rule::Weekly(weekly_weekdays(p))
    } else if recur_type.eq("monthly") {
        if is_nth_mode(p) {
            Rule::MonthlyNth(nth_at(p), u32_or_one(p, "weekday"))
        } else {
            let (days, last) = monthly_days(p);
            Rule::MonthlyDays(days, last)
        }
    } else if recur_type.eq("quarterly") {
        Rule::Quarterly(u32_or_one(p, "monthOfQuarter"), u32_or_one(p, "day"))
    } else if recur_type.eq("yearly") {
        Rule::Yearly(u32_or_one(p, "month"), u32_or_one(p, "day"))
    } else if recur_type.eq("once") {
        Rule::Once(parse_date(p, "date"))
    } else {
        Rule::Unknown
    }
}

// ── Days of a rule: model ───────────────────────────────

/// Day `d` of a month, or its last day if the month is shorter.
pub open spec fn clamped_day(y: int, m: int, d: int) -> int {
    calendar::day_number(y, m, clamp_int(d, 1, calendar::days_in_month(y, m)))
}

/// First day of a month.
pub open spec fn month_first(y: int, m: int) -> int {
    calendar::day_number(y, m, 1)
}

/// Last day of a month.
pub open spec fn month_last(y: int, m: int) -> int {
    calendar::day_number(y, m, calendar::days_in_month(y, m))
}

/// The `nth` day of a month that falls on weekday `wd`; the last one for -1.
pub open spec fn nth_weekday(y: int, m: int, nth: int, wd: int) -> Option<int> {
    let first = month_first(y, m);
    let last = month_last(y, m);
    if nth == -1 {
        Some(last - (calendar::weekday(last) - wd) % 7)
    } else if nth < 1 {
        None
    } else {
        let n = first + (wd - calendar::weekday(first)) % 7 + 7 * (nth - 1);
        if n <= last {
            Some(n)
        } else {
            None
        }
    }
}

/// Whether entry `i` of a list of days of the month stands for day `n` in month
/// `m` of year `y`.
pub open spec fn lists_day(month_days: Seq<int>, i: int, y: int, m: int, n: int) -> bool {
    0 <= i < month_days.len() && n == clamped_day(y, m, month_days[i])
}

/// Whether a list of days of the month names day `n` in month `m` of year `y`.
pub open spec fn lists(month_days: Seq<int>, y: int, m: int, n: int) -> bool {
    exists|i: int| #[trigger] lists_day(month_days, i, y, m, n)
}

/// Whether a rule that goes by months picks day `n` in month `m` of year `y`.
pub open spec fn picks_in_month(rule: RuleView, y: int, m: int, n: int) -> bool {
    match rule {
        RuleView::MonthlyDays(month_days, last) => {
            ||| lists(month_days, y, m, n)
            ||| last && n == clamped_day(y, m, 31)
        },
        RuleView::MonthlyNth(nth, wd) => nth_weekday(y, m, nth, clamp_int(wd, 0, 6)) == Some(n),
        RuleView::Quarterly(moq, d) => {
            &&& (m - 1) % 3 == clamp_int(moq, 1, 3) - 1
            &&& n == clamped_day(y, m, d)
        },
        RuleView::Yearly(month, d) => {
            &&& m == clamp_int(month, 1, 12)
            &&& n == clamped_day(y, m, d)
        },
        _ => false,
    }
}

/// Whether a rule that goes by months picks day `n`.
pub open spec fn picks_by_month(rule: RuleView, n: int) -> bool {
    exists|y: int, m: int| 1 <= m <= 12 && #[trigger] picks_in_month(rule, y, m, n)
}

/// Whether day `n` is an occurrence before holidays are looked at.
pub open spec fn is_base(rule: RuleView, cfg: RecurCfgView, n: int) -> bool {
    &&& calendar::in_calendar(n)
    &&& cfg.start matches Some(s) ==> s <= n
    &&& match rule {
        RuleView::Daily => cfg.start matches Some(s) ==> (n - s) % cfg.interval == 0,
        RuleView::Weekly(weekdays) => {
            &&& weekdays.contains(calendar::weekday(n))
            &&& cfg.start matches Some(s) ==> ((calendar::sunday_of(n) - calendar::sunday_of(s))
                / 7) % cfg.interval == 0
        },
        RuleView::Once(d) => d == Some(n),
        RuleView::Unknown => false,
        _ => picks_by_month(rule, n),
    }
}

/// The days that a rule that goes by months picks in month `m` of year `y`: the
/// days of a list in its order, then the last day of the month.
pub open spec fn month_picks(rule: RuleView, y: int, m: int) -> Seq<int> {
    match rule {
        RuleView::MonthlyDays(month_days, last) => {
            let listed = Seq::new(
                month_days.len(),
                |i: int| clamped_day(y, m, month_days[i]),
            );
            if last {
                listed.push(clamped_day(y, m, 31))
            } else {
                listed
            }
        },
        RuleView::MonthlyNth(nth, wd) => match nth_weekday(y, m, nth, clamp_int(wd, 0, 6)) {
            Some(n) => seq![n],
            None => Seq::empty(),
        },
        RuleView::Quarterly(moq, d) => if (m - 1) % 3 == clamp_int(moq, 1, 3) - 1 {
            seq![clamped_day(y, m, d)]
        } else {
            Seq::empty()
        },
        RuleView::Yearly(month, d) => if m == clamp_int(month, 1, 12) {
            seq![clamped_day(y, m, d)]
        } else {
            Seq::empty()
        },
        _ => Seq::empty(),
    }
}

/// Months in a row: the number of month `m` of year `y`.
pub open spec fn month_number(y: int, m: int) -> int {
    12 * y + m - 1
}

/// The number of the month of day `n`.
pub open spec fn month_of(n: int) -> int {
    month_number(calendar::civil(n).0, calendar::civil(n).1)
}

/// The days from `lo` to `hi` that a rule picks in the months number `a` to
/// number `b`, month by month.
pub open spec fn picks_over(rule: RuleView, a: int, b: int, lo: int, hi: int) -> Seq<int>
    decreases b - a + 1,
{
    if b < a {
        Seq::empty()
    } else {
        picks_over(rule, a, b - 1, lo, hi) + days::within(
            month_picks(rule, b / 12, b % 12 + 1),
            lo,
            hi,
        )
    }
}

/// The first day of a window that is not before `start`.
pub open spec fn first_from(cfg: RecurCfgView, from: int) -> int {
    match cfg.start {
        Some(s) => if s > from {
            s
        } else {
            from
        },
        None => from,
    }
}

/// The days of a window that a rule picks, not before `start`, month by month.
pub open spec fn month_by_month(rule: RuleView, cfg: RecurCfgView, from: int, to: int) -> Seq<int> {
    let lo = first_from(cfg, from);
    if lo > to {
        Seq::empty()
    } else {
        picks_over(rule, month_of(lo), month_of(to), lo, to)
    }
}

/// The one date of a rule, if it lies in a window and not before `start`.
pub open spec fn one_date(date: Option<int>, cfg: RecurCfgView, from: int, to: int) -> Seq<int> {
    match date {
        Some(n) => if first_from(cfg, from) <= n <= to {
            seq![n]
        } else {
            Seq::empty()
        },
        None => Seq::empty(),
    }
}

// ── Days of a rule ──────────────────────────────────────

/// Adds `n` if it lies from `lo` to `hi`.
fn push_if_in(out: &mut Vec<i32>, n: i32, lo: i32, hi: i32)
    ensures
        days::ints(final(out)@) == if lo <= n <= hi {
            days::ints(old(out)@).push(n as int)
        } else {
            days::ints(old(out)@)
        },
        forall|k: int|
            #[trigger] days::ints(final(out)@).contains(k) <==> days::ints(old(out)@).contains(k)
                || (k == n && lo <= k <= hi),
{
    let ghost before = days::ints(out@);
    if lo <= n && n <= hi {
        out.push(n);
        let ghost after = days::ints(out@);
        proof {
            assert(after == before.push(n as int));
            assert forall|k: int| #[trigger] after.contains(k) <==> before.contains(k) || k == n by {
                if before.contains(k) {
                    let j = choose|j: int| 0 <= j < before.len() && before[j] == k;
                    assert(after[j] == k);
                }
                assert(after[before.len() as int] == n);
            }
        }
    }
}

/// Day `day` of a month, or its last day if the month is shorter.
pub fn clamped(year: i32, month: u32, day: u32) -> (r: Date)
    requires
        MIN_YEAR <= year <= MAX_YEAR,
        1 <= month <= 12,
    ensures
        r@ == clamped_day(year as int, month as int, day as int),
{
    let d = clamp_u32(day, 1, calendar::last_day_of_month(year, month));
    Date::from_ymd_opt(year, month, d).unwrap()
}

/// The `nth` day of a month that falls on `weekday`; the last one for -1. None
/// if the month has fewer.
pub fn nth_weekday_of_month(year: i32, month: u32, nth: i64, weekday: u32) -> (r: Option<Date>)
    requires
        MIN_YEAR <= year <= MAX_YEAR,
        1 <= month <= 12,
    ensures
        opt_day(r) == nth_weekday(
            year as int,
            month as int,
            nth as int,
            clamp_int(weekday as int, 0, 6),
        ),
{
    let wd: u32 = clamp_u32(weekday, 0, 6);
    let last_day = calendar::last_day_of_month(year, month);
    let last = Date::from_ymd_opt(year, month, last_day).unwrap();
    let first = Date::from_ymd_opt(year, month, 1).unwrap();
    let last_n: i32 = last.days();
    let first_n: i32 = first.days();
    assert(last_n == first_n + last_day - 1);
    if nth == -1 {
        let back: u32 = (last.weekday() + 7 - wd) % 7;
        assert(back == (calendar::weekday(last@) - wd) % 7) by {
            lemma_mod7(calendar::weekday(last@), wd as int);
        }
        return Some(Date::from_days(last_n - back as i32));
    }
    if nth < 1 {
        return None;
    }
    let fwd: u32 = (wd + 7 - first.weekday()) % 7;
    assert(fwd == (wd - calendar::weekday(first@)) % 7) by {
        lemma_mod7(wd as int, calendar::weekday(first@));
    }
    if nth > 5 {
        return None;
    }
    let n: i32 = first_n + fwd as i32 + 7 * (nth as i32 - 1);
    if n > last_n {
        None
    } else {
        Some(Date::from_days(n))
    }
}

proof fn lemma_mod7(a: int, b: int)
    requires
        0 <= a <= 6,
        0 <= b <= 6,
    ensures
        (a + 7 - b) % 7 == (a - b) % 7,
{
}

/// Adds the days that a rule picks in one month, as far as they lie from `lo`
/// to `hi`.
fn push_month(rule: &Rule, year: i32, month: u32, lo: i32, hi: i32, out: &mut Vec<i32>)
    requires
        MIN_YEAR <= year <= MAX_YEAR,
        1 <= month <= 12,
    ensures
        days::ints(final(out)@) == days::ints(old(out)@) + days::within(
            month_picks(rule.view(), year as int, month as int),
            lo as int,
            hi as int,
        ),
        forall|k: int|
            #[trigger] days::ints(final(out)@).contains(k) <==> days::ints(old(out)@).contains(k)
                || (lo <= k <= hi && picks_in_month(rule.view(), year as int, month as int, k)),
{
    let ghost before = days::ints(out@);
    match rule {
        Rule::MonthlyDays(month_days, last) => {
            let ghost all = u32s(month_days@);
            let ghost listed = Seq::new(
                all.len(),
                |i: int| clamped_day(year as int, month as int, all[i]),
            );
            let mut i: usize = 0;
            assert(days::ints(out@) =~= before + days::within(listed.take(0), lo as int, hi as int));
            while i < month_days.len()
                invariant
                    MIN_YEAR <= year <= MAX_YEAR,
                    1 <= month <= 12,
                    all == u32s(month_days@),
                    listed == Seq::new(
                        all.len(),
                        |i: int| clamped_day(year as int, month as int, all[i]),
                    ),
                    i <= month_days.len(),
                    days::ints(out@) == before + days::within(
                        listed.take(i as int),
                        lo as int,
                        hi as int,
                    ),
                    forall|k: int|
                        #[trigger] days::ints(out@).contains(k) <==> before.contains(k) || (lo <= k
                            <= hi && exists|j: int|
                            j < i && #[trigger] lists_day(all, j, year as int, month as int, k)),
                decreases month_days.len() - i,
            {
                let d = clamped(year, month, month_days[i]);
                assert(lists_day(all, i as int, year as int, month as int, d@));
                push_if_in(out, d.days(), lo, hi);
                proof {
                    assert(listed.take(i + 1).drop_last() == listed.take(i as int));
                    assert(listed.take(i + 1).last() == d@);
                }
                i += 1;
                assert(days::ints(out@) =~= before + days::within(
                    listed.take(i as int),
                    lo as int,
                    hi as int,
                ));
            }
            assert(listed.take(i as int) == listed);
            if *last {
                let d = clamped(year, month, 31);
                push_if_in(out, d.days(), lo, hi);
                assert(listed.push(d@).drop_last() == listed);
            }
            proof {
                assert(rule.view() == RuleView::MonthlyDays(all, *last));
            }
        },
        Rule::MonthlyNth(nth, weekday) => {
            if let Some(d) = nth_weekday_of_month(year, month, *nth, *weekday) {
                push_if_in(out, d.days(), lo, hi);
            }
        },
        Rule::Quarterly(moq, day) => {
            if (month - 1) % 3 == clamp_u32(*moq, 1, 3) - 1 {
                let d = clamped(year, month, *day);
                push_if_in(out, d.days(), lo, hi);
            }
        },
        Rule::Yearly(in_month, day) => {
            if month == clamp_u32(*in_month, 1, 12) {
                let d = clamped(year, month, *day);
                push_if_in(out, d.days(), lo, hi);
            }
        },
        _ => {},
    }
    proof {
        let picks = month_picks(rule.view(), year as int, month as int);
        if !(rule is MonthlyDays) && picks.len() > 0 {
            assert(picks.drop_last() == Seq::<int>::empty());
            reveal_with_fuel(days::within, 2);
        }
        assert(days::ints(out@) =~= before + days::within(picks, lo as int, hi as int));
    }
}

/// Goes on to the next month.
pub fn next_month(y: &mut i32, m: &mut u32)
    requires
        *old(y) < i32::MAX,
        1 <= *old(m) <= 12,
    ensures
        *old(m) == 12 ==> *final(y) == *old(y) + 1 && *final(m) == 1,
        *old(m) < 12 ==> *final(y) == *old(y) && *final(m) == *old(m) + 1,
{
    if *m == 12 {
        *y = *y + 1;
        *m = 1;
    } else {
        *m = *m + 1;
    }
}

/// A rule that goes by months picks days of the month only.
pub proof fn lemma_picks_in_month(rule: RuleView, y: int, m: int, n: int)
    requires
        1 <= m <= 12,
        picks_in_month(rule, y, m, n),
    ensures
        month_first(y, m) <= n <= month_last(y, m),
{
    match rule {
        RuleView::MonthlyDays(month_days, last) => {
            if lists(month_days, y, m, n) {
                let i = choose|i: int| #[trigger] lists_day(month_days, i, y, m, n);
                assert(lists_day(month_days, i, y, m, n));
            }
        },
        _ => {},
    }
}

/// A day lies in one month only.
pub proof fn lemma_one_month(y1: int, m1: int, y2: int, m2: int, n: int)
    requires
        1 <= m1 <= 12,
        1 <= m2 <= 12,
        month_first(y1, m1) <= n <= month_last(y1, m1),
        month_first(y2, m2) <= n <= month_last(y2, m2),
    ensures
        y1 == y2,
        m1 == m2,
{
    let d1 = n - month_first(y1, m1) + 1;
    let d2 = n - month_first(y2, m2) + 1;
    assert(calendar::day_number(y1, m1, d1) == n);
    assert(calendar::day_number(y2, m2, d2) == n);
    calendar::lemma_day_order(y1, m1, d1, y2, m2, d2);
}

/// The month after a month begins on the day after its last day.
proof fn lemma_next_month(y: int, m: int)
    requires
        1 <= m <= 12,
    ensures
        m < 12 ==> month_first(y, m + 1) == month_last(y, m) + 1,
        m == 12 ==> month_first(y + 1, 1) == month_last(y, m) + 1,
        month_first(y, m) <= month_last(y, m),
{
    calendar::lemma_year_length(y);
    assert(calendar::days_before_month(y, m + 1) == calendar::days_before_month(y, m)
        + calendar::days_in_month(y, m));
    assert(calendar::days_before_month(y + 1, 1) == 0);
}

/// A month begins not after a day exactly if it is not after that day's month.
proof fn lemma_month_of(y: int, m: int, y2: int, m2: int, d2: int)
    requires
        1 <= m <= 12,
        calendar::is_civil(y2, m2, d2),
    ensures
        month_of(calendar::day_number(y2, m2, d2)) == month_number(y2, m2),
        month_first(y, m) <= calendar::day_number(y2, m2, d2) <==> month_number(y, m)
            <= month_number(y2, m2),
{
    calendar::lemma_civil(y2, m2, d2);
    calendar::lemma_day_order(y, m, 1, y2, m2, d2);
}

/// A rule that picks at most one day of a month picks one or none.
proof fn lemma_one_pick(rule: RuleView, y: int, m: int, lo: int, hi: int)
    requires
        !(rule is MonthlyDays),
        1 <= m <= 12,
    ensures
        days::within(month_picks(rule, y, m), lo, hi).len() <= 1,
        days::within(month_picks(rule, y, m), lo, hi).len() == 1 ==> month_first(y, m)
            <= days::within(month_picks(rule, y, m), lo, hi)[0],
{
    let picks = month_picks(rule, y, m);
    if picks.len() > 0 {
        assert(picks.len() == 1);
        assert(picks.drop_last() == Seq::<int>::empty());
        reveal_with_fuel(days::within, 2);
        assert(picks_in_month(rule, y, m, picks[0]));
        lemma_picks_in_month(rule, y, m, picks[0]);
    }
}

/// The days from `lo` to `hi` that a rule that goes by months picks.
fn days_by_month(rule: &Rule, lo: i32, hi: i32) -> (out: Vec<i32>)
    requires
        calendar::in_calendar(lo as int),
        calendar::in_calendar(hi as int),
        lo <= hi,
    ensures
        days::ints(out@) == picks_over(
            rule.view(),
            month_of(lo as int),
            month_of(hi as int),
            lo as int,
            hi as int,
        ),
        !(rule is MonthlyDays) ==> days::ascending(days::ints(out@)),
        forall|k: int|
            #[trigger] days::ints(out@).contains(k) <==> lo <= k <= hi && picks_by_month(
                rule.view(),
                k,
            ),
{
    let mut out: Vec<i32> = Vec::new();
    let civil = Date::from_days(lo).ymd();
    let end = Date::from_days(hi).ymd();
    let mut y: i32 = civil.0;
    let mut m: u32 = civil.1;
    let ghost a = month_of(lo as int);
    let ghost b = month_of(hi as int);
    proof {
        lemma_month_of(
            civil.0 as int,
            civil.1 as int,
            end.0 as int,
            end.1 as int,
            end.2 as int,
        );
        assert(days::ints(out@) =~= picks_over(rule.view(), a, a - 1, lo as int, hi as int));
    }
    assert(month_first(y as int, m as int) <= lo);
    assert(calendar::days_before_year(MAX_YEAR + 1) + 1 == MAX_DAY + 1);
    loop
        invariant
            calendar::in_calendar(lo as int),
            calendar::in_calendar(hi as int),
            MIN_YEAR <= y <= MAX_YEAR || (y == MAX_YEAR + 1 && m == 1),
            1 <= m <= 12,
            month_first(MAX_YEAR + 1, 1) == MAX_DAY + 1,
            month_first(y as int, m as int) <= MAX_DAY + 1,
            calendar::is_ymd(end.0 as int, end.1 as int, end.2 as int),
            calendar::day_number(end.0 as int, end.1 as int, end.2 as int) == hi,
            a == month_of(lo as int),
            b == month_of(hi as int),
            a <= month_number(y as int, m as int) <= b + 1,
            days::ints(out@) == picks_over(
                rule.view(),
                a,
                month_number(y as int, m as int) - 1,
                lo as int,
                hi as int,
            ),
            !(rule is MonthlyDays) ==> days::ascending(days::ints(out@)),
            forall|k: int|
                #[trigger] days::ints(out@).contains(k) <==> lo <= k <= hi && picks_by_month(
                    rule.view(),
                    k,
                ) && k < month_first(y as int, m as int),
        decreases MAX_DAY + 1 - month_first(y as int, m as int),
    {
        proof {
            lemma_month_of(y as int, m as int, end.0 as int, end.1 as int, end.2 as int);
        }
        match Date::from_ymd_opt(y, m, 1) {
            None => {
                return out;
            },
            Some(first) => {
                if first.days() > hi {
                    return out;
                }
            },
        }
        let ghost before = days::ints(out@);
        let ghost y0 = y as int;
        let ghost m0 = m as int;
        push_month(rule, y, m, lo, hi, &mut out);
        next_month(&mut y, &mut m);
        proof {
            let k0 = month_number(y0, m0);
            assert(k0 / 12 == y0 && k0 % 12 + 1 == m0);
            assert(month_number(y as int, m as int) == k0 + 1);
            if !(rule is MonthlyDays) {
                lemma_one_pick(rule.view(), y0, m0, lo as int, hi as int);
                let after = days::ints(out@);
                assert forall|i: int, j: int| 0 <= i < j < after.len() implies after[i]
                    < after[j] by {
                    assert(after[i] == before[i]);
                    assert(before.contains(before[i]));
                }
            }
            lemma_next_month(y0, m0);
            let next = month_first(y as int, m as int);
            calendar::lemma_calendar_bounds(y0, m0, calendar::days_in_month(y0, m0));
            assert forall|k: int|
                #[trigger] days::ints(out@).contains(k) <==> lo <= k <= hi && picks_by_month(
                    rule.view(),
                    k,
                ) && k < next by {
                if picks_in_month(rule.view(), y0, m0, k) {
                    lemma_picks_in_month(rule.view(), y0, m0, k);
                }
                if picks_by_month(rule.view(), k) && month_first(y0, m0) <= k < next {
                    let (y1, m1) = choose|y1: int, m1: int|
                        1 <= m1 <= 12 && #[trigger] picks_in_month(rule.view(), y1, m1, k);
                    lemma_picks_in_month(rule.view(), y1, m1, k);
                    lemma_one_month(y0, m0, y1, m1, k);
                }
            }
        }
    }
}

/// Whether a daily or weekly rule picks day `d`.
fn picks_day(rule: &Rule, cfg: &RecurCfg, d: i32) -> (b: bool)
    requires
        calendar::in_calendar(d as int),
        cfg.interval >= 1,
        opt_day(cfg.start) matches Some(s) ==> s <= d,
        rule is Daily || rule is Weekly,
    ensures
        b == is_base(rule.view(), cfg.view(), d as int),
{
    match rule {
        Rule::Daily => match &cfg.start {
            Some(s) => (d as i64 - s.days() as i64) % cfg.interval == 0,
            None => true,
        },
        Rule::Weekly(weekdays) => {
            let w = calendar::weekday_of(d);
            if !has_u32(weekdays, w) {
                return false;
            }
            match &cfg.start {
                Some(s) => {
                    let n: i32 = s.days();
                    let base: i64 = n as i64 - calendar::weekday_of(n) as i64;
                    let week: i64 = d as i64 - w as i64;
                    assert(base == calendar::sunday_of(n as int));
                    assert(week == calendar::sunday_of(d as int));
                    assert(base <= week);
                    ((week - base) / 7) % cfg.interval == 0
                },
                None => true,
            }
        },
        _ => false,
    }
}

fn has_u32(v: &Vec<u32>, n: u32) -> (b: bool)
    ensures
        b == u32s(v@).contains(n as int),
{
    let mut i: usize = 0;
    while i < v.len()
        invariant
            i <= v.len(),
            forall|k: int| 0 <= k < i ==> v@[k] != n,
        decreases v.len() - i,
    {
        if v[i] == n {
            assert(u32s(v@)[i as int] == n);
            return true;
        }
        i += 1;
    }
    false
}

/// The days from `gen_from` to `gen_to` that are occurrences before holidays
/// are looked at: in ascending order, each once, but for the days of the month of
/// a monthly rule, which come month by month in the order of the rule.
pub fn base_occurrences(rule: &Rule, cfg: &RecurCfg, gen_from: i32, gen_to: i32) -> (out: Vec<i32>)
    requires
        calendar::in_calendar(gen_from as int),
        calendar::in_calendar(gen_to as int),
        cfg.interval >= 1,
    ensures
        !(rule is MonthlyDays) ==> days::ints(out@) == days::matching_days(
            gen_from as int,
            gen_to as int,
            |k: int| is_base(rule.view(), cfg.view(), k),
        ),
        !(rule is MonthlyDays) ==> days::ascending(days::ints(out@)),
        rule.view() matches RuleView::Once(date) ==> days::ints(out@) == one_date(
            date,
            cfg.view(),
            gen_from as int,
            gen_to as int,
        ),
        rule is MonthlyDays ==> days::ints(out@) == month_by_month(
            rule.view(),
            cfg.view(),
            gen_from as int,
            gen_to as int,
        ),
        forall|k: int|
            #[trigger] days::ints(out@).contains(k) <==> gen_from <= k <= gen_to && is_base(
                rule.view(),
                cfg.view(),
                k,
            ),
{
    let lo: i32 = match &cfg.start {
        Some(s) => if s.days() > gen_from {
            s.days()
        } else {
            gen_from
        },
        None => gen_from,
    };
    let mut out: Vec<i32> = Vec::new();
    let ghost p = |k: int| is_base(rule.view(), cfg.view(), k);
    if lo > gen_to {
        proof {
            days::lemma_is_matching_days(days::ints(out@), gen_from as int, gen_to as int, p);
            assert(days::ints(out@) =~= Seq::empty());
        }
        return out;
    }
    match rule {
        Rule::Daily | Rule::Weekly(_) => {
            let mut d: i32 = lo;
            while d <= gen_to
                invariant
                    rule is Daily || rule is Weekly,
                    calendar::in_calendar(lo as int),
                    calendar::in_calendar(gen_to as int),
                    lo <= d <= gen_to + 1,
                    cfg.interval >= 1,
                    opt_day(cfg.start) matches Some(s) ==> s <= lo,
                    days::ascending(days::ints(out@)),
                    forall|k: int|
                        #[trigger] days::ints(out@).contains(k) <==> lo <= k < d && is_base(
                            rule.view(),
                            cfg.view(),
                            k,
                        ),
                decreases gen_to + 1 - d,
            {
                let ghost before = days::ints(out@);
                if picks_day(rule, cfg, d) {
                    push_if_in(&mut out, d, d, d);
                    assert forall|i: int| 0 <= i < before.len() implies before[i] < d by {
                        assert(before.contains(before[i]));
                    }
                }
                d += 1;
            }
        },
        Rule::Once(date) => {
            assert(days::ints(out@) =~= Seq::empty());
            if let Some(n) = date {
                push_if_in(&mut out, n.days(), lo, gen_to);
                assert(lo <= n@ <= gen_to ==> days::ints(out@) =~= seq![n@]);
            }
        },
        Rule::Unknown => {},
        _ => {
            out = days_by_month(rule, lo, gen_to);
        },
    }
    proof {
        if !(rule is MonthlyDays) {
            days::lemma_is_matching_days(days::ints(out@), gen_from as int, gen_to as int, p);
        }
    }
    out
}

// ── Holidays: model ─────────────────────────────────────

/// Whether day `n` is neither on a weekend nor a holiday.
pub open spec fn is_business(n: int, holidays: Set<int>) -> bool {
    calendar::weekday(n) != 0 && calendar::weekday(n) != 6 && !holidays.contains(n)
}

/// The first business day among `n`, `n + step`, `n + 2 * step` and so on, at
/// most `left` steps away and within the calendar.
pub open spec fn nearest_business(n: int, step: int, holidays: Set<int>, left: nat) -> Option<int>
    decreases left,
{
    if !calendar::in_calendar(n) {
        None
    } else if is_business(n, holidays) {
        Some(n)
    } else if left == 0 {
        None
    } else {
        nearest_business(n + step, step, holidays, (left - 1) as nat)
    }
}

/// The day on which the occurrence of day `n` takes place, if it does.
pub open spec fn moved(policy: HolidayPolicy, n: int, holidays: Set<int>) -> Option<int> {
    match policy {
        HolidayPolicy::Keep => Some(n),
        HolidayPolicy::Skip => if is_business(n, holidays) {
            Some(n)
        } else {
            None
        },
        HolidayPolicy::Before => nearest_business(n, -1, holidays, MOVE_LIMIT as nat),
        HolidayPolicy::After => nearest_business(n, 1, holidays, MOVE_LIMIT as nat),
    }
}

/// Whether an occurrence of some day from `lo` to `hi` takes place on day `n`,
/// neither before `start` nor after `until`.
pub open spec fn lands(
    rule: RuleView,
    cfg: RecurCfgView,
    holidays: Set<int>,
    lo: int,
    hi: int,
    n: int,
) -> bool {
    &&& cfg.start matches Some(s) ==> s <= n
    &&& cfg.until matches Some(u) ==> n <= u
    &&& exists|b: int| #[trigger] lands_from(rule, cfg, holidays, b, n) && lo <= b <= hi
}

/// Whether day `b` is an occurrence that takes place on day `n`.
pub open spec fn lands_from(
    rule: RuleView,
    cfg: RecurCfgView,
    holidays: Set<int>,
    b: int,
    n: int,
) -> bool {
    is_base(rule, cfg, b) && moved(cfg.holiday, b, holidays) == Some(n)
}

/// Whether an occurrence takes place on day `n`, neither before `start` nor
/// after `until`; `count` aside.
pub open spec fn takes_place(
    rule: RuleView,
    cfg: RecurCfgView,
    holidays: Set<int>,
    n: int,
) -> bool {
    lands(rule, cfg, holidays, MIN_DAY as int, MAX_DAY as int, n)
}

/// The days before day `n` on which the occurrences counted from `start` take
/// place.
pub open spec fn counted_before(
    rule: RuleView,
    cfg: RecurCfgView,
    holidays: Set<int>,
    start: int,
    n: int,
) -> Seq<int> {
    days::matching_days(start, n - 1, |k: int| takes_place(rule, cfg, holidays, k))
}

/// Whether day `n` is among the first `count` days on which occurrences take
/// place, none later than `COUNT_MAX_SPAN` days after `start`.
pub open spec fn within_count(
    rule: RuleView,
    cfg: RecurCfgView,
    holidays: Set<int>,
    start: int,
    count: int,
    n: int,
) -> bool {
    &&& takes_place(rule, cfg, holidays, n)
    &&& n <= start + COUNT_MAX_SPAN
    &&& counted_before(rule, cfg, holidays, start, n).len() < count
}

/// How far outside a window occurrences are looked for: those that move can
/// move into it.
pub open spec fn pad_of(policy: HolidayPolicy) -> int {
    if policy is Before || policy is After {
        MOVE_LIMIT as int
    } else {
        0
    }
}

/// First day that is looked at for the window from `from` on.
pub open spec fn padded_from(policy: HolidayPolicy, from: int) -> int {
    if calendar::in_calendar(from - pad_of(policy)) {
        from - pad_of(policy)
    } else {
        from
    }
}

/// Last day that is looked at for the window up to `to`.
pub open spec fn padded_to(policy: HolidayPolicy, to: int) -> int {
    if calendar::in_calendar(to + pad_of(policy)) {
        to + pad_of(policy)
    } else {
        to
    }
}

/// Whether the rule is due on day `n` of the window from `from` to `to`.
pub open spec fn is_due(
    rule: RuleView,
    cfg: RecurCfgView,
    holidays: Set<int>,
    from: int,
    to: int,
    n: int,
) -> bool {
    &&& lands(
        rule,
        cfg,
        holidays,
        padded_from(cfg.holiday, from),
        padded_to(cfg.holiday, to),
        n,
    )
    &&& (cfg.count is Some && cfg.start is Some) ==> within_count(
        rule,
        cfg,
        holidays,
        cfg.start.unwrap(),
        cfg.count.unwrap(),
        n,
    )
}

/// The due days of a rule from `from` to `to`, in ascending order.
pub open spec fn due_days(
    rule: RuleView,
    cfg: RecurCfgView,
    holidays: Set<int>,
    from: int,
    to: int,
) -> Seq<int> {
    days::matching_days(from, to, |n: int| is_due(rule, cfg, holidays, from, to, n))
}

/// The due days of a recurrence type with a parameter.
pub open spec fn occurrence_days(
    recur_type: Seq<char>,
    p: JsonView,
    holidays: Set<int>,
    from: int,
    to: int,
) -> Seq<int> {
    due_days(rule_of(recur_type, p), cfg_of(p), holidays, from, to)
}

// ── Holidays ────────────────────────────────────────────

/// Whether day `n` is neither on a weekend nor a holiday.
pub fn is_business_day(n: i32, holidays: &DateSet) -> (b: bool)
    ensures
        b == is_business(n as int, holidays@),
{
    let w = calendar::weekday_of(n);
    w != 0 && w != 6 && !holidays.has(n)
}

/// The nearest business day in steps of `step` days, at most `MOVE_LIMIT` of
/// them.
pub fn shift_to_business(n: i32, step: i32, holidays: &DateSet) -> (r: Option<i32>)
    requires
        step == 1 || step == -1,
        calendar::in_calendar(n as int),
    ensures
        r is Some <==> nearest_business(n as int, step as int, holidays@, MOVE_LIMIT as nat) is Some,
        r matches Some(m) ==> nearest_business(n as int, step as int, holidays@, MOVE_LIMIT as nat)
            == Some(m as int),
{
    let mut cur: i32 = n;
    let mut left: i32 = MOVE_LIMIT;
    loop
        invariant
            step == 1 || step == -1,
            0 <= left <= MOVE_LIMIT,
            MIN_DAY - 1 <= cur <= MAX_DAY + 1,
            nearest_business(n as int, step as int, holidays@, MOVE_LIMIT as nat)
                == nearest_business(cur as int, step as int, holidays@, left as nat),
        decreases left,
    {
        if cur < MIN_DAY || cur > MAX_DAY {
            return None;
        }
        if is_business_day(cur, holidays) {
            return Some(cur);
        }
        if left == 0 {
            return None;
        }
        cur = cur + step;
        left -= 1;
    }
}

/// The day on which the occurrence of day `n` takes place, if it does.
fn move_day(policy: HolidayPolicy, n: i32, holidays: &DateSet) -> (r: Option<i32>)
    requires
        calendar::in_calendar(n as int),
    ensures
        r is Some <==> moved(policy, n as int, holidays@) is Some,
        r matches Some(m) ==> moved(policy, n as int, holidays@) == Some(m as int),
{
    match policy {
        HolidayPolicy::Keep => Some(n),
        HolidayPolicy::Skip => if is_business_day(n, holidays) {
            Some(n)
        } else {
            None
        },
        HolidayPolicy::Before => shift_to_business(n, -1, holidays),
        HolidayPolicy::After => shift_to_business(n, 1, holidays),
    }
}

/// The days on which the occurrences of some days take place, in the order of
/// those days.
pub open spec fn moved_days(dates: Seq<int>, policy: HolidayPolicy, holidays: Set<int>) -> Seq<int>
    decreases dates.len(),
{
    if dates.len() == 0 {
        Seq::empty()
    } else {
        match moved(policy, dates.last(), holidays) {
            Some(m) => moved_days(dates.drop_last(), policy, holidays).push(m),
            None => moved_days(dates.drop_last(), policy, holidays),
        }
    }
}

/// Applies the holiday policy to a list of occurrences.
pub fn apply_holiday_policy(dates: &Vec<i32>, policy: HolidayPolicy, holidays: &DateSet) -> (out:
    Vec<i32>)
    requires
        forall|i: int| 0 <= i < dates.len() ==> calendar::in_calendar(#[trigger] dates@[i] as int),
    ensures
        days::ints(out@) == moved_days(days::ints(dates@), policy, holidays@),
{
    let ghost all = days::ints(dates@);
    let mut out: Vec<i32> = Vec::new();
    let mut i: usize = 0;
    assert(days::ints(out@) == moved_days(all.take(0), policy, holidays@));
    while i < dates.len()
        invariant
            forall|i: int|
                0 <= i < dates.len() ==> calendar::in_calendar(#[trigger] dates@[i] as int),
            all == days::ints(dates@),
            i <= dates.len(),
            days::ints(out@) == moved_days(all.take(i as int), policy, holidays@),
        decreases dates.len() - i,
    {
        let ghost before = days::ints(out@);
        assert(all.take(i + 1).drop_last() == all.take(i as int));
        if let Some(m) = move_day(policy, dates[i], holidays) {
            out.push(m);
            assert(days::ints(out@) == before.push(m as int));
        }
        i += 1;
    }
    assert(all.take(i as int) == all);
    out
}

/// A day is among the moved days exactly if some day moves there.
proof fn lemma_moved_days(dates: Seq<int>, policy: HolidayPolicy, holidays: Set<int>, m: int)
    ensures
        moved_days(dates, policy, holidays).contains(m) <==> exists|b: int| #[trigger]
            dates.contains(b) && moved(policy, b, holidays) == Some(m),
    decreases dates.len(),
{
    let all = moved_days(dates, policy, holidays);
    if dates.len() > 0 {
        let front = dates.drop_last();
        let before = moved_days(front, policy, holidays);
        lemma_moved_days(front, policy, holidays, m);
        if all.contains(m) {
            let i = choose|i: int| 0 <= i < all.len() && all[i] == m;
            if i < before.len() {
                assert(before[i] == m);
                let b = choose|b: int| #[trigger]
                    front.contains(b) && moved(policy, b, holidays) == Some(m);
                let j = choose|j: int| 0 <= j < front.len() && front[j] == b;
                assert(dates[j] == b);
                assert(dates.contains(b));
            } else {
                assert(dates.contains(dates.last()));
            }
        }
        if exists|b: int| #[trigger]
            dates.contains(b) && moved(policy, b, holidays) == Some(m) {
            let b = choose|b: int| #[trigger]
                dates.contains(b) && moved(policy, b, holidays) == Some(m);
            let j = choose|j: int| 0 <= j < dates.len() && dates[j] == b;
            if j < front.len() {
                assert(front[j] == b);
                assert(front.contains(b));
                assert(before.contains(m));
                let i = choose|i: int| 0 <= i < before.len() && before[i] == m;
                assert(all[i] == m);
            } else {
                assert(all[before.len() as int] == m);
            }
        }
    }
}

// ── Due dates ───────────────────────────────────────────

/// The nearest business day is one, lies in the direction of the steps, and no
/// business day lies before it.
pub proof fn lemma_nearest_business(n: int, step: int, holidays: Set<int>, left: nat)
    requires
        step == 1 || step == -1,
    ensures
        nearest_business(n, step, holidays, left) matches Some(m) ==> {
            &&& calendar::in_calendar(m)
            &&& is_business(m, holidays)
            &&& 0 <= (m - n) * step <= left
            &&& forall|k: int| 0 <= (k - n) * step < (m - n) * step ==> !#[trigger] is_business(
                k,
                holidays,
            )
        },
    decreases left,
{
    if calendar::in_calendar(n) && !is_business(n, holidays) && left > 0 {
        lemma_nearest_business(n + step, step, holidays, (left - 1) as nat);
        if let Some(m) = nearest_business(n + step, step, holidays, (left - 1) as nat) {
            if step == 1 {
                assert forall|k: int| n <= k < m implies !#[trigger] is_business(k, holidays) by {
                    if k > n {
                        assert(0 <= (k - (n + step)) * step < (m - (n + step)) * step);
                    }
                }
            } else {
                assert forall|k: int| m < k <= n implies !#[trigger] is_business(k, holidays) by {
                    if k < n {
                        assert(0 <= (k - (n + step)) * step < (m - (n + step)) * step);
                    }
                }
            }
        }
    }
}

/// An occurrence moves by at most the pad of its policy, and only in its
/// direction.
pub proof fn lemma_moved(policy: HolidayPolicy, b: int, holidays: Set<int>)
    requires
        calendar::in_calendar(b),
    ensures
        moved(policy, b, holidays) matches Some(n) ==> {
            &&& calendar::in_calendar(n)
            &&& b - pad_of(policy) <= n <= b + pad_of(policy)
            &&& policy is Before ==> n <= b
            &&& policy is After ==> b <= n
            &&& !(policy is Keep) ==> is_business(n, holidays)
        },
{
    lemma_nearest_business(b, 1, holidays, MOVE_LIMIT as nat);
    lemma_nearest_business(b, -1, holidays, MOVE_LIMIT as nat);
}

/// The days on which the occurrences of the days from `lo` to `hi` take place,
/// `count` aside.
fn landing_days(rule: &Rule, cfg: &RecurCfg, lo: i32, hi: i32, holidays: &DateSet) -> (out: Vec<
    i32,
>)
    requires
        calendar::in_calendar(lo as int),
        calendar::in_calendar(hi as int),
        cfg.interval >= 1,
    ensures
        days::ascending(days::ints(out@)),
        forall|k: int|
            #[trigger] days::ints(out@).contains(k) <==> lands(
                rule.view(),
                cfg.view(),
                holidays@,
                lo as int,
                hi as int,
                k,
            ),
{
    let base = base_occurrences(rule, cfg, lo, hi);
    assert forall|i: int| 0 <= i < base.len() implies calendar::in_calendar(
        #[trigger] base@[i] as int,
    ) by {
        assert(days::ints(base@)[i] == base@[i]);
        assert(days::ints(base@).contains(base@[i] as int));
    }
    let moved_list = apply_holiday_policy(&base, cfg.holiday, holidays);
    let sorted = days::sorted_days(&moved_list);
    let first: i32 = match &cfg.start {
        Some(s) => s.days(),
        None => MIN_DAY,
    };
    let last: i32 = match &cfg.until {
        Some(u) => u.days(),
        None => MAX_DAY,
    };
    let out = days::days_within(&sorted, first, last);
    proof {
        let all = days::ints(base@);
        assert forall|k: int| #[trigger]
            days::ints(out@).contains(k) <==> lands(
                rule.view(),
                cfg.view(),
                holidays@,
                lo as int,
                hi as int,
                k,
            ) by {
            lemma_moved_days(all, cfg.holiday, holidays@, k);
            assert(days::ints(sorted@).contains(k) <==> days::ints(moved_list@).contains(k));
            if exists|b: int| #[trigger]
                all.contains(b) && moved(cfg.holiday, b, holidays@) == Some(k) {
                let b = choose|b: int| #[trigger]
                    all.contains(b) && moved(cfg.holiday, b, holidays@) == Some(k);
                assert(lands_from(rule.view(), cfg.view(), holidays@, b, k));
                lemma_moved(cfg.holiday, b, holidays@);
            }
            if exists|b: int| #[trigger]
                lands_from(rule.view(), cfg.view(), holidays@, b, k) && lo <= b <= hi {
                let b = choose|b: int| #[trigger]
                    lands_from(rule.view(), cfg.view(), holidays@, b, k) && lo <= b <= hi;
                assert(all.contains(b));
                lemma_moved(cfg.holiday, b, holidays@);
            }
        }
    }
    out
}

/// Of an occurrence on day `n` it is enough to look at the days around it.
pub proof fn lemma_lands_near(
    rule: RuleView,
    cfg: RecurCfgView,
    holidays: Set<int>,
    lo: int,
    hi: int,
    n: int,
)
    requires
        lo <= n - pad_of(cfg.holiday) || lo <= MIN_DAY || (cfg.start matches Some(s) && lo <= s),
        n + pad_of(cfg.holiday) <= hi || MAX_DAY <= hi,
    ensures
        lands(rule, cfg, holidays, lo, hi, n) <==> takes_place(rule, cfg, holidays, n),
        takes_place(rule, cfg, holidays, n) ==> calendar::in_calendar(n) && (
        cfg.start matches Some(s) ==> s <= n),
{
    if exists|b: int| #[trigger] lands_from(rule, cfg, holidays, b, n) {
        assert forall|b: int| #[trigger] lands_from(rule, cfg, holidays, b, n) implies lo <= b <= hi
            && MIN_DAY <= b <= MAX_DAY && calendar::in_calendar(n) by {
            lemma_moved(cfg.holiday, b, holidays);
        }
    }
}

/// The first `n` days on which occurrences take place, counted from `start`.
///
/// The search window grows until it holds enough of them or has reached
/// `COUNT_MAX_SPAN` days.
fn count_allowed_dates(rule: &Rule, cfg: &RecurCfg, start: i32, n: u64, holidays: &DateSet) -> (
out: Vec<i32>)
    requires
        calendar::in_calendar(start as int),
        opt_day(cfg.start) == Some(start as int),
        cfg.interval >= 1,
    ensures
        days::ascending(days::ints(out@)),
        forall|k: int|
            #[trigger] days::ints(out@).contains(k) <==> within_count(
                rule.view(),
                cfg.view(),
                holidays@,
                start as int,
                n as int,
                k,
            ),
{
    let ghost p = |k: int| takes_place(rule.view(), cfg.view(), holidays@, k);
    let mut span: i32 = 366;
    loop
        invariant
            calendar::in_calendar(start as int),
            opt_day(cfg.start) == Some(start as int),
            cfg.interval >= 1,
            p == (|k: int| takes_place(rule.view(), cfg.view(), holidays@, k)),
            366 <= span <= 20000,
        decreases COUNT_MAX_SPAN - span,
    {
        let win_to: i32 = start + span;
        let gen_to: i32 = if win_to + MOVE_LIMIT <= MAX_DAY {
            win_to + MOVE_LIMIT
        } else {
            MAX_DAY
        };
        let all = landing_days(rule, cfg, start, gen_to, holidays);
        let mut v = days::days_within(&all, start, win_to);
        let ghost full = days::ints(v@);
        proof {
            assert forall|k: int| #[trigger] full.contains(k) <==> start <= k <= win_to && p(k) by {
                if k <= win_to {
                    lemma_lands_near(
                        rule.view(),
                        cfg.view(),
                        holidays@,
                        start as int,
                        gen_to as int,
                        k,
                    );
                }
            }
            days::lemma_is_matching_days(full, start as int, win_to as int, p);
        }
        if v.len() as u64 >= n || span >= COUNT_MAX_SPAN {
            if v.len() as u64 > n {
                v.truncate(n as usize);
                assert(days::ints(v@) == full.take(n as int));
            }
            proof {
                lemma_first_of_count(
                    rule.view(),
                    cfg.view(),
                    holidays@,
                    start as int,
                    win_to as int,
                    n as int,
                    days::ints(v@),
                );
            }
            return v;
        }
        span = if span * 4 <= COUNT_MAX_SPAN {
            span * 4
        } else {
            COUNT_MAX_SPAN
        };
    }
}

/// The first `n` of a window that holds `n`, or reaches as far as is searched,
/// are the days within the count.
proof fn lemma_first_of_count(
    rule: RuleView,
    cfg: RecurCfgView,
    holidays: Set<int>,
    start: int,
    win_to: int,
    n: int,
    v: Seq<int>,
)
    requires
        cfg.start == Some(start),
        0 <= n,
        start <= win_to <= start + COUNT_MAX_SPAN,
        ({
            let full = days::matching_days(
                start,
                win_to,
                |k: int| takes_place(rule, cfg, holidays, k),
            );
            &&& full.len() >= n || win_to == start + COUNT_MAX_SPAN
            &&& v == if full.len() > n {
                full.take(n)
            } else {
                full
            }
        }),
    ensures
        days::ascending(v),
        forall|k: int|
            #[trigger] v.contains(k) <==> within_count(rule, cfg, holidays, start, n, k),
{
    let p = |k: int| takes_place(rule, cfg, holidays, k);
    let full = days::matching_days(start, win_to, p);
    days::lemma_matching_days(start, win_to, p);
    assert forall|k: int| #[trigger] v.contains(k) <==> within_count(
        rule,
        cfg,
        holidays,
        start,
        n,
        k,
    ) by {
        if v.contains(k) {
            let i = choose|i: int| 0 <= i < v.len() && v[i] == k;
            assert(full[i] == k);
            days::lemma_matching_rank(start, win_to, p, i);
            assert(p(k));
        }
        if within_count(rule, cfg, holidays, start, n, k) {
            lemma_lands_near(rule, cfg, holidays, MIN_DAY as int, MAX_DAY as int, k);
            assert(p(k));
            if k <= win_to {
                assert(full.contains(k));
                let i = choose|i: int| 0 <= i < full.len() && full[i] == k;
                days::lemma_matching_rank(start, win_to, p, i);
                assert(v[i] == k);
            } else {
                days::lemma_matching_split(start, win_to, k - 1, p);
            }
        }
    }
}

/// The due dates of a rule from `from` to `to`, in ascending order.
pub fn due_dates(rule: &Rule, cfg: &RecurCfg, from: Date, to: Date, holidays: &DateSet) -> (out:
    Vec<Date>)
    requires
        cfg.interval >= 1,
    ensures
        days::numbers(out@) == due_days(rule.view(), cfg.view(), holidays@, from@, to@),
{
    let from_n: i32 = from.days();
    let to_n: i32 = to.days();
    let mut out: Vec<Date> = Vec::new();
    if from_n > to_n {
        assert(days::numbers(out@) == due_days(rule.view(), cfg.view(), holidays@, from@, to@));
        return out;
    }
    let pad: i32 = match cfg.holiday {
        HolidayPolicy::Before | HolidayPolicy::After => MOVE_LIMIT,
        _ => 0,
    };
    let gen_from: i32 = match from.plus_days(-pad) {
        Some(d) => d.days(),
        None => from_n,
    };
    let gen_to: i32 = match to.plus_days(pad) {
        Some(d) => d.days(),
        None => to_n,
    };
    let landed = landing_days(rule, cfg, gen_from, gen_to, holidays);
    let mut v = days::days_within(&landed, from_n, to_n);
    if let (Some(n), Some(s)) = (&cfg.count, &cfg.start) {
        let allowed = count_allowed_dates(rule, cfg, s.days(), *n, holidays);
        v = common_days(&v, &allowed);
    }
    proof {
        days::lemma_is_matching_days(
            days::ints(v@),
            from@,
            to@,
            |n: int| is_due(rule.view(), cfg.view(), holidays@, from@, to@, n),
        );
    }
    let mut i: usize = 0;
    while i < v.len()
        invariant
            from@ == from_n,
            to@ == to_n,
            calendar::in_calendar(from@),
            calendar::in_calendar(to@),
            i <= v.len(),
            out.len() == i,
            forall|k: int| 0 <= k < i ==> (#[trigger] out@[k])@ == v@[k],
            forall|k: int|
                #[trigger] days::ints(v@).contains(k) ==> from_n <= k <= to_n,
        decreases v.len() - i,
    {
        assert(days::ints(v@)[i as int] == v@[i as int]);
        assert(days::ints(v@).contains(v@[i as int] as int));
        out.push(Date::from_days(v[i]));
        i += 1;
    }
    assert(days::numbers(out@) =~= days::ints(v@));
    out
}

/// The days of an ascending list that another list names too.
fn common_days(v: &Vec<i32>, other: &Vec<i32>) -> (out: Vec<i32>)
    requires
        days::ascending(days::ints(v@)),
    ensures
        days::ascending(days::ints(out@)),
        forall|k: int|
            #[trigger] days::ints(out@).contains(k) <==> days::ints(v@).contains(k) && days::ints(
                other@,
            ).contains(k),
{
    let mut kept: Vec<i32> = Vec::new();
    let ghost all = days::ints(v@);
    let mut i: usize = 0;
    while i < v.len()
        invariant
            all == days::ints(v@),
            i <= v.len(),
            forall|k: int|
                #[trigger] days::ints(kept@).contains(k) <==> all.take(i as int).contains(k)
                    && days::ints(other@).contains(k),
        decreases v.len() - i,
    {
        let ghost a = all.take(i as int);
        let ghost b = all.take(i + 1);
        proof {
            assert(b == a.push(v@[i as int] as int));
            assert forall|k: int| b.contains(k) <==> a.contains(k) || k == v@[i as int] by {
                if a.contains(k) {
                    let j = choose|j: int| 0 <= j < a.len() && a[j] == k;
                    assert(b[j] == k);
                }
                assert(b[i as int] == v@[i as int]);
            }
        }
        if days::has_day(other, v[i]) {
            push_if_in(&mut kept, v[i], v[i], v[i]);
        }
        i += 1;
    }
    assert(all.take(i as int) == all);
    days::sorted_days(&kept)
}

/// The due dates from `from` to `to` of a recurrence type with a parameter, in
/// ascending order, each once.
pub fn occurrences_between(
    recur_type: &str,
    recur_param: &str,
    from: Date,
    to: Date,
    holidays: &DateSet,
) -> (out: Vec<Date>)
    ensures
        days::numbers(out@) == occurrence_days(
            recur_type@,
            json::param_of(recur_param@),
            holidays@,
            from@,
            to@,
        ),
{
    let p = json::param_value(recur_param);
    let cfg = parse_cfg(&p);
    let rule = parse_rule(recur_type, &p);
    due_dates(&rule, &cfg, from, to, holidays)
}

} // verus!
