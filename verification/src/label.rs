//! Wording of recurrence rules.

use vstd::prelude::*;

use crate::calendar;
use crate::calendar::Date;
use crate::json;
use crate::json::Json;
use crate::json::JsonView;
use crate::recur;
use crate::recur::HolidayPolicy;
use crate::recur::RecurCfg;
use crate::recur::RecurCfgView;
use crate::text;

verus! {

// ── Model ───────────────────────────────────────────────

/// The name of a day of the week, 0 for Sunday.
pub open spec fn weekday_name(w: int) -> Seq<char> {
    if w == 0 {
        "일"@
    } else if w == 1 {
        "월"@
    } else if w == 2 {
        "화"@
    } else if w == 3 {
        "수"@
    } else if w == 4 {
        "목"@
    } else if w == 5 {
        "금"@
    } else if w == 6 {
        "토"@
    } else {
        "?"@
    }
}

/// The name of a position in the month, -1 for the last.
pub open spec fn nth_name(n: int) -> Seq<char> {
    if n == -1 {
        "마지막"@
    } else if n == 1 {
        "첫째"@
    } else if n == 2 {
        "둘째"@
    } else if n == 3 {
        "셋째"@
    } else if n == 4 {
        "넷째"@
    } else if n == 5 {
        "다섯째"@
    } else {
        text::signed_decimal(n) + "번째"@
    }
}

/// The names of some days of the week.
pub open spec fn weekday_names(weekdays: Seq<int>) -> Seq<Seq<char>> {
    Seq::new(weekdays.len(), |i: int| weekday_name(weekdays[i]))
}

/// Some numbers in decimal notation.
pub open spec fn decimals(numbers: Seq<int>) -> Seq<Seq<char>> {
    Seq::new(numbers.len(), |i: int| text::decimal(numbers[i] as nat))
}

/// A number of things that come round every `interval` of them, or every one.
pub open spec fn every(interval: int, unit: Seq<char>, each: Seq<char>) -> Seq<char> {
    if interval > 1 {
        text::signed_decimal(interval) + unit
    } else {
        each
    }
}

/// The parts of the wording of the days of the month.
pub open spec fn month_days_parts(month_days: Seq<int>, last: bool) -> Seq<Seq<char>> {
    let listed = if month_days.len() > 0 {
        seq![text::joined(decimals(month_days), ", "@) + "일"@]
    } else {
        Seq::empty()
    };
    if last {
        listed.push("말일"@)
    } else {
        listed
    }
}

/// Some parts with `sep` between them, if there are any.
pub open spec fn joined_if_any(parts: Seq<Seq<char>>, sep: Seq<char>) -> Option<Seq<char>> {
    if parts.len() == 0 {
        None
    } else {
        Some(text::joined(parts, sep))
    }
}

/// Day `n` as month and day.
pub open spec fn month_and_day(n: int) -> Seq<char> {
    text::decimal(calendar::civil(n).1 as nat) + "/"@ + text::decimal(calendar::civil(n).2 as nat)
}

/// How often a rule comes round.
pub open spec fn head_of(recur_type: Seq<char>, cfg: RecurCfgView) -> Seq<char> {
    if recur_type == "daily"@ {
        every(cfg.interval, "일마다"@, "매일"@)
    } else if recur_type == "weekly"@ {
        every(cfg.interval, "주마다"@, "매주"@)
    } else if recur_type == "monthly"@ {
        "매월"@
    } else if recur_type == "quarterly"@ {
        "매분기"@
    } else if recur_type == "yearly"@ {
        "매년"@
    } else if recur_type == "once"@ {
        "1회"@
    } else {
        recur_type
    }
}

/// The day of the week that a monthly parameter picks.
pub open spec fn nth_weekday_text(p: JsonView) -> Seq<char> {
    nth_name(recur::nth_of(p)) + " "@ + weekday_name(recur::u64_or_one(p, "weekday"@) as int)
}

/// The day that a quarterly parameter picks.
pub open spec fn quarter_day_text(p: JsonView) -> Seq<char> {
    text::decimal(recur::u64_or_one(p, "monthOfQuarter"@) as nat) + "번째 달 "@ + text::decimal(
        recur::u64_or_one(p, "day"@) as nat,
    ) + "일"@
}

/// The day that a yearly parameter picks.
pub open spec fn year_day_text(p: JsonView) -> Seq<char> {
    text::decimal(recur::u64_or_one(p, "month"@) as nat) + "/"@ + text::decimal(
        recur::u64_or_one(p, "day"@) as nat,
    )
}

/// On which days a rule is due.
pub open spec fn detail_of(recur_type: Seq<char>, p: JsonView) -> Option<Seq<char>> {
    if recur_type == "daily"@ {
        None
    } else if recur_type == "weekly"@ {
        joined_if_any(weekday_names(recur::weekdays_of(p)), "·"@)
    } else if recur_type == "monthly"@ {
        if recur::nth_mode(p) {
            Some(nth_weekday_text(p))
        } else {
            joined_if_any(
                month_days_parts(recur::month_days_of(p), recur::last_day_flag(p)),
                ", "@,
            )
        }
    } else if recur_type == "quarterly"@ {
        Some(quarter_day_text(p))
    } else if recur_type == "yearly"@ {
        Some(year_day_text(p))
    } else if recur_type == "once"@ {
        match recur::date_at(p, "date"@) {
            Some(n) => Some(month_and_day(n)),
            None => None,
        }
    } else {
        None
    }
}

/// The label of a rule.
pub open spec fn label_with(recur_type: Seq<char>, p: JsonView, cfg: RecurCfgView) -> Seq<char> {
    let base = match detail_of(recur_type, p) {
        Some(d) => head_of(recur_type, cfg) + " · "@ + d,
        None => head_of(recur_type, cfg),
    };
    if recur_type == "daily"@ && cfg.holiday is Skip {
        base + " · 평일만"@
    } else {
        base
    }
}

/// The label of a recurrence type with a parameter.
pub open spec fn label_text(recur_type: Seq<char>, p: JsonView) -> Seq<char> {
    label_with(recur_type, p, recur::cfg_of(p))
}

/// The wording of a holiday policy, if it changes anything.
pub open spec fn holiday_text(policy: HolidayPolicy) -> Seq<Seq<char>> {
    match policy {
        HolidayPolicy::Keep => Seq::empty(),
        HolidayPolicy::Skip => seq!["공휴일이면 건너뜀"@],
        HolidayPolicy::Before => seq!["공휴일이면 직전 영업일"@],
        HolidayPolicy::After => seq!["공휴일이면 다음 영업일"@],
    }
}

/// The wording of the last day, if there is one.
pub open spec fn until_text(until: Option<int>) -> Seq<Seq<char>> {
    match until {
        Some(n) => seq![calendar::date_text(n) + "까지"@],
        None => Seq::empty(),
    }
}

/// The wording of the number of occurrences, if it counts.
pub open spec fn count_text(cfg: RecurCfgView) -> Seq<Seq<char>> {
    match (cfg.count, cfg.start) {
        (Some(n), Some(_)) => seq![text::decimal(n as nat) + "회"@],
        _ => Seq::empty(),
    }
}

/// The parts of the summary of a rule.
pub open spec fn summary_parts(recur_type: Seq<char>, p: JsonView, cfg: RecurCfgView) -> Seq<
    Seq<char>,
> {
    let base = match detail_of(recur_type, p) {
        Some(d) => head_of(recur_type, cfg) + " "@ + d,
        None => head_of(recur_type, cfg),
    };
    seq![base] + holiday_text(cfg.holiday) + until_text(cfg.until) + count_text(cfg)
}

/// The summary of a rule.
pub open spec fn summary_with(recur_type: Seq<char>, p: JsonView, cfg: RecurCfgView) -> Seq<char> {
    text::joined(summary_parts(recur_type, p, cfg), " · "@)
}

/// The summary of a recurrence type with a parameter.
pub open spec fn summary_text(recur_type: Seq<char>, p: JsonView) -> Seq<char> {
    summary_with(recur_type, p, recur::cfg_of(p))
}

/// The short wording of a recurrence type.
pub open spec fn short_text(recur_type: Seq<char>) -> Seq<char> {
    if recur_type == "weekly"@ {
        "매주"@
    } else if recur_type == "monthly"@ {
        "매월"@
    } else if recur_type == "quarterly"@ {
        "분기"@
    } else if recur_type == "yearly"@ {
        "연간"@
    } else if recur_type == "once"@ {
        "1회"@
    } else {
        "예정"@
    }
}

// ── Wording ─────────────────────────────────────────────

/// The name of a day of the week, 0 for Sunday.
fn weekday_label(w: u64) -> (r: &'static str)
    ensures
        r@ == weekday_name(w as int),
{
    if w == 0 {
        "일"
    } else if w == 1 {
        "월"
    } else if w == 2 {
        "화"
    } else if w == 3 {
        "수"
    } else if w == 4 {
        "목"
    } else if w == 5 {
        "금"
    } else if w == 6 {
        "토"
    } else {
        "?"
    }
}

/// The name of a position in the month, -1 for the last.
fn nth_label(n: i64) -> (r: String)
    ensures
        r@ == nth_name(n as int),
{
    if n == -1 {
        "마지막".to_owned()
    } else if n == 1 {
        "첫째".to_owned()
    } else if n == 2 {
        "둘째".to_owned()
    } else if n == 3 {
        "셋째".to_owned()
    } else if n == 4 {
        "넷째".to_owned()
    } else if n == 5 {
        "다섯째".to_owned()
    } else {
        text::concat2(text::signed_text(n).as_str(), "번째")
    }
}

/// The names of some days of the week, or nothing without any.
fn weekdays_label(weekdays: &Vec<u32>) -> (r: Option<String>)
    ensures
        text::opt_text(r) == joined_if_any(weekday_names(recur::u32s(weekdays@)), "·"@),
{
    let mut names: Vec<String> = Vec::new();
    let mut i: usize = 0;
    while i < weekdays.len()
        invariant
            i <= weekdays.len(),
            names.len() == i,
            forall|k: int| 0 <= k < i ==> (#[trigger] names@[k])@ == weekday_name(weekdays@[k] as int),
        decreases weekdays.len() - i,
    {
        names.push(weekday_label(weekdays[i] as u64).to_owned());
        i += 1;
    }
    assert(text::texts(names@) =~= weekday_names(recur::u32s(weekdays@)));
    if names.len() == 0 {
        None
    } else {
        Some(text::join_texts(&names, "·"))
    }
}

/// The days of the month, or nothing without any.
fn month_days_label(month_days: &Vec<u32>, last: bool) -> (r: Option<String>)
    ensures
        text::opt_text(r) == joined_if_any(
            month_days_parts(recur::u32s(month_days@), last),
            ", "@,
        ),
{
    let mut parts: Vec<String> = Vec::new();
    if month_days.len() > 0 {
        let mut numbers: Vec<String> = Vec::new();
        let mut i: usize = 0;
        while i < month_days.len()
            invariant
                i <= month_days.len(),
                numbers.len() == i,
                forall|k: int|
                    0 <= k < i ==> (#[trigger] numbers@[k])@ == text::decimal(month_days@[k] as nat),
            decreases month_days.len() - i,
        {
            numbers.push(text::decimal_text(month_days[i] as u64));
            i += 1;
        }
        assert(text::texts(numbers@) =~= decimals(recur::u32s(month_days@)));
        let listed = text::join_texts(&numbers, ", ");
        parts.push(text::concat2(listed.as_str(), "일"));
    }
    if last {
        parts.push("말일".to_owned());
    }
    assert(text::texts(parts@) =~= month_days_parts(recur::u32s(month_days@), last));
    if parts.len() == 0 {
        None
    } else {
        Some(text::join_texts(&parts, ", "))
    }
}

/// Two numbers as month and day.
fn slashed(month: u64, day: u64) -> (r: String)
    ensures
        r@ == text::decimal(month as nat) + "/"@ + text::decimal(day as nat),
{
    text::concat3(text::decimal_text(month).as_str(), "/", text::decimal_text(day).as_str())
}

/// A date as month and day.
pub fn month_day_label(d: &Date) -> (r: String)
    ensures
        r@ == month_and_day(d@),
{
    let (_, m, day) = d.ymd();
    slashed(m as u64, day as u64)
}

/// The number member `key`, or 1 without it.
fn number_or_one(p: &Json, key: &str) -> (r: u64)
    ensures
        r == recur::u64_or_one(p.view(), key@),
{
    match p.u64_at(key) {
        Some(n) => n,
        None => 1,
    }
}

/// Every `interval` of a unit, or every one.
fn every_label(interval: i64, unit: &str, each: &str) -> (r: String)
    ensures
        r@ == every(interval as int, unit@, each@),
{
    if interval > 1 {
        text::concat2(text::signed_text(interval).as_str(), unit)
    } else {
        each.to_owned()
    }
}

/// How often a rule comes round, and on which days it is due.
pub fn rule_parts(recur_type: &str, p: &Json, cfg: &RecurCfg) -> (r: (String, Option<String>))
    ensures
        r.0@ == head_of(recur_type@, cfg.view()),
        text::opt_text(r.1) == detail_of(recur_type@, p.view()),
{
    if recur_type.eq("daily") {
        (every_label(cfg.interval, "일마다", "매일"), None)
    } else if recur_type.eq("weekly") {
        let weekdays = recur::weekly_weekdays(p);
        (every_label(cfg.interval, "주마다", "매주"), weekdays_label(&weekdays))
    } else if recur_type.eq("monthly") {
        if recur::is_nth_mode(p) {
            let position = nth_label(recur::nth_at(p));
            let weekday = weekday_label(number_or_one(p, "weekday"));
            ("매월".to_owned(), Some(text::concat3(position.as_str(), " ", weekday)))
        } else {
            let (month_days, last) = recur::monthly_days(p);
            ("매월".to_owned(), month_days_label(&month_days, last))
        }
    } else if recur_type.eq("quarterly") {
        let moq = text::decimal_text(number_or_one(p, "monthOfQuarter"));
        let day = text::decimal_text(number_or_one(p, "day"));
        let mut detail = text::concat3(moq.as_str(), "번째 달 ", day.as_str());
        detail.append("일");
        ("매분기".to_owned(), Some(detail))
    } else if recur_type.eq("yearly") {
        let detail = slashed(number_or_one(p, "month"), number_or_one(p, "day"));
        ("매년".to_owned(), Some(detail))
    } else if recur_type.eq("once") {
        match recur::parse_date(p, "date") {
            Some(d) => ("1회".to_owned(), Some(month_day_label(&d))),
            None => ("1회".to_owned(), None),
        }
    } else {
        (recur_type.to_owned(), None)
    }
}

/// The label of a rule that was read.
pub fn label_of(recur_type: &str, p: &Json, cfg: &RecurCfg) -> (r: String)
    ensures
        r@ == label_with(recur_type@, p.view(), cfg.view()),
{
    let (mut s, detail) = rule_parts(recur_type, p, cfg);
    if let Some(d) = detail {
        s.append(" · ");
        s.append(d.as_str());
    }
    if recur_type.eq("daily") && cfg.holiday == HolidayPolicy::Skip {
        s.append(" · 평일만");
    }
    s
}

/// The label of a rule, for lists and badges.
pub fn rule_label(recur_type: &str, recur_param: &str) -> (r: String)
    ensures
        r@ == label_text(recur_type@, json::param_of(recur_param@)),
{
    let p = json::param_value(recur_param);
    let cfg = recur::parse_cfg(&p);
    label_of(recur_type, &p, &cfg)
}

/// The summary of a rule that was read.
pub fn summary_of(recur_type: &str, p: &Json, cfg: &RecurCfg) -> (r: String)
    ensures
        r@ == summary_with(recur_type@, p.view(), cfg.view()),
{
    let (head, detail) = rule_parts(recur_type, p, cfg);
    let mut parts: Vec<String> = Vec::new();
    parts.push(
        match detail {
            Some(d) => text::concat3(head.as_str(), " ", d.as_str()),
            None => head,
        },
    );
    match cfg.holiday {
        HolidayPolicy::Keep => {},
        HolidayPolicy::Skip => {
            parts.push("공휴일이면 건너뜀".to_owned());
        },
        HolidayPolicy::Before => {
            parts.push("공휴일이면 직전 영업일".to_owned());
        },
        HolidayPolicy::After => {
            parts.push("공휴일이면 다음 영업일".to_owned());
        },
    }
    if let Some(u) = &cfg.until {
        parts.push(text::concat2(u.to_text().as_str(), "까지"));
    }
    if let Some(n) = cfg.count {
        if cfg.start.is_some() {
            parts.push(text::concat2(text::decimal_text(n).as_str(), "회"));
        }
    }
    assert(text::texts(parts@) =~= summary_parts(recur_type@, p.view(), cfg.view()));
    text::join_texts(&parts, " · ")
}

/// The summary of a rule: its label, its holiday policy and when it ends.
pub fn rule_summary(recur_type: &str, recur_param: &str) -> (r: String)
    ensures
        r@ == summary_text(recur_type@, json::param_of(recur_param@)),
{
    let p = json::param_value(recur_param);
    let cfg = recur::parse_cfg(&p);
    summary_of(recur_type, &p, &cfg)
}

/// The name of the day of the week of a date.
pub fn weekday_ko(date: Date) -> (r: &'static str)
    ensures
        r@ == weekday_name(calendar::weekday(date@)),
{
    weekday_label(date.weekday() as u64)
}

/// The short wording of a recurrence type.
pub fn short_recur(recur_type: &str) -> (r: &'static str)
    ensures
        r@ == short_text(recur_type@),
{
    if recur_type.eq("weekly") {
        "매주"
    } else if recur_type.eq("monthly") {
        "매월"
    } else if recur_type.eq("quarterly") {
        "분기"
    } else if recur_type.eq("yearly") {
        "연간"
    } else if recur_type.eq("once") {
        "1회"
    } else {
        "예정"
    }
}

} // verus!
