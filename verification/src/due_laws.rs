//! On which days each recurrence type is due, by the members of its parameter.

use vstd::prelude::*;

use crate::calendar;
use crate::days;
use crate::json;
use crate::json::JsonView;
use crate::recur;
use crate::recur::RecurCfgView;
use crate::recur::RuleView;
use crate::recur_laws;

verus! {

// ── Parameters ──────────────────────────────────────────

/// Whether the occurrences of a parameter stay where they are.
pub open spec fn stays(p: JsonView) -> bool {
    match p.at("holiday"@) {
        JsonView::Text(s) => s != "skip"@ && s != "before"@ && s != "after"@,
        _ => p.at("weekdaysOnly"@) != JsonView::Bool(true),
    }
}

/// The day that a member gives.
pub open spec fn given_day(p: JsonView, key: Seq<char>) -> Option<int> {
    match p.at(key) {
        JsonView::Text(s) => calendar::parsed_date(s),
        _ => None,
    }
}

/// The number that a member gives; 1 without it. Only its low 32 bits count.
pub open spec fn given_number(p: JsonView, key: Seq<char>) -> int {
    match p.at(key) {
        JsonView::Number(_, Some(n)) => n as int % 0x1_0000_0000,
        _ => 1,
    }
}

/// Whether a parameter limits how many occurrences there are.
pub open spec fn counts(p: JsonView) -> bool {
    &&& given_day(p, "start"@) is Some
    &&& p.at("count"@) matches JsonView::Number(_, Some(n)) && n >= 1
}

/// Whether day `n` lies neither before `start` nor after `until`.
pub open spec fn in_limits(p: JsonView, n: int) -> bool {
    &&& given_day(p, "start"@) matches Some(s) ==> s <= n
    &&& given_day(p, "until"@) matches Some(u) ==> n <= u
}

/// The interval of a parameter; at least 1.
pub open spec fn given_interval(p: JsonView) -> int {
    match p.at("interval"@) {
        JsonView::Number(Some(n), _) => if n >= 1 {
            n as int
        } else {
            1
        },
        _ => 1,
    }
}

/// Whether number `v` names day `d` in a month of `length` days: it is that
/// day, or lies outside the month on the side of that day.
pub open spec fn names_day(v: int, d: int, length: int) -> bool {
    ||| v == d
    ||| v > length && d == length
    ||| v < 1 && d == 1
}

/// Whether an entry of a list names day `d` in a month of `length` days.
pub open spec fn entry_names_day(entry: JsonView, d: int, length: int) -> bool {
    entry matches JsonView::Number(_, Some(n)) && names_day(n as int % 0x1_0000_0000, d, length)
}

/// Whether an entry of a list is weekday `wd`.
pub open spec fn entry_is(entry: JsonView, wd: int) -> bool {
    entry matches JsonView::Number(_, Some(n)) && n as int % 0x1_0000_0000 == wd
}

/// A parameter is what its text writes; one that is not JSON has no members.
pub proof fn law_param(text: Seq<char>, key: Seq<char>)
    ensures
        json::parsed_json(text) matches Some(v) ==> json::param_of(text).at(key) == v.at(key),
        json::parsed_json(text) is None ==> json::param_of(text).at(key) is Null,
{
}

// ── Occurrences that stay ───────────────────────────────

/// Where occurrences stay, the due days are the occurrences themselves.
proof fn lemma_stays(
    recur_type: Seq<char>,
    p: JsonView,
    holidays: Set<int>,
    from: int,
    to: int,
    n: int,
)
    requires
        stays(p),
        !counts(p),
        calendar::in_calendar(from),
        calendar::in_calendar(to),
    ensures
        recur::occurrence_days(recur_type, p, holidays, from, to).contains(n) <==> {
            &&& from <= n <= to
            &&& in_limits(p, n)
            &&& recur::is_base(recur::rule_of(recur_type, p), recur::cfg_of(p), n)
        },
{
    let rule = recur::rule_of(recur_type, p);
    let cfg = recur::cfg_of(p);
    let due = |k: int| recur::is_due(rule, cfg, holidays, from, to, k);
    days::lemma_matching_days(from, to, due);
    assert(recur::occurrence_days(recur_type, p, holidays, from, to).contains(n) <==> from <= n
        <= to && due(n));
    assert(cfg.holiday is Keep);
    assert(cfg.start == given_day(p, "start"@));
    assert(cfg.until == given_day(p, "until"@));
    if from <= n <= to {
        if due(n) {
            let b = choose|b: int| #[trigger]
                recur::lands_from(rule, cfg, holidays, b, n) && from <= b <= to;
            assert(recur::lands_from(rule, cfg, holidays, b, n));
        }
        if in_limits(p, n) && recur::is_base(rule, cfg, n) {
            assert(recur::lands_from(rule, cfg, holidays, n, n));
        }
    }
}

/// A rule that goes by months picks a day exactly if it picks it in its month.
proof fn lemma_own_month(rule: RuleView, y: int, m: int, d: int)
    requires
        calendar::is_civil(y, m, d),
    ensures
        recur::picks_by_month(rule, calendar::day_number(y, m, d)) <==> recur::picks_in_month(
            rule,
            y,
            m,
            calendar::day_number(y, m, d),
        ),
{
    let n = calendar::day_number(y, m, d);
    if recur::picks_by_month(rule, n) {
        let (y2, m2) = choose|y2: int, m2: int|
            1 <= m2 <= 12 && #[trigger] recur::picks_in_month(rule, y2, m2, n);
        recur::lemma_picks_in_month(rule, y2, m2, n);
        recur::lemma_one_month(y, m, y2, m2, n);
    }
}

/// The names of the recurrence types differ.
pub proof fn lemma_type_names()
    ensures
        "daily"@ != "weekly"@,
        "daily"@ != "monthly"@,
        "daily"@ != "quarterly"@,
        "daily"@ != "yearly"@,
        "daily"@ != "once"@,
        "weekly"@ != "monthly"@,
        "weekly"@ != "quarterly"@,
        "weekly"@ != "yearly"@,
        "weekly"@ != "once"@,
        "monthly"@ != "quarterly"@,
        "monthly"@ != "yearly"@,
        "monthly"@ != "once"@,
        "quarterly"@ != "yearly"@,
        "quarterly"@ != "once"@,
        "yearly"@ != "once"@,
{
    reveal_strlit("daily");
    reveal_strlit("weekly");
    reveal_strlit("monthly");
    reveal_strlit("quarterly");
    reveal_strlit("yearly");
    reveal_strlit("once");
    assert("daily"@.len() == 5 && "once"@.len() == 4 && "monthly"@.len() == 7);
    assert("quarterly"@.len() == 9);
    assert("weekly"@[0] == 'w' && "yearly"@[0] == 'y');
}

/// A daily rule is due on every day within its limits; with `start`, on those a
/// multiple of the interval after it.
pub proof fn law_daily(p: JsonView, holidays: Set<int>, from: int, to: int, n: int)
    requires
        stays(p),
        !counts(p),
        calendar::in_calendar(from),
        calendar::in_calendar(to),
    ensures
        recur::occurrence_days("daily"@, p, holidays, from, to).contains(n) <==> {
            &&& from <= n <= to
            &&& in_limits(p, n)
            &&& given_day(p, "start"@) matches Some(s) ==> (n - s) % given_interval(p) == 0
        },
{
    lemma_stays("daily"@, p, holidays, from, to, n);
}

/// A weekly rule is due on the weekdays that it lists, Sunday being 0; with
/// `start`, in the weeks a multiple of the interval after the week of `start`.
/// A week begins on a Sunday.
pub proof fn law_weekly(p: JsonView, holidays: Set<int>, from: int, to: int, n: int)
    requires
        stays(p),
        !counts(p),
        calendar::in_calendar(from),
        calendar::in_calendar(to),
    ensures
        recur::occurrence_days("weekly"@, p, holidays, from, to).contains(n) <==> {
            &&& from <= n <= to
            &&& in_limits(p, n)
            &&& match p.at("weekdays"@) {
                JsonView::Array(items) => exists|i: int|
                    0 <= i < items.len() && entry_is(#[trigger] items[i], n % 7),
                _ => given_number(p, "weekday"@) == n % 7,
            }
            &&& given_day(p, "start"@) matches Some(s) ==> ((n - n % 7) - (s - s % 7)) % (7
                * given_interval(p)) == 0
        },
{
    lemma_type_names();
    lemma_stays("weekly"@, p, holidays, from, to, n);
    lemma_weekdays(p, n % 7);
    if let Some(s) = given_day(p, "start"@) {
        if s <= n {
            let weeks = (calendar::sunday_of(n) - calendar::sunday_of(s)) / 7;
            assert(calendar::sunday_of(n) - calendar::sunday_of(s) == 7 * weeks);
            vstd::arithmetic::div_mod::lemma_truncate_middle(weeks, 7, given_interval(p));
        }
    }
}

/// The numbers that are read from a list.
proof fn lemma_low32s(items: Seq<JsonView>, v: int)
    ensures
        recur::low32s(items).contains(v) <==> exists|i: int|
            0 <= i < items.len() && entry_is(#[trigger] items[i], v),
    decreases items.len(),
{
    if items.len() > 0 {
        let front = items.drop_last();
        let last = items.len() - 1;
        lemma_low32s(front, v);
        let before = recur::low32s(front);
        if recur::low32s(items).contains(v) {
            if before.contains(v) {
                let i = choose|i: int| 0 <= i < front.len() && entry_is(#[trigger] front[i], v);
                assert(entry_is(items[i], v));
            } else {
                assert(entry_is(items[last], v));
            }
        }
        if exists|i: int| 0 <= i < items.len() && entry_is(#[trigger] items[i], v) {
            let i = choose|i: int| 0 <= i < items.len() && entry_is(#[trigger] items[i], v);
            if i < last {
                assert(entry_is(front[i], v));
                let j = choose|j: int| 0 <= j < before.len() && before[j] == v;
                assert(recur::low32s(items)[j] == v);
            } else {
                assert(recur::low32s(items)[before.len() as int] == v);
            }
        }
    }
}

proof fn lemma_up_to_six(s: Seq<int>, v: int)
    requires
        v <= 6,
    ensures
        recur::up_to_six(s).contains(v) <==> s.contains(v),
    decreases s.len(),
{
    if s.len() > 0 {
        let front = s.drop_last();
        lemma_up_to_six(front, v);
        let before = recur::up_to_six(front);
        if s.contains(v) {
            let i = choose|i: int| 0 <= i < s.len() && s[i] == v;
            if i < s.len() - 1 {
                assert(front[i] == v);
                let j = choose|j: int| 0 <= j < before.len() && before[j] == v;
                assert(recur::up_to_six(s)[j] == v);
            } else {
                assert(recur::up_to_six(s)[before.len() as int] == v);
            }
        }
        if recur::up_to_six(s).contains(v) {
            if before.contains(v) {
                let j = choose|j: int| 0 <= j < front.len() && front[j] == v;
                assert(s[j] == v);
            } else {
                assert(s[s.len() - 1] == v);
            }
        }
    }
}

proof fn lemma_weekdays(p: JsonView, wd: int)
    requires
        0 <= wd <= 6,
    ensures
        recur::weekdays_of(p).contains(wd) <==> match p.at("weekdays"@) {
            JsonView::Array(items) => exists|i: int|
                0 <= i < items.len() && entry_is(#[trigger] items[i], wd),
            _ => given_number(p, "weekday"@) == wd,
        },
{
    lemma_up_to_six(recur::list_or_single(p, "weekdays"@, "weekday"@), wd);
    match p.at("weekdays"@) {
        JsonView::Array(items) => lemma_low32s(items, wd),
        _ => {
            let one = seq![given_number(p, "weekday"@)];
            assert(one[0] == given_number(p, "weekday"@));
        },
    }
}

/// A monthly rule is due on the days of the month that it lists, and with
/// `lastDay` on the last. A month without a listed day has it on its last day.
pub proof fn law_monthly_days(
    p: JsonView,
    holidays: Set<int>,
    from: int,
    to: int,
    y: int,
    m: int,
    d: int,
)
    requires
        stays(p),
        !counts(p),
        calendar::in_calendar(from),
        calendar::in_calendar(to),
        calendar::is_civil(y, m, d),
        p.at("mode"@) != JsonView::Text("nth"@),
    ensures
        recur::occurrence_days("monthly"@, p, holidays, from, to).contains(
            calendar::day_number(y, m, d),
        ) <==> {
            &&& from <= calendar::day_number(y, m, d) <= to
            &&& in_limits(p, calendar::day_number(y, m, d))
            &&& {
                ||| match p.at("days"@) {
                    JsonView::Array(items) => exists|i: int|
                        0 <= i < items.len() && entry_names_day(
                            #[trigger] items[i],
                            d,
                            calendar::days_in_month(y, m),
                        ),
                    _ => names_day(given_number(p, "day"@), d, calendar::days_in_month(y, m)),
                }
                ||| p.at("lastDay"@) == JsonView::Bool(true) && d == calendar::days_in_month(y, m)
            }
        },
{
    let n = calendar::day_number(y, m, d);
    let length = calendar::days_in_month(y, m);
    let rule = recur::rule_of("monthly"@, p);
    let listed = recur::month_days_of(p);
    let raw = recur::list_or_single(p, "days"@, "day"@);
    lemma_type_names();
    lemma_stays("monthly"@, p, holidays, from, to, n);
    lemma_own_month(rule, y, m, d);
    assert(rule == RuleView::MonthlyDays(listed, p.at("lastDay"@) == JsonView::Bool(true)));
    if recur::lists(listed, y, m, n) {
        let i = choose|i: int| #[trigger] recur::lists_day(listed, i, y, m, n);
        assert(recur::lists_day(listed, i, y, m, n));
        assert(names_day(raw[i], d, length));
        match p.at("days"@) {
            JsonView::Array(items) => {
                assert(recur::low32s(items).contains(raw[i]));
                lemma_low32s(items, raw[i]);
                let j = choose|j: int| 0 <= j < items.len() && entry_is(#[trigger] items[j], raw[i]);
                assert(entry_names_day(items[j], d, length));
            },
            _ => {},
        }
    }
    match p.at("days"@) {
        JsonView::Array(items) => {
            if exists|i: int|
                0 <= i < items.len() && entry_names_day(#[trigger] items[i], d, length) {
                let j = choose|j: int|
                    0 <= j < items.len() && entry_names_day(#[trigger] items[j], d, length);
                let v = match items[j] {
                    JsonView::Number(_, Some(k)) => k as int % 0x1_0000_0000,
                    _ => 0,
                };
                assert(entry_is(items[j], v));
                lemma_low32s(items, v);
                let i = choose|i: int| 0 <= i < raw.len() && raw[i] == v;
                assert(recur::lists_day(listed, i, y, m, n));
            }
        },
        _ => {
            if names_day(given_number(p, "day"@), d, length) {
                assert(raw[0] == given_number(p, "day"@));
                assert(recur::lists_day(listed, 0, y, m, n));
            }
        },
    }
}

/// A monthly rule with `mode` `"nth"` is due on that weekday of the month which
/// is the `nth`, or the last for -1: as many whole weeks of the month lie before
/// it as were asked for less one, or none after it.
pub proof fn law_monthly_nth(
    p: JsonView,
    holidays: Set<int>,
    from: int,
    to: int,
    y: int,
    m: int,
    d: int,
)
    requires
        stays(p),
        !counts(p),
        calendar::in_calendar(from),
        calendar::in_calendar(to),
        calendar::is_civil(y, m, d),
        p.at("mode"@) == JsonView::Text("nth"@),
    ensures
        recur::occurrence_days("monthly"@, p, holidays, from, to).contains(
            calendar::day_number(y, m, d),
        ) <==> {
            let nth = match p.at("nth"@) {
                JsonView::Number(Some(k), _) => k as int,
                _ => 1,
            };
            let wd = given_number(p, "weekday"@);
            &&& from <= calendar::day_number(y, m, d) <= to
            &&& in_limits(p, calendar::day_number(y, m, d))
            &&& calendar::day_number(y, m, d) % 7 == wd || wd > 6 && calendar::day_number(y, m, d)
                % 7 == 6
            &&& nth >= 1 && (d - 1) / 7 == nth - 1 || nth == -1 && d + 7 > calendar::days_in_month(
                y,
                m,
            )
        },
{
    let n = calendar::day_number(y, m, d);
    let rule = recur::rule_of("monthly"@, p);
    let wd = given_number(p, "weekday"@);
    let nth = recur::nth_of(p);
    lemma_type_names();
    lemma_stays("monthly"@, p, holidays, from, to, n);
    lemma_own_month(rule, y, m, d);
    assert(rule == RuleView::MonthlyNth(nth, wd));
    lemma_nth(recur::month_first(y, m), d, calendar::days_in_month(y, m), nth, if wd > 6 {
        6
    } else {
        wd
    });
}

/// Which day of a month that begins on day `first` is the `nth` of a weekday.
proof fn lemma_nth(first: int, d: int, length: int, nth: int, wd: int)
    requires
        1 <= d <= length,
        0 <= wd <= 6,
    ensures
        nth >= 1 ==> ((first + d - 1 == first + (wd - first % 7) % 7 + 7 * (nth - 1)) <==> ((first + d
            - 1) % 7 == wd && (d - 1) / 7 == nth - 1)),
        first + d - 1 == first + length - 1 - ((first + length - 1) % 7 - wd) % 7 <==> ((first + d
            - 1) % 7 == wd && d + 7 > length),
{
    let weeks = (d - 1) / 7;
    let rest = (d - 1) % 7;
    assert(d - 1 == 7 * weeks + rest);
    lemma_same_weekday(first + rest, weeks);
    lemma_offset(first, rest, wd);
    let last = first + length - 1;
    let back = length - d;
    lemma_offset_back(last, back % 7, wd);
    assert(back == 7 * (back / 7) + back % 7);
    lemma_same_weekday(last - back, back / 7);
}

proof fn lemma_same_weekday(n: int, weeks: int)
    ensures
        (n + 7 * weeks) % 7 == n % 7,
{
}

proof fn lemma_offset(first: int, rest: int, wd: int)
    requires
        0 <= rest < 7,
        0 <= wd < 7,
    ensures
        (first + rest) % 7 == wd <==> rest == (wd - first % 7) % 7,
{
}

proof fn lemma_offset_back(last: int, back: int, wd: int)
    requires
        0 <= back < 7,
        0 <= wd < 7,
    ensures
        (last - back) % 7 == wd <==> back == (last % 7 - wd) % 7,
{
}

/// A quarterly rule is due in one month of each quarter, on the day that it
/// names; in a month without that day, on its last.
pub proof fn law_quarterly(
    p: JsonView,
    holidays: Set<int>,
    from: int,
    to: int,
    y: int,
    m: int,
    d: int,
)
    requires
        stays(p),
        !counts(p),
        calendar::in_calendar(from),
        calendar::in_calendar(to),
        calendar::is_civil(y, m, d),
    ensures
        recur::occurrence_days("quarterly"@, p, holidays, from, to).contains(
            calendar::day_number(y, m, d),
        ) <==> {
            let month = given_number(p, "monthOfQuarter"@);
            &&& from <= calendar::day_number(y, m, d) <= to
            &&& in_limits(p, calendar::day_number(y, m, d))
            &&& (m % 3 == 1 && month <= 1) || (m % 3 == 2 && month == 2) || (m % 3 == 0 && month
                >= 3)
            &&& names_day(given_number(p, "day"@), d, calendar::days_in_month(y, m))
        },
{
    let n = calendar::day_number(y, m, d);
    let rule = recur::rule_of("quarterly"@, p);
    lemma_type_names();
    lemma_stays("quarterly"@, p, holidays, from, to, n);
    lemma_own_month(rule, y, m, d);
}

/// A yearly rule is due in the month and on the day that it names; in a month
/// without that day, on its last.
pub proof fn law_yearly(
    p: JsonView,
    holidays: Set<int>,
    from: int,
    to: int,
    y: int,
    m: int,
    d: int,
)
    requires
        stays(p),
        !counts(p),
        calendar::in_calendar(from),
        calendar::in_calendar(to),
        calendar::is_civil(y, m, d),
    ensures
        recur::occurrence_days("yearly"@, p, holidays, from, to).contains(
            calendar::day_number(y, m, d),
        ) <==> {
            let month = given_number(p, "month"@);
            &&& from <= calendar::day_number(y, m, d) <= to
            &&& in_limits(p, calendar::day_number(y, m, d))
            &&& month == m || month < 1 && m == 1 || month > 12 && m == 12
            &&& names_day(given_number(p, "day"@), d, calendar::days_in_month(y, m))
        },
{
    let n = calendar::day_number(y, m, d);
    let rule = recur::rule_of("yearly"@, p);
    lemma_type_names();
    lemma_stays("yearly"@, p, holidays, from, to, n);
    lemma_own_month(rule, y, m, d);
}

/// A rule for one date is due on that date alone.
pub proof fn law_one_date(p: JsonView, holidays: Set<int>, from: int, to: int, n: int)
    requires
        stays(p),
        !counts(p),
        calendar::in_calendar(from),
        calendar::in_calendar(to),
    ensures
        recur::occurrence_days("once"@, p, holidays, from, to).contains(n) <==> {
            &&& from <= n <= to
            &&& in_limits(p, n)
            &&& given_day(p, "date"@) == Some(n)
        },
{
    lemma_type_names();
    lemma_stays("once"@, p, holidays, from, to, n);
}

/// The days that a monthly rule picks in a month come in the order of its list,
/// the last day of the month behind them; one that the month does not have is
/// its last day.
pub proof fn law_month_order(month_days: Seq<int>, last: bool, y: int, m: int, i: int)
    requires
        0 <= i < month_days.len(),
        1 <= m <= 12,
    ensures
        ({
            let picks = recur::month_picks(RuleView::MonthlyDays(month_days, last), y, m);
            let length = calendar::days_in_month(y, m);
            let d = picks[i] - calendar::day_number(y, m, 1) + 1;
            &&& 1 <= d <= length
            &&& names_day(month_days[i], d, length)
            &&& picks.len() == month_days.len() + if last {
                1int
            } else {
                0
            }
            &&& last ==> picks.last() == calendar::day_number(y, m, length)
        }),
{
}

/// An unknown recurrence type is never due.
pub proof fn law_unknown_type(
    recur_type: Seq<char>,
    p: JsonView,
    holidays: Set<int>,
    from: int,
    to: int,
)
    requires
        recur_type != "daily"@,
        recur_type != "weekly"@,
        recur_type != "monthly"@,
        recur_type != "quarterly"@,
        recur_type != "yearly"@,
        recur_type != "once"@,
    ensures
        recur::occurrence_days(recur_type, p, holidays, from, to).len() == 0,
{
    let rule = recur::rule_of(recur_type, p);
    let cfg = recur::cfg_of(p);
    let due = |k: int| recur::is_due(rule, cfg, holidays, from, to, k);
    let s = recur::occurrence_days(recur_type, p, holidays, from, to);
    days::lemma_matching_days(from, to, due);
    if s.len() > 0 {
        assert(s.contains(s[0]));
        assert(due(s[0]));
    }
}

// ── Weekends and holidays ───────────────────────────────

/// Whether a member is neither about weekends and holidays nor the last day.
pub open spec fn is_rule_member(key: Seq<char>) -> bool {
    key != "holiday"@ && key != "weekdaysOnly"@ && key != "until"@
}

/// Whether two parameters differ at most in what becomes of occurrences on
/// weekends and holidays, and in `until`.
pub open spec fn same_occurrences(p: JsonView, q: JsonView) -> bool {
    forall|key: Seq<char>| is_rule_member(key) ==> #[trigger] p.at(key) == q.at(key)
}

/// Whether day `n` is a working day: no Saturday, no Sunday and no holiday.
pub open spec fn works(n: int, holidays: Set<int>) -> bool {
    n % 7 != 0 && n % 7 != 6 && !holidays.contains(n)
}

/// The names of members differ from those of the policy and of the last day.
proof fn lemma_member_names()
    ensures
        is_rule_member("start"@),
        is_rule_member("count"@),
        is_rule_member("interval"@),
        is_rule_member("weekdays"@),
        is_rule_member("weekday"@),
        is_rule_member("mode"@),
        is_rule_member("days"@),
        is_rule_member("day"@),
        is_rule_member("lastDay"@),
        is_rule_member("nth"@),
        is_rule_member("monthOfQuarter"@),
        is_rule_member("month"@),
        is_rule_member("date"@),
{
    reveal_strlit("start");
    reveal_strlit("count");
    reveal_strlit("until");
    reveal_strlit("interval");
    reveal_strlit("weekdays");
    reveal_strlit("weekday");
    reveal_strlit("mode");
    reveal_strlit("days");
    reveal_strlit("day");
    reveal_strlit("lastDay");
    reveal_strlit("nth");
    reveal_strlit("monthOfQuarter");
    reveal_strlit("month");
    reveal_strlit("date");
    reveal_strlit("holiday");
    reveal_strlit("weekdaysOnly");
    assert("holiday"@[0] == 'h' && "until"@[0] == 'u' && "weekdaysOnly"@.len() == 12);
    assert("start"@[0] == 's' && "count"@[0] == 'c' && "interval"@[0] == 'i');
    assert("weekdays"@[0] == 'w' && "weekdays"@.len() == 8);
    assert("weekday"@[0] == 'w' && "weekday"@.len() == 7);
    assert("mode"@[0] == 'm' && "days"@[0] == 'd' && "day"@[0] == 'd' && "lastDay"@[0] == 'l');
    assert("nth"@[0] == 'n' && "monthOfQuarter"@[0] == 'm' && "month"@[0] == 'm');
    assert("monthOfQuarter"@.len() == 14 && "month"@.len() == 5 && "date"@[0] == 'd');
}

proof fn lemma_same_occurrences(recur_type: Seq<char>, p: JsonView, q: JsonView)
    requires
        same_occurrences(p, q),
    ensures
        recur::rule_of(recur_type, p) == recur::rule_of(recur_type, q),
        recur::cfg_of(p).start == recur::cfg_of(q).start,
        recur::cfg_of(p).interval == recur::cfg_of(q).interval,
        recur::cfg_of(p).count == recur::cfg_of(q).count,
        counts(p) == counts(q),
        forall|n: int|
            recur::is_base(recur::rule_of(recur_type, p), recur::cfg_of(p), n)
                == #[trigger] recur::is_base(recur::rule_of(recur_type, q), recur::cfg_of(q), n),
{
    lemma_member_names();
    assert(p.at("start"@) == q.at("start"@));
    assert(p.at("count"@) == q.at("count"@));
    assert(p.at("interval"@) == q.at("interval"@));
    assert(p.at("weekdays"@) == q.at("weekdays"@));
    assert(p.at("weekday"@) == q.at("weekday"@));
    assert(p.at("mode"@) == q.at("mode"@));
    assert(p.at("days"@) == q.at("days"@));
    assert(p.at("day"@) == q.at("day"@));
    assert(p.at("lastDay"@) == q.at("lastDay"@));
    assert(p.at("nth"@) == q.at("nth"@));
    assert(p.at("monthOfQuarter"@) == q.at("monthOfQuarter"@));
    assert(p.at("month"@) == q.at("month"@));
    assert(p.at("date"@) == q.at("date"@));
    assert(recur::month_days_of(p) =~= recur::month_days_of(q));
}

/// With `until`, exactly those days stay due that are not after it.
pub proof fn law_until_ends(
    recur_type: Seq<char>,
    p: JsonView,
    q: JsonView,
    holidays: Set<int>,
    from: int,
    to: int,
    n: int,
)
    requires
        stays(p),
        stays(q),
        !counts(p),
        same_occurrences(p, q),
        given_day(q, "until"@) is None,
        calendar::in_calendar(from),
        calendar::in_calendar(to),
    ensures
        recur::occurrence_days(recur_type, p, holidays, from, to).contains(n) <==> {
            &&& recur::occurrence_days(recur_type, q, holidays, from, to).contains(n)
            &&& given_day(p, "until"@) matches Some(u) ==> n <= u
        },
{
    lemma_same_occurrences(recur_type, p, q);
    lemma_stays(recur_type, p, holidays, from, to, n);
    lemma_stays(recur_type, q, holidays, from, to, n);
    assert(recur::is_base(recur::rule_of(recur_type, q), recur::cfg_of(q), n) ==> true);
}

/// With `holiday` `"skip"`, or `weekdaysOnly`, exactly those days stay due that
/// are working days.
pub proof fn law_skip(
    recur_type: Seq<char>,
    p: JsonView,
    q: JsonView,
    holidays: Set<int>,
    from: int,
    to: int,
    n: int,
)
    requires
        p.at("holiday"@) == JsonView::Text("skip"@) || (!(p.at("holiday"@) is Text) && p.at(
            "weekdaysOnly"@,
        ) == JsonView::Bool(true)),
        stays(q),
        !counts(p),
        same_occurrences(p, q),
        p.at("until"@) == q.at("until"@),
        calendar::in_calendar(from),
        calendar::in_calendar(to),
    ensures
        recur::occurrence_days(recur_type, p, holidays, from, to).contains(n) <==> {
            &&& recur::occurrence_days(recur_type, q, holidays, from, to).contains(n)
            &&& works(n, holidays)
        },
{
    let rule = recur::rule_of(recur_type, p);
    let cfg = recur::cfg_of(p);
    let due = |k: int| recur::is_due(rule, cfg, holidays, from, to, k);
    lemma_same_occurrences(recur_type, p, q);
    lemma_stays(recur_type, q, holidays, from, to, n);
    days::lemma_matching_days(from, to, due);
    assert(recur::occurrence_days(recur_type, p, holidays, from, to).contains(n) <==> from <= n
        <= to && due(n));
    assert(cfg.holiday is Skip);
    assert(recur::is_base(rule, cfg, n) == recur::is_base(
        recur::rule_of(recur_type, q),
        recur::cfg_of(q),
        n,
    ));
    if from <= n <= to {
        if due(n) {
            let b = choose|b: int| #[trigger]
                recur::lands_from(rule, cfg, holidays, b, n) && from <= b <= to;
            assert(recur::lands_from(rule, cfg, holidays, b, n));
        }
        if in_limits(p, n) && recur::is_base(rule, cfg, n) && works(n, holidays) {
            assert(recur::lands_from(rule, cfg, holidays, n, n));
        }
    }
}

/// The first business day from a day on is the one before which there is none.
proof fn lemma_nearest_after(n: int, m: int, holidays: Set<int>, left: nat)
    requires
        calendar::in_calendar(n),
        calendar::in_calendar(m),
        n <= m <= n + left,
        works(m, holidays),
        forall|k: int| n <= k < m ==> !#[trigger] works(k, holidays),
    ensures
        recur::nearest_business(n, 1, holidays, left) == Some(m),
    decreases left,
{
    if n < m {
        assert(!works(n, holidays));
        lemma_nearest_after(n + 1, m, holidays, (left - 1) as nat);
    }
}

/// The first business day back from a day is the one after which there is none.
proof fn lemma_nearest_before(n: int, m: int, holidays: Set<int>, left: nat)
    requires
        calendar::in_calendar(n),
        calendar::in_calendar(m),
        n - left <= m <= n,
        works(m, holidays),
        forall|k: int| m < k <= n ==> !#[trigger] works(k, holidays),
    ensures
        recur::nearest_business(n, -1, holidays, left) == Some(m),
    decreases left,
{
    if m < n {
        assert(!works(n, holidays));
        lemma_nearest_before(n - 1, m, holidays, (left - 1) as nat);
    }
}

/// With `holiday` `"before"`, a working day is due exactly if an occurrence
/// falls on it, or on one of the next 31 days with no working day from it back
/// to the due one; and it lies neither before `start` nor after `until`.
pub proof fn law_before(
    recur_type: Seq<char>,
    p: JsonView,
    q: JsonView,
    holidays: Set<int>,
    from: int,
    to: int,
    n: int,
)
    requires
        p.at("holiday"@) == JsonView::Text("before"@),
        stays(q),
        !counts(p),
        same_occurrences(p, q),
        given_day(q, "until"@) is None,
        calendar::in_calendar(from - 31),
        calendar::in_calendar(to + 31),
    ensures
        recur::occurrence_days(recur_type, p, holidays, from, to).contains(n) <==> {
            &&& from <= n <= to
            &&& in_limits(p, n)
            &&& works(n, holidays)
            &&& exists|b: int|
                n <= b <= n + 31 && #[trigger] recur::occurrence_days(
                    recur_type,
                    q,
                    holidays,
                    b,
                    b,
                ).contains(b) && forall|k: int| n < k <= b ==> !#[trigger] works(k, holidays)
        },
{
    let rule = recur::rule_of(recur_type, p);
    let cfg = recur::cfg_of(p);
    let due = |k: int| recur::is_due(rule, cfg, holidays, from, to, k);
    lemma_same_occurrences(recur_type, p, q);
    days::lemma_matching_days(from, to, due);
    assert(recur::occurrence_days(recur_type, p, holidays, from, to).contains(n) <==> from <= n
        <= to && due(n));
    reveal_strlit("before");
    reveal_strlit("skip");
    assert("before"@.len() == 6 && "skip"@.len() == 4);
    assert(cfg.holiday is Before);
    if from <= n <= to {
        if due(n) {
            let b = choose|b: int| #[trigger]
                recur::lands_from(rule, cfg, holidays, b, n) && from - 31 <= b <= to + 31;
            assert(recur::lands_from(rule, cfg, holidays, b, n));
            recur::lemma_nearest_business(b, -1, holidays, 31);
            lemma_stays(recur_type, q, holidays, b, b, b);
            assert(recur::is_base(recur::rule_of(recur_type, q), recur::cfg_of(q), b));
            assert(recur::occurrence_days(recur_type, q, holidays, b, b).contains(b));
            assert forall|k: int| n < k <= b implies !#[trigger] works(k, holidays) by {
                assert(0 <= (k - b) * -1 < (n - b) * -1);
                assert(!recur::is_business(k, holidays));
            }
        }
        if exists|b: int|
            n <= b <= n + 31 && #[trigger] recur::occurrence_days(
                recur_type,
                q,
                holidays,
                b,
                b,
            ).contains(b) && forall|k: int| n < k <= b ==> !#[trigger] works(k, holidays) {
            let b = choose|b: int|
                n <= b <= n + 31 && #[trigger] recur::occurrence_days(
                    recur_type,
                    q,
                    holidays,
                    b,
                    b,
                ).contains(b) && forall|k: int| n < k <= b ==> !#[trigger] works(k, holidays);
            lemma_stays(recur_type, q, holidays, b, b, b);
            if works(n, holidays) {
                lemma_nearest_before(b, n, holidays, 31);
                assert(recur::lands_from(rule, cfg, holidays, b, n));
            }
        }
    }
}

/// With `holiday` `"after"`, a working day is due exactly if an occurrence falls
/// on it, or on one of the 31 days before with no working day from it on to the
/// due one; and it lies neither before `start` nor after `until`.
pub proof fn law_after(
    recur_type: Seq<char>,
    p: JsonView,
    q: JsonView,
    holidays: Set<int>,
    from: int,
    to: int,
    n: int,
)
    requires
        p.at("holiday"@) == JsonView::Text("after"@),
        stays(q),
        !counts(p),
        same_occurrences(p, q),
        given_day(q, "until"@) is None,
        calendar::in_calendar(from - 31),
        calendar::in_calendar(to + 31),
    ensures
        recur::occurrence_days(recur_type, p, holidays, from, to).contains(n) <==> {
            &&& from <= n <= to
            &&& in_limits(p, n)
            &&& works(n, holidays)
            &&& exists|b: int|
                n - 31 <= b <= n && #[trigger] recur::occurrence_days(
                    recur_type,
                    q,
                    holidays,
                    b,
                    b,
                ).contains(b) && forall|k: int| b <= k < n ==> !#[trigger] works(k, holidays)
        },
{
    let rule = recur::rule_of(recur_type, p);
    let cfg = recur::cfg_of(p);
    let due = |k: int| recur::is_due(rule, cfg, holidays, from, to, k);
    lemma_same_occurrences(recur_type, p, q);
    days::lemma_matching_days(from, to, due);
    assert(recur::occurrence_days(recur_type, p, holidays, from, to).contains(n) <==> from <= n
        <= to && due(n));
    reveal_strlit("before");
    reveal_strlit("skip");
    reveal_strlit("after");
    assert("before"@.len() == 6 && "skip"@.len() == 4 && "after"@.len() == 5);
    assert(cfg.holiday is After);
    if from <= n <= to {
        if due(n) {
            let b = choose|b: int| #[trigger]
                recur::lands_from(rule, cfg, holidays, b, n) && from - 31 <= b <= to + 31;
            assert(recur::lands_from(rule, cfg, holidays, b, n));
            recur::lemma_nearest_business(b, 1, holidays, 31);
            lemma_stays(recur_type, q, holidays, b, b, b);
            assert(recur::is_base(recur::rule_of(recur_type, q), recur::cfg_of(q), b));
            assert(recur::occurrence_days(recur_type, q, holidays, b, b).contains(b));
            assert forall|k: int| b <= k < n implies !#[trigger] works(k, holidays) by {
                assert(0 <= (k - b) * 1 < (n - b) * 1);
                assert(!recur::is_business(k, holidays));
            }
        }
        if exists|b: int|
            n - 31 <= b <= n && #[trigger] recur::occurrence_days(
                recur_type,
                q,
                holidays,
                b,
                b,
            ).contains(b) && forall|k: int| b <= k < n ==> !#[trigger] works(k, holidays) {
            let b = choose|b: int|
                n - 31 <= b <= n && #[trigger] recur::occurrence_days(
                    recur_type,
                    q,
                    holidays,
                    b,
                    b,
                ).contains(b) && forall|k: int| b <= k < n ==> !#[trigger] works(k, holidays);
            lemma_stays(recur_type, q, holidays, b, b, b);
            if works(n, holidays) {
                lemma_nearest_after(b, n, holidays, 31);
                assert(recur::lands_from(rule, cfg, holidays, b, n));
            }
        }
    }
}

// ── Counted occurrences ─────────────────────────────────

/// With `start` and `count`, exactly those days stay due that are among the
/// first so many from `start` on, whatever window is asked for; and none that is
/// later than 20000 days after `start`. The window lies far enough from the ends
/// of the calendar for moves.
pub proof fn law_counted(
    recur_type: Seq<char>,
    p: JsonView,
    q: JsonView,
    holidays: Set<int>,
    start: int,
    from: int,
    to: int,
    n: int,
)
    requires
        counts(p),
        !counts(q),
        forall|key: Seq<char>| key != "count"@ ==> #[trigger] p.at(key) == q.at(key),
        given_day(p, "start"@) == Some(start),
        calendar::in_calendar(start),
        calendar::in_calendar(from - 31),
        calendar::in_calendar(to + 31),
    ensures
        recur::occurrence_days(recur_type, p, holidays, from, to).contains(n) <==> {
            let count = match p.at("count"@) {
                JsonView::Number(_, Some(c)) => c as int,
                _ => 0,
            };
            &&& recur::occurrence_days(recur_type, q, holidays, from, to).contains(n)
            &&& n <= start + 20000
            &&& recur::occurrence_days(recur_type, q, holidays, start, n).len() <= count
        },
{
    let rule = recur::rule_of(recur_type, p);
    let cfg = recur::cfg_of(p);
    let cfg2 = recur::cfg_of(q);
    let pad = recur::pad_of(cfg.holiday);
    lemma_same_but_count(recur_type, p, q);
    assert(cfg2 == (RecurCfgView { count: None, ..cfg }));
    let due = |k: int| recur::is_due(rule, cfg, holidays, from, to, k);
    let due2 = |k: int| recur::is_due(rule, cfg2, holidays, from, to, k);
    days::lemma_matching_days(from, to, due);
    days::lemma_matching_days(from, to, due2);
    assert(recur::occurrence_days(recur_type, p, holidays, from, to).contains(n) <==> from <= n
        <= to && due(n));
    assert(recur::occurrence_days(recur_type, q, holidays, from, to).contains(n) <==> from <= n
        <= to && due2(n));
    if from <= n <= to {
        recur_laws::lemma_count_aside(rule, cfg, holidays, n);
        recur::lemma_lands_near(rule, cfg, holidays, from - pad, to + pad, n);
        recur::lemma_lands_near(rule, cfg2, holidays, from - pad, to + pad, n);
        if due2(n) {
            let place = |k: int| recur::takes_place(rule, cfg, holidays, k);
            let upto = |k: int| recur::is_due(rule, cfg2, holidays, start, n, k);
            assert forall|k: int| start <= k <= n implies #[trigger] upto(k) == place(k) by {
                recur_laws::lemma_count_aside(rule, cfg, holidays, k);
                recur::lemma_lands_near(
                    rule,
                    cfg2,
                    holidays,
                    recur::padded_from(cfg2.holiday, start),
                    recur::padded_to(cfg2.holiday, n),
                    k,
                );
            }
            days::lemma_matching_agree(start, n, upto, place);
            assert(start <= n);
            assert(place(n));
            assert(days::matching_days(start, n, place) == days::matching_days(
                start,
                n - 1,
                place,
            ).push(n));
            assert(recur::counted_before(rule, cfg, holidays, start, n) == days::matching_days(
                start,
                n - 1,
                place,
            ));
        }
    }
}

proof fn lemma_same_but_count(recur_type: Seq<char>, p: JsonView, q: JsonView)
    requires
        counts(p),
        !counts(q),
        forall|key: Seq<char>| key != "count"@ ==> #[trigger] p.at(key) == q.at(key),
    ensures
        recur::rule_of(recur_type, p) == recur::rule_of(recur_type, q),
        recur::cfg_of(q) == (RecurCfgView { count: None, ..recur::cfg_of(p) }),
        recur::cfg_of(p).start == given_day(p, "start"@),
        p.at("count"@) matches JsonView::Number(_, Some(c)) && recur::cfg_of(p).count == Some(
            c as int,
        ),
{
    lemma_not_count();
    assert(p.at("start"@) == q.at("start"@));
    assert(p.at("until"@) == q.at("until"@));
    assert(p.at("holiday"@) == q.at("holiday"@));
    assert(p.at("weekdaysOnly"@) == q.at("weekdaysOnly"@));
    assert(p.at("interval"@) == q.at("interval"@));
    assert(p.at("weekdays"@) == q.at("weekdays"@));
    assert(p.at("weekday"@) == q.at("weekday"@));
    assert(p.at("mode"@) == q.at("mode"@));
    assert(p.at("days"@) == q.at("days"@));
    assert(p.at("day"@) == q.at("day"@));
    assert(p.at("lastDay"@) == q.at("lastDay"@));
    assert(p.at("nth"@) == q.at("nth"@));
    assert(p.at("monthOfQuarter"@) == q.at("monthOfQuarter"@));
    assert(p.at("month"@) == q.at("month"@));
    assert(p.at("date"@) == q.at("date"@));
    assert(recur::month_days_of(p) =~= recur::month_days_of(q));
}

/// No other member is named as the count.
proof fn lemma_not_count()
    ensures
        "start"@ != "count"@,
        "until"@ != "count"@,
        "holiday"@ != "count"@,
        "weekdaysOnly"@ != "count"@,
        "interval"@ != "count"@,
        "weekdays"@ != "count"@,
        "weekday"@ != "count"@,
        "mode"@ != "count"@,
        "days"@ != "count"@,
        "day"@ != "count"@,
        "lastDay"@ != "count"@,
        "nth"@ != "count"@,
        "monthOfQuarter"@ != "count"@,
        "month"@ != "count"@,
        "date"@ != "count"@,
{
    reveal_strlit("start");
    reveal_strlit("count");
    reveal_strlit("until");
    reveal_strlit("interval");
    reveal_strlit("weekdays");
    reveal_strlit("weekday");
    reveal_strlit("mode");
    reveal_strlit("days");
    reveal_strlit("day");
    reveal_strlit("lastDay");
    reveal_strlit("nth");
    reveal_strlit("monthOfQuarter");
    reveal_strlit("month");
    reveal_strlit("date");
    reveal_strlit("holiday");
    reveal_strlit("weekdaysOnly");
    assert("count"@[0] == 'c');
    assert("start"@[0] == 's' && "until"@[0] == 'u' && "holiday"@[0] == 'h');
    assert("weekdaysOnly"@[0] == 'w' && "interval"@[0] == 'i' && "weekdays"@[0] == 'w');
    assert("weekday"@[0] == 'w' && "mode"@[0] == 'm' && "days"@[0] == 'd' && "day"@[0] == 'd');
    assert("lastDay"@[0] == 'l' && "nth"@[0] == 'n' && "monthOfQuarter"@[0] == 'm');
    assert("month"@[0] == 'm' && "date"@[0] == 'd');
}

} // verus!
