//! What holds of all due dates.

use vstd::prelude::*;

use crate::calendar;
use crate::calendar::MAX_DAY;
use crate::calendar::MIN_DAY;
use crate::days;
use crate::json::JsonView;
use crate::recur;
use crate::recur::RecurCfgView;
use crate::recur::RuleView;

verus! {

/// Due days come in ascending order, each once, from the window that was asked
/// for and from the calendar.
pub proof fn law_ascending_in_window(
    rule: RuleView,
    cfg: RecurCfgView,
    holidays: Set<int>,
    from: int,
    to: int,
)
    ensures
        days::ascending(recur::due_days(rule, cfg, holidays, from, to)),
        forall|i: int|
            0 <= i < recur::due_days(rule, cfg, holidays, from, to).len() ==> from
                <= #[trigger] recur::due_days(rule, cfg, holidays, from, to)[i] <= to
                && calendar::in_calendar(recur::due_days(rule, cfg, holidays, from, to)[i]),
{
    let p = |n: int| recur::is_due(rule, cfg, holidays, from, to, n);
    let s = recur::due_days(rule, cfg, holidays, from, to);
    days::lemma_matching_days(from, to, p);
    assert forall|i: int| 0 <= i < s.len() implies from <= #[trigger] s[i] <= to
        && calendar::in_calendar(s[i]) by {
        assert(s.contains(s[i]));
        assert(p(s[i]));
        lemma_due_takes_place(rule, cfg, holidays, from, to, s[i]);
    }
}

/// A due day is one on which an occurrence takes place.
pub proof fn lemma_due_takes_place(
    rule: RuleView,
    cfg: RecurCfgView,
    holidays: Set<int>,
    from: int,
    to: int,
    n: int,
)
    requires
        recur::is_due(rule, cfg, holidays, from, to, n),
    ensures
        recur::takes_place(rule, cfg, holidays, n),
        calendar::in_calendar(n),
        cfg.start matches Some(s) ==> s <= n,
{
    let b = choose|b: int| #[trigger]
        recur::lands_from(rule, cfg, holidays, b, n) && recur::padded_from(cfg.holiday, from) <= b
            <= recur::padded_to(cfg.holiday, to);
    assert(recur::lands_from(rule, cfg, holidays, b, n));
    recur::lemma_lands_near(rule, cfg, holidays, MIN_DAY as int, MAX_DAY as int, n);
}

/// Whether a day is due does not depend on the window it is asked in: what
/// moves into a window from outside is found too. Near the ends of the
/// calendar, where the days outside the window are missing, it can.
pub proof fn law_window_does_not_matter(
    rule: RuleView,
    cfg: RecurCfgView,
    holidays: Set<int>,
    from: int,
    to: int,
    from2: int,
    to2: int,
    n: int,
)
    requires
        from <= n <= to,
        from2 <= n <= to2,
        calendar::in_calendar(from - recur::pad_of(cfg.holiday)),
        calendar::in_calendar(to + recur::pad_of(cfg.holiday)),
        calendar::in_calendar(from2 - recur::pad_of(cfg.holiday)),
        calendar::in_calendar(to2 + recur::pad_of(cfg.holiday)),
    ensures
        recur::is_due(rule, cfg, holidays, from, to, n) <==> recur::is_due(
            rule,
            cfg,
            holidays,
            from2,
            to2,
            n,
        ),
{
    let pad = recur::pad_of(cfg.holiday);
    recur::lemma_lands_near(rule, cfg, holidays, from - pad, to + pad, n);
    recur::lemma_lands_near(rule, cfg, holidays, from2 - pad, to2 + pad, n);
}

/// The due days of two adjoining windows are those of the whole.
pub proof fn law_windows_join(
    rule: RuleView,
    cfg: RecurCfgView,
    holidays: Set<int>,
    from: int,
    mid: int,
    to: int,
)
    requires
        from <= mid < to,
        calendar::in_calendar(from - recur::pad_of(cfg.holiday)),
        calendar::in_calendar(to + recur::pad_of(cfg.holiday)),
    ensures
        recur::due_days(rule, cfg, holidays, from, to) == recur::due_days(
            rule,
            cfg,
            holidays,
            from,
            mid,
        ) + recur::due_days(rule, cfg, holidays, mid + 1, to),
{
    let p = |n: int| recur::is_due(rule, cfg, holidays, from, to, n);
    let p1 = |n: int| recur::is_due(rule, cfg, holidays, from, mid, n);
    let p2 = |n: int| recur::is_due(rule, cfg, holidays, mid + 1, to, n);
    days::lemma_matching_split(from, mid, to, p);
    assert forall|n: int| from <= n <= mid implies #[trigger] p(n) == p1(n) by {
        law_window_does_not_matter(rule, cfg, holidays, from, to, from, mid, n);
    }
    assert forall|n: int| mid + 1 <= n <= to implies #[trigger] p(n) == p2(n) by {
        law_window_does_not_matter(rule, cfg, holidays, from, to, mid + 1, to, n);
    }
    days::lemma_matching_agree(from, mid, p, p1);
    days::lemma_matching_agree(mid + 1, to, p, p2);
}

/// Nothing is due after `until`.
pub proof fn law_until(
    rule: RuleView,
    cfg: RecurCfgView,
    holidays: Set<int>,
    from: int,
    to: int,
    n: int,
)
    requires
        recur::is_due(rule, cfg, holidays, from, to, n),
        cfg.until is Some,
    ensures
        n <= cfg.until.unwrap(),
{
}

/// Nothing is due before `start`, whatever becomes of occurrences on weekends
/// and holidays.
pub proof fn law_start(
    rule: RuleView,
    cfg: RecurCfgView,
    holidays: Set<int>,
    from: int,
    to: int,
    n: int,
)
    requires
        recur::is_due(rule, cfg, holidays, from, to, n),
        cfg.start is Some,
    ensures
        cfg.start.unwrap() <= n,
{
}

/// Unless occurrences stay where they are, only business days are due.
pub proof fn law_business_days_only(
    rule: RuleView,
    cfg: RecurCfgView,
    holidays: Set<int>,
    from: int,
    to: int,
    n: int,
)
    requires
        recur::is_due(rule, cfg, holidays, from, to, n),
        !(cfg.holiday is Keep),
    ensures
        recur::is_business(n, holidays),
{
    let b = choose|b: int| #[trigger]
        recur::lands_from(rule, cfg, holidays, b, n) && recur::padded_from(cfg.holiday, from) <= b
            <= recur::padded_to(cfg.holiday, to);
    assert(recur::lands_from(rule, cfg, holidays, b, n));
    recur::lemma_moved(cfg.holiday, b, holidays);
}

/// A predicate that holds less often, on fewer days, matches fewer days.
proof fn lemma_fewer(
    lo: int,
    lo2: int,
    hi: int,
    p: spec_fn(int) -> bool,
    q: spec_fn(int) -> bool,
)
    requires
        lo2 <= lo,
        forall|n: int| lo <= n <= hi && #[trigger] p(n) ==> q(n),
    ensures
        days::matching_days(lo, hi, p).len() <= days::matching_days(lo2, hi, q).len(),
    decreases hi - lo + 1,
{
    if lo <= hi {
        lemma_fewer(lo, lo2, hi - 1, p, q);
    }
}

/// No window holds more than `count` due days.
pub proof fn law_count(rule: RuleView, cfg: RecurCfgView, holidays: Set<int>, from: int, to: int)
    requires
        cfg.start is Some,
        cfg.count is Some,
        0 <= cfg.count.unwrap(),
    ensures
        recur::due_days(rule, cfg, holidays, from, to).len() <= cfg.count.unwrap(),
{
    let p = |n: int| recur::is_due(rule, cfg, holidays, from, to, n);
    let q = |n: int| recur::takes_place(rule, cfg, holidays, n);
    let s = recur::due_days(rule, cfg, holidays, from, to);
    let start = cfg.start.unwrap();
    if s.len() > 0 {
        let last = s.len() - 1;
        let n = s[last];
        days::lemma_matching_rank(from, to, p, last);
        assert(p(n));
        assert forall|k: int| from <= k <= n - 1 && #[trigger] p(k) implies q(k) && start <= k by {
            lemma_due_takes_place(rule, cfg, holidays, from, to, k);
        }
        if start <= from {
            lemma_fewer(from, start, n - 1, p, q);
        } else {
            lemma_due_takes_place(rule, cfg, holidays, from, to, n);
            days::lemma_matching_split(from, start - 1, n - 1, p);
            assert(days::matching_days(from, start - 1, p).len() == 0) by {
                days::lemma_matching_days(from, start - 1, p);
                let front = days::matching_days(from, start - 1, p);
                if front.len() > 0 {
                    assert(front.contains(front[0]));
                }
            }
            lemma_fewer(start, start, n - 1, p, q);
        }
        assert(recur::counted_before(rule, cfg, holidays, start, n).len() < cfg.count.unwrap());
    }
}

/// `count` has no part in where occurrences take place.
pub proof fn lemma_count_aside(rule: RuleView, cfg: RecurCfgView, holidays: Set<int>, n: int)
    ensures
        recur::takes_place(rule, cfg, holidays, n) == recur::takes_place(
            rule,
            (RecurCfgView { count: None, ..cfg }),
            holidays,
            n,
        ),
{
    let cfg2 = RecurCfgView { count: None, ..cfg };
    assert forall|b: int|
        #![trigger recur::lands_from(rule, cfg, holidays, b, n)]
        #![trigger recur::lands_from(rule, cfg2, holidays, b, n)]
        recur::lands_from(rule, cfg, holidays, b, n) == recur::lands_from(
            rule,
            cfg2,
            holidays,
            b,
            n,
        ) by {
        assert(recur::is_base(rule, cfg, b) == recur::is_base(rule, cfg2, b));
    }
}

/// The first `n` entries of a list, or all if there are fewer.
pub open spec fn first_of(s: Seq<int>, n: int) -> Seq<int> {
    if s.len() > n {
        s.take(n)
    } else {
        s
    }
}

/// `count` keeps the first so many of the days that are due without it from
/// `start` on, however late the window begins. The window ends no later than is
/// counted, and far enough from the ends of the calendar for moves.
pub proof fn law_count_keeps_the_first(
    rule: RuleView,
    cfg: RecurCfgView,
    holidays: Set<int>,
    early: int,
    from: int,
    to: int,
)
    requires
        cfg.start is Some,
        cfg.count is Some,
        0 <= cfg.count.unwrap(),
        early <= cfg.start.unwrap(),
        to <= cfg.start.unwrap() + recur::COUNT_MAX_SPAN,
        calendar::in_calendar(early),
        calendar::in_calendar(from - recur::pad_of(cfg.holiday)),
        calendar::in_calendar(to + recur::pad_of(cfg.holiday)),
    ensures
        recur::due_days(rule, cfg, holidays, from, to) == days::within(
            first_of(
                recur::due_days(
                    rule,
                    (RecurCfgView { count: None, ..cfg }),
                    holidays,
                    early,
                    to,
                ),
                cfg.count.unwrap(),
            ),
            from,
            to,
        ),
{
    let pad = recur::pad_of(cfg.holiday);
    let start = cfg.start.unwrap();
    let count = cfg.count.unwrap();
    let cfg2 = RecurCfgView { count: None, ..cfg };
    let due = |n: int| recur::is_due(rule, cfg, holidays, from, to, n);
    let due2 = |n: int| recur::is_due(rule, cfg2, holidays, early, to, n);
    let place = |n: int| recur::takes_place(rule, cfg, holidays, n);
    let all = recur::due_days(rule, cfg2, holidays, early, to);
    let whole = days::matching_days(start, to, place);
    days::lemma_matching_days(early, to, due2);
    days::lemma_matching_days(start, to, place);
    assert forall|n: int| all.contains(n) <==> whole.contains(n) by {
        lemma_count_aside(rule, cfg, holidays, n);
        if n <= to {
            recur::lemma_lands_near(
                rule,
                cfg2,
                holidays,
                recur::padded_from(cfg.holiday, early),
                to + pad,
                n,
            );
        }
        assert(all.contains(n) <==> early <= n <= to && due2(n));
        assert(whole.contains(n) <==> start <= n <= to && place(n));
    }
    days::lemma_ascending_unique(all, whole);
    let first = first_of(whole, count);
    let kept = days::within(first, from, to);
    days::lemma_within(first, from, to);
    assert forall|n: int| #[trigger] kept.contains(n) <==> from <= n <= to && due(n) by {
        if from <= n <= to {
            recur::lemma_lands_near(rule, cfg, holidays, from - pad, to + pad, n);
            if due(n) {
                assert(place(n));
                assert(whole.contains(n));
                let i = choose|i: int| 0 <= i < whole.len() && whole[i] == n;
                days::lemma_matching_rank(start, to, place, i);
                assert(first[i] == n);
            }
            if first.contains(n) {
                let i = choose|i: int| 0 <= i < first.len() && first[i] == n;
                assert(whole[i] == n);
                days::lemma_matching_rank(start, to, place, i);
                assert(place(n));
            }
        }
    }
    days::lemma_is_matching_days(kept, from, to, due);
}

/// Without `start`, `count` makes no difference.
pub proof fn law_count_needs_start(
    rule: RuleView,
    cfg: RecurCfgView,
    holidays: Set<int>,
    from: int,
    to: int,
)
    requires
        cfg.start is None,
    ensures
        recur::due_days(rule, cfg, holidays, from, to) == recur::due_days(
            rule,
            (RecurCfgView { count: None, ..cfg }),
            holidays,
            from,
            to,
        ),
{
    let cfg2 = RecurCfgView { count: None, ..cfg };
    let p = |n: int| recur::is_due(rule, cfg, holidays, from, to, n);
    let q = |n: int| recur::is_due(rule, cfg2, holidays, from, to, n);
    assert forall|n: int| from <= n <= to implies #[trigger] p(n) == q(n) by {
        assert forall|b: int|
            #![trigger recur::lands_from(rule, cfg, holidays, b, n)]
            #![trigger recur::lands_from(rule, cfg2, holidays, b, n)]
            recur::lands_from(rule, cfg, holidays, b, n) == recur::lands_from(
                rule,
                cfg2,
                holidays,
                b,
                n,
            ) by {
            assert(recur::is_base(rule, cfg, b) == recur::is_base(rule, cfg2, b));
        }
    }
    days::lemma_matching_agree(from, to, p, q);
}

/// Without `start` every interval counts as 1.
pub proof fn law_interval_needs_start(p: JsonView)
    requires
        recur::cfg_of(p).start is None,
    ensures
        recur::cfg_of(p).interval == 1,
{
}

/// A weekly rule without weekdays, and a monthly one without days, is never
/// due.
pub proof fn law_empty_selection(
    rule: RuleView,
    cfg: RecurCfgView,
    holidays: Set<int>,
    from: int,
    to: int,
)
    requires
        rule == RuleView::Weekly(Seq::empty()) || rule == RuleView::MonthlyDays(
            Seq::empty(),
            false,
        ),
    ensures
        recur::due_days(rule, cfg, holidays, from, to) == Seq::<int>::empty(),
{
    let p = |n: int| recur::is_due(rule, cfg, holidays, from, to, n);
    assert forall|b: int| !recur::is_base(rule, cfg, b) by {
        if recur::is_base(rule, cfg, b) && rule is MonthlyDays {
            let (y, m) = choose|y: int, m: int|
                1 <= m <= 12 && #[trigger] recur::picks_in_month(rule, y, m, b);
            assert(recur::picks_in_month(rule, y, m, b));
            let listed: Seq<int> = Seq::empty();
            assert(recur::lists(listed, y, m, b));
            let i = choose|i: int| #[trigger] recur::lists_day(listed, i, y, m, b);
            assert(recur::lists_day(listed, i, y, m, b));
        }
    }
    let s = recur::due_days(rule, cfg, holidays, from, to);
    days::lemma_matching_days(from, to, p);
    if s.len() > 0 {
        assert(s.contains(s[0]));
        assert(p(s[0]));
        let b = choose|b: int| #[trigger]
            recur::lands_from(rule, cfg, holidays, b, s[0]) && recur::padded_from(
                cfg.holiday,
                from,
            ) <= b <= recur::padded_to(cfg.holiday, to);
        assert(recur::is_base(rule, cfg, b));
    }
    assert(s =~= Seq::<int>::empty());
}

/// `weekdaysOnly` reads as `holiday` `"skip"`: a daily rule is due on the same
/// days.
pub proof fn law_weekdays_only_is_skip(
    p: JsonView,
    q: JsonView,
    holidays: Set<int>,
    from: int,
    to: int,
)
    requires
        p.at("holiday"@).as_text() is None,
        p.at("weekdaysOnly"@) == JsonView::Bool(true),
        q.at("holiday"@) == JsonView::Text("skip"@),
        q.at("start"@) == p.at("start"@),
        q.at("until"@) == p.at("until"@),
        q.at("count"@) == p.at("count"@),
        q.at("interval"@) == p.at("interval"@),
    ensures
        recur::cfg_of(p) == recur::cfg_of(q),
        recur::occurrence_days("daily"@, p, holidays, from, to) == recur::occurrence_days(
            "daily"@,
            q,
            holidays,
            from,
            to,
        ),
{
}

/// One number in an array.
pub open spec fn single(value: JsonView) -> JsonView {
    JsonView::Array(seq![value])
}

proof fn lemma_single_number(value: JsonView)
    requires
        value.as_u64() is Some,
    ensures
        recur::low32s(seq![value]) == seq![recur::low32(value.as_u64().unwrap())],
{
    let items = seq![value];
    assert(items.drop_last() == Seq::<JsonView>::empty());
    assert(recur::low32s(items.drop_last()) == Seq::<int>::empty());
    assert(recur::low32s(items) =~= seq![recur::low32(value.as_u64().unwrap())]);
}

/// A single `weekday` reads as a list of one in `weekdays`: a weekly rule is
/// due on the same days.
pub proof fn law_single_weekday(p: JsonView, q: JsonView, holidays: Set<int>, from: int, to: int)
    requires
        p.at("weekdays"@).as_array() is None,
        p.at("weekday"@).as_u64() is Some,
        q.at("weekdays"@) == single(p.at("weekday"@)),
        recur::cfg_of(p) == recur::cfg_of(q),
    ensures
        recur::occurrence_days("weekly"@, p, holidays, from, to) == recur::occurrence_days(
            "weekly"@,
            q,
            holidays,
            from,
            to,
        ),
{
    lemma_single_number(p.at("weekday"@));
    assert(recur::weekdays_of(p) == recur::weekdays_of(q));
    assert(recur::rule_of("weekly"@, p) == recur::rule_of("weekly"@, q));
}

/// A single `day` reads as a list of one in `days`: a monthly rule is due on
/// the same days.
pub proof fn law_single_day(p: JsonView, q: JsonView, holidays: Set<int>, from: int, to: int)
    requires
        p.at("days"@).as_array() is None,
        p.at("day"@).as_u64() is Some,
        q.at("days"@) == single(p.at("day"@)),
        q.at("lastDay"@) == p.at("lastDay"@),
        !recur::nth_mode(p),
        !recur::nth_mode(q),
        recur::cfg_of(p) == recur::cfg_of(q),
    ensures
        recur::occurrence_days("monthly"@, p, holidays, from, to) == recur::occurrence_days(
            "monthly"@,
            q,
            holidays,
            from,
            to,
        ),
{
    lemma_single_number(p.at("day"@));
    assert(recur::month_days_of(p) =~= recur::month_days_of(q));
    reveal_strlit("daily");
    reveal_strlit("weekly");
    reveal_strlit("monthly");
    assert("weekly"@.len() != "monthly"@.len());
    assert(recur::rule_of("monthly"@, p) == recur::rule_of("monthly"@, q));
}

/// A rule for one date whose occurrences stay is due on that date alone, and
/// there exactly if the date lies in the window and in the rule's limits.
pub proof fn law_once(d: int, cfg: RecurCfgView, holidays: Set<int>, from: int, to: int, n: int)
    requires
        cfg.holiday is Keep,
        cfg.start is None || cfg.count is None,
        calendar::in_calendar(d),
    ensures
        recur::due_days(RuleView::Once(Some(d)), cfg, holidays, from, to).contains(n) <==> {
            &&& n == d
            &&& from <= d <= to
            &&& cfg.start matches Some(s) ==> s <= d
            &&& cfg.until matches Some(u) ==> d <= u
        },
{
    let rule = RuleView::Once(Some(d));
    let p = |k: int| recur::is_due(rule, cfg, holidays, from, to, k);
    days::lemma_matching_days(from, to, p);
    assert(recur::due_days(rule, cfg, holidays, from, to).contains(n) <==> from <= n <= to && p(n));
    if recur::lands_from(rule, cfg, holidays, d, d) {
        assert(recur::lands(rule, cfg, holidays, from, to, d) || !(from <= d <= to) || (
        cfg.until is Some && d > cfg.until.unwrap()));
    }
}

/// Every day that a monthly rule names has an occurrence in every month: a
/// month that is too short has it on its last day.
pub proof fn law_short_months(
    month_days: Seq<int>,
    last: bool,
    cfg: RecurCfgView,
    i: int,
    y: int,
    m: int,
)
    requires
        0 <= i < month_days.len(),
        1 <= month_days[i] <= 31,
        calendar::MIN_YEAR <= y <= calendar::MAX_YEAR,
        1 <= m <= 12,
        cfg.start is None || cfg.start.unwrap() <= recur::month_first(y, m),
    ensures
        recur::is_base(
            RuleView::MonthlyDays(month_days, last),
            cfg,
            calendar::day_number(
                y,
                m,
                if month_days[i] <= calendar::days_in_month(y, m) {
                    month_days[i]
                } else {
                    calendar::days_in_month(y, m)
                },
            ),
        ),
{
    let rule = RuleView::MonthlyDays(month_days, last);
    let n = recur::clamped_day(y, m, month_days[i]);
    assert(recur::lists_day(month_days, i, y, m, n));
    assert(recur::picks_in_month(rule, y, m, n));
    calendar::lemma_calendar_bounds(
        y,
        m,
        recur::clamp_int(month_days[i], 1, calendar::days_in_month(y, m)),
    );
}

/// The day that `nth_weekday` finds lies in the month and on the weekday; as
/// many days of the month up to it fall on that weekday as were asked for, or,
/// for the last one, none after it. It finds none exactly if the month has too
/// few.
pub proof fn law_nth_weekday(y: int, m: int, nth: int, wd: int)
    requires
        1 <= m <= 12,
        0 <= wd <= 6,
    ensures
        recur::nth_weekday(y, m, nth, wd) matches Some(n) ==> {
            &&& recur::month_first(y, m) <= n <= recur::month_last(y, m)
            &&& calendar::weekday(n) == wd
            &&& nth >= 1 ==> days::matching_days(
                recur::month_first(y, m),
                n,
                |k: int| calendar::weekday(k) == wd,
            ).len() == nth
            &&& nth == -1 ==> days::matching_days(
                n + 1,
                recur::month_last(y, m),
                |k: int| calendar::weekday(k) == wd,
            ).len() == 0
        },
        nth >= 1 ==> (recur::nth_weekday(y, m, nth, wd) is None <==> days::matching_days(
            recur::month_first(y, m),
            recur::month_last(y, m),
            |k: int| calendar::weekday(k) == wd,
        ).len() < nth),
{
    let first = recur::month_first(y, m);
    let last = recur::month_last(y, m);
    if nth == -1 {
        lemma_last_weekday(first, last, wd);
    } else if nth >= 1 {
        lemma_nth_weekday(first, last, wd, nth);
    }
}

/// Going back from `last`, the first day on a weekday comes within a week.
proof fn lemma_last_weekday(first: int, last: int, wd: int)
    requires
        0 <= wd <= 6,
        first + 6 <= last,
    ensures
        ({
            let n = last - (calendar::weekday(last) - wd) % 7;
            &&& first <= n <= last
            &&& calendar::weekday(n) == wd
            &&& days::matching_days(n + 1, last, |k: int| calendar::weekday(k) == wd).len() == 0
        }),
{
    let p = |k: int| calendar::weekday(k) == wd;
    let n = last - (calendar::weekday(last) - wd) % 7;
    lemma_no_match(n + 1, last, p);
}

/// Among the days from `first` to `last`, the `nth` day on a weekday is found
/// exactly if there are that many.
proof fn lemma_nth_weekday(first: int, last: int, wd: int, nth: int)
    requires
        0 <= wd <= 6,
        1 <= nth,
        first <= last,
    ensures
        ({
            let n = first + (wd - calendar::weekday(first)) % 7 + 7 * (nth - 1);
            let p = |k: int| calendar::weekday(k) == wd;
            &&& first <= n
            &&& calendar::weekday(n) == wd
            &&& days::matching_days(first, n, p).len() == nth
            &&& n > last <==> days::matching_days(first, last, p).len() < nth
        }),
{
    let p = |k: int| calendar::weekday(k) == wd;
    let n = first + (wd - calendar::weekday(first)) % 7 + 7 * (nth - 1);
    lemma_weekday_count(first, wd, nth);
    if n <= last {
        days::lemma_matching_split(first, n, last, p);
    } else {
        days::lemma_matching_split(first, last, n - 1, p);
        assert(days::matching_days(first, n, p) == days::matching_days(first, n - 1, p).push(n));
    }
}

/// The `nth` day from `first` on that falls on a weekday comes `nth - 1` weeks
/// after the first.
proof fn lemma_weekday_count(first: int, wd: int, nth: int)
    requires
        0 <= wd <= 6,
        1 <= nth,
    ensures
        ({
            let n = first + (wd - calendar::weekday(first)) % 7 + 7 * (nth - 1);
            &&& calendar::weekday(n) == wd
            &&& days::matching_days(first, n, |k: int| calendar::weekday(k) == wd).len() == nth
        }),
    decreases nth,
{
    let p = |k: int| calendar::weekday(k) == wd;
    let n = first + (wd - calendar::weekday(first)) % 7 + 7 * (nth - 1);
    if nth == 1 {
        lemma_first_weekday(first, wd);
        lemma_no_match(first, n - 1, p);
    } else {
        lemma_weekday_count(first, wd, nth - 1);
        lemma_week_between(n - 7);
        days::lemma_matching_split(first, n - 7, n - 1, p);
        lemma_no_match(n - 6, n - 1, p);
    }
}

/// From a day on, the first day on a weekday.
proof fn lemma_first_weekday(first: int, wd: int)
    requires
        0 <= wd <= 6,
    ensures
        ({
            let n = first + (wd - first % 7) % 7;
            &&& first <= n
            &&& n % 7 == wd
            &&& forall|k: int| first <= k < n ==> #[trigger] calendar::weekday(k) != wd
        }),
{
}

/// A weekday comes again after a week, not before.
proof fn lemma_week_between(n: int)
    ensures
        (n + 7) % 7 == n % 7,
        forall|k: int| n < k < n + 7 ==> #[trigger] calendar::weekday(k) != calendar::weekday(n),
{
}

proof fn lemma_no_match(lo: int, hi: int, p: spec_fn(int) -> bool)
    requires
        forall|k: int| lo <= k <= hi ==> !#[trigger] p(k),
    ensures
        days::matching_days(lo, hi, p).len() == 0,
    decreases hi - lo + 1,
{
    if lo <= hi {
        lemma_no_match(lo, hi - 1, p);
    }
}

} // verus!
