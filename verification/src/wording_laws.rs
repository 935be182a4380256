//! How rules are worded, by the members of their parameters.

use vstd::prelude::*;

use crate::calendar;
use crate::due_laws;
use crate::json::JsonView;
use crate::label;
use crate::label_laws;
use crate::recur;
use crate::text;

verus! {

/// The number that a member gives; 1 without it.
pub open spec fn number(p: JsonView, key: Seq<char>) -> nat {
    match p.at(key) {
        JsonView::Number(_, Some(n)) => n as nat,
        _ => 1,
    }
}

/// The interval that counts: that of the parameter with `start`, else 1.
pub open spec fn interval(p: JsonView) -> int {
    if due_laws::given_day(p, "start"@) is Some {
        due_laws::given_interval(p)
    } else {
        1
    }
}

/// Whether occurrences on weekends and holidays are dropped.
pub open spec fn drops(p: JsonView) -> bool {
    match p.at("holiday"@) {
        JsonView::Text(s) => s == "skip"@,
        _ => p.at("weekdaysOnly"@) == JsonView::Bool(true),
    }
}

/// The names of the days of the week, from Sunday on.
pub proof fn law_weekday_names(w: int)
    requires
        0 <= w <= 6,
    ensures
        label::weekday_name(w) == seq!["일월화수목금토"@[w]],
{
    reveal_strlit("일월화수목금토");
    reveal_strlit("일");
    reveal_strlit("월");
    reveal_strlit("화");
    reveal_strlit("수");
    reveal_strlit("목");
    reveal_strlit("금");
    reveal_strlit("토");
    assert(label::weekday_name(w) =~= seq!["일월화수목금토"@[w]]);
}

/// A daily rule is worded by its interval, and by working days if occurrences on
/// others are dropped.
pub proof fn law_daily_label(p: JsonView)
    ensures
        label::label_text("daily"@, p) == ({
            let often = if interval(p) > 1 {
                text::signed_decimal(interval(p)) + "일마다"@
            } else {
                "매일"@
            };
            if drops(p) {
                often + " · 평일만"@
            } else {
                often
            }
        }),
{
    reveal_strlit("skip");
    reveal_strlit("before");
    reveal_strlit("after");
    assert("skip"@.len() == 4 && "before"@.len() == 6 && "after"@.len() == 5);
}

/// A weekly rule is worded by its interval and the days of the week that it
/// lists, in their order.
pub proof fn law_weekly_label(p: JsonView, items: Seq<JsonView>, weekdays: Seq<int>)
    requires
        p.at("weekdays"@) == JsonView::Array(items),
        items.len() > 0,
        weekdays.len() == items.len(),
        forall|i: int|
            0 <= i < items.len() ==> 0 <= #[trigger] weekdays[i] <= 6 && due_laws::entry_is(
                items[i],
                weekdays[i],
            ),
    ensures
        label::label_text("weekly"@, p) == (if interval(p) > 1 {
            text::signed_decimal(interval(p)) + "주마다"@
        } else {
            "매주"@
        }) + " · "@ + text::joined(
            Seq::new(weekdays.len(), |i: int| label::weekday_name(weekdays[i])),
            "·"@,
        ),
{
    due_laws::lemma_type_names();
    lemma_listed(items, weekdays);
    lemma_all_kept(weekdays);
    assert(recur::weekdays_of(p) == weekdays);
    assert(label::weekday_names(weekdays) =~= Seq::new(
        weekdays.len(),
        |i: int| label::weekday_name(weekdays[i]),
    ));
}

proof fn lemma_listed(items: Seq<JsonView>, numbers: Seq<int>)
    requires
        numbers.len() == items.len(),
        forall|i: int|
            0 <= i < items.len() ==> due_laws::entry_is(items[i], #[trigger] numbers[i]),
    ensures
        recur::low32s(items) == numbers,
    decreases items.len(),
{
    if items.len() > 0 {
        let last = items.len() - 1;
        assert forall|i: int| 0 <= i < last implies due_laws::entry_is(
            items.drop_last()[i],
            #[trigger] numbers.drop_last()[i],
        ) by {
            assert(due_laws::entry_is(items[i], numbers[i]));
        }
        lemma_listed(items.drop_last(), numbers.drop_last());
        assert(due_laws::entry_is(items[last], numbers[last]));
        assert(recur::low32s(items) =~= numbers);
    } else {
        assert(recur::low32s(items) =~= numbers);
    }
}

proof fn lemma_all_kept(weekdays: Seq<int>)
    requires
        forall|i: int| 0 <= i < weekdays.len() ==> #[trigger] weekdays[i] <= 6,
    ensures
        recur::up_to_six(weekdays) == weekdays,
    decreases weekdays.len(),
{
    if weekdays.len() > 0 {
        assert(weekdays[weekdays.len() - 1] <= 6);
        lemma_all_kept(weekdays.drop_last());
        assert(recur::up_to_six(weekdays) =~= weekdays);
    }
}

/// A monthly rule is worded by the days of the month that it lists, in their
/// order, and by the last day if that is due too.
pub proof fn law_monthly_label(p: JsonView, items: Seq<JsonView>, month_days: Seq<int>)
    requires
        p.at("mode"@) != JsonView::Text("nth"@),
        p.at("days"@) == JsonView::Array(items),
        items.len() > 0,
        month_days.len() == items.len(),
        forall|i: int|
            0 <= i < items.len() ==> 1 <= #[trigger] month_days[i] <= 31 && due_laws::entry_is(
                items[i],
                month_days[i],
            ),
    ensures
        label::label_text("monthly"@, p) == "매월"@ + " · "@ + ({
            let listed = text::joined(
                Seq::new(month_days.len(), |i: int| text::decimal(month_days[i] as nat)),
                ", "@,
            ) + "일"@;
            if p.at("lastDay"@) == JsonView::Bool(true) {
                listed + ", "@ + "말일"@
            } else {
                listed
            }
        }),
{
    due_laws::lemma_type_names();
    lemma_listed(items, month_days);
    assert(recur::month_days_of(p) =~= month_days);
    assert(label::decimals(month_days) =~= Seq::new(
        month_days.len(),
        |i: int| text::decimal(month_days[i] as nat),
    ));
    let last = p.at("lastDay"@) == JsonView::Bool(true);
    let parts = label::month_days_parts(month_days, last);
    reveal_with_fuel(text::joined, 3);
    if last {
        assert(parts.drop_last() =~= seq![parts[0]]);
    }
}

/// A monthly rule that picks a day of the week is worded by which one and by its
/// name.
pub proof fn law_monthly_nth_label(p: JsonView)
    requires
        p.at("mode"@) == JsonView::Text("nth"@),
    ensures
        ({
            let nth = match p.at("nth"@) {
                JsonView::Number(Some(n), _) => n as int,
                _ => 1,
            };
            let which = if nth == -1 {
                "마지막"@
            } else if nth == 1 {
                "첫째"@
            } else if nth == 2 {
                "둘째"@
            } else if nth == 3 {
                "셋째"@
            } else if nth == 4 {
                "넷째"@
            } else if nth == 5 {
                "다섯째"@
            } else {
                text::signed_decimal(nth) + "번째"@
            };
            label::label_text("monthly"@, p) == "매월"@ + " · "@ + (which + " "@
                + label::weekday_name(number(p, "weekday"@) as int))
        }),
{
    due_laws::lemma_type_names();
}

/// A quarterly rule is worded by the month of the quarter and its day; a yearly
/// one by the month and its day; one for a date by the date.
pub proof fn law_dated_labels(p: JsonView)
    ensures
        label::label_text("quarterly"@, p) == "매분기"@ + " · "@ + (text::decimal(
            number(p, "monthOfQuarter"@),
        ) + "번째 달 "@ + text::decimal(number(p, "day"@)) + "일"@),
        label::label_text("yearly"@, p) == "매년"@ + " · "@ + (text::decimal(number(p, "month"@))
            + "/"@ + text::decimal(number(p, "day"@))),
        label::label_text("once"@, p) == match due_laws::given_day(p, "date"@) {
            Some(n) => "1회"@ + " · "@ + (text::decimal(calendar::civil(n).1 as nat) + "/"@
                + text::decimal(calendar::civil(n).2 as nat)),
            None => "1회"@,
        },
{
    due_laws::lemma_type_names();
}

/// A summary says, behind its first part, what becomes of occurrences on
/// weekends and holidays if they do not stay, then the last day, then how many
/// occurrences there are, each if the parameter says so.
pub proof fn law_summary(recur_type: Seq<char>, p: JsonView)
    ensures
        label::summary_text(recur_type, p) == label_laws::summary_base(recur_type, p) + (
        match p.at("holiday"@) {
            JsonView::Text(s) => if s == "skip"@ {
                " · "@ + "공휴일이면 건너뜀"@
            } else if s == "before"@ {
                " · "@ + "공휴일이면 직전 영업일"@
            } else if s == "after"@ {
                " · "@ + "공휴일이면 다음 영업일"@
            } else {
                Seq::empty()
            },
            _ => if p.at("weekdaysOnly"@) == JsonView::Bool(true) {
                " · "@ + "공휴일이면 건너뜀"@
            } else {
                Seq::empty()
            },
        }) + (match due_laws::given_day(p, "until"@) {
            Some(n) => " · "@ + (calendar::date_text(n) + "까지"@),
            None => Seq::empty(),
        }) + (if due_laws::counts(p) {
            " · "@ + (text::decimal(count(p)) + "회"@)
        } else {
            Seq::empty()
        }),
{
    label_laws::law_summary_parts(recur_type, p);
}

/// The number of occurrences that a parameter gives.
pub open spec fn count(p: JsonView) -> nat {
    match p.at("count"@) {
        JsonView::Number(_, Some(n)) => n as nat,
        _ => 0,
    }
}

} // verus!
