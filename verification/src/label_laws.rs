//! What holds of the wording of all recurrence rules.

use vstd::prelude::*;

use crate::calendar;
use crate::json::JsonView;
use crate::label;
use crate::recur;
use crate::recur::HolidayPolicy;
use crate::text;

verus! {

/// Whether a recurrence type is one of those that are known.
pub open spec fn is_known(recur_type: Seq<char>) -> bool {
    ||| recur_type == "daily"@
    ||| recur_type == "weekly"@
    ||| recur_type == "monthly"@
    ||| recur_type == "quarterly"@
    ||| recur_type == "yearly"@
    ||| recur_type == "once"@
}

/// The first part of a summary: how often a rule comes round, and on which days.
pub open spec fn summary_base(recur_type: Seq<char>, p: JsonView) -> Seq<char> {
    match label::detail_of(recur_type, p) {
        Some(d) => label::head_of(recur_type, recur::cfg_of(p)) + " "@ + d,
        None => label::head_of(recur_type, recur::cfg_of(p)),
    }
}

/// A further part of a summary, if there is one.
pub open spec fn appended(parts: Seq<Seq<char>>) -> Seq<char> {
    if parts.len() == 0 {
        Seq::empty()
    } else {
        " · "@ + parts[0]
    }
}

proof fn lemma_joined_push(parts: Seq<Seq<char>>, part: Seq<char>, sep: Seq<char>)
    requires
        parts.len() > 0,
    ensures
        text::joined(parts.push(part), sep) == text::joined(parts, sep) + (sep + part),
{
    assert(parts.push(part).drop_last() == parts);
    assert(text::joined(parts, sep) + sep + part =~= text::joined(parts, sep) + (sep + part));
}

proof fn lemma_joined_append(parts: Seq<Seq<char>>, more: Seq<Seq<char>>)
    requires
        parts.len() > 0,
        more.len() <= 1,
    ensures
        text::joined(parts + more, " · "@) == text::joined(parts, " · "@) + appended(more),
{
    if more.len() == 0 {
        assert(parts + more == parts);
        assert(text::joined(parts, " · "@) + appended(more) =~= text::joined(parts, " · "@));
    } else {
        assert(parts + more == parts.push(more[0]));
        lemma_joined_push(parts, more[0], " · "@);
    }
}

/// A summary is made of its first part, then the holiday policy, the last day and
/// the number of occurrences, each if there is one.
pub proof fn law_summary_parts(recur_type: Seq<char>, p: JsonView)
    ensures
        label::summary_text(recur_type, p) == summary_base(recur_type, p) + appended(
            label::holiday_text(recur::cfg_of(p).holiday),
        ) + appended(label::until_text(recur::cfg_of(p).until)) + appended(
            label::count_text(recur::cfg_of(p)),
        ),
{
    let cfg = recur::cfg_of(p);
    let first = seq![summary_base(recur_type, p)];
    let second = first + label::holiday_text(cfg.holiday);
    let third = second + label::until_text(cfg.until);
    lemma_joined_append(first, label::holiday_text(cfg.holiday));
    lemma_joined_append(second, label::until_text(cfg.until));
    lemma_joined_append(third, label::count_text(cfg));
    assert(text::joined(first, " · "@) == summary_base(recur_type, p));
}

/// Whether a text has no space in it.
spec fn spaceless(s: Seq<char>) -> bool {
    forall|i: int| 0 <= i < s.len() ==> s[i] != ' '
}

proof fn lemma_decimal_spaceless(n: nat)
    ensures
        spaceless(text::decimal(n)),
    decreases n,
{
    if n >= 10 {
        lemma_decimal_spaceless(n / 10);
    }
}

proof fn lemma_head_spaceless(recur_type: Seq<char>, p: JsonView)
    requires
        is_known(recur_type),
    ensures
        spaceless(label::head_of(recur_type, recur::cfg_of(p))),
{
    let cfg = recur::cfg_of(p);
    reveal_strlit("일마다");
    reveal_strlit("매일");
    reveal_strlit("주마다");
    reveal_strlit("매주");
    reveal_strlit("매월");
    reveal_strlit("매분기");
    reveal_strlit("매년");
    reveal_strlit("1회");
    lemma_decimal_spaceless(cfg.interval as nat);
}

/// The summary of a rule whose occurrences stay and have no end is its label with
/// the first separator as a space.
pub proof fn law_summary_of_label(recur_type: Seq<char>, p: JsonView)
    requires
        is_known(recur_type),
        recur::cfg_of(p).holiday is Keep,
        recur::cfg_of(p).until is None,
        recur::cfg_of(p).count is None || recur::cfg_of(p).start is None,
    ensures
        label::summary_text(recur_type, p) == text::replaced_first(
            label::label_text(recur_type, p),
            " · "@,
            " "@,
        ),
{
    let sep = " · "@;
    let head = label::head_of(recur_type, recur::cfg_of(p));
    let all = label::label_text(recur_type, p);
    law_summary_parts(recur_type, p);
    lemma_head_spaceless(recur_type, p);
    reveal_strlit(" · ");
    assert(sep.len() == 3 && sep[0] == ' ');
    assert forall|i: int| 0 <= i < head.len() implies !text::run_at(all, sep, i) by {
        assert(all[i] == head[i]);
        if text::run_at(all, sep, i) {
            assert(all.subrange(i, i + 3)[0] == all[i]);
        }
    }
    match label::detail_of(recur_type, p) {
        Some(d) => {
            let k = head.len() as int;
            assert(all == head + sep + d);
            assert(all.subrange(k, k + 3) =~= sep);
            assert(text::run_at(all, sep, k));
            assert(text::first_run_at(all, sep, k));
            let i = choose|i: int| text::first_run_at(all, sep, i);
            assert(i == k);
            assert(all.take(k) =~= head);
            assert(all.skip(k + 3) =~= d);
            assert(label::summary_text(recur_type, p) =~= head + " "@ + d);
        },
        None => {
            assert(all == head);
            assert(!text::has_run(all, sep)) by {
                if text::has_run(all, sep) {
                    let i = choose|i: int| #[trigger] text::run_at(all, sep, i);
                    assert(text::run_at(all, sep, i));
                }
            }
            assert(label::summary_text(recur_type, p) =~= head);
        },
    }
}

/// Whether two parameters are the same but for one member.
pub open spec fn same_but(p: JsonView, q: JsonView, key: Seq<char>) -> bool {
    forall|k: Seq<char>| k != key ==> #[trigger] p.at(k) == q.at(k)
}

/// The last day has no part in what else a parameter states.
proof fn lemma_same_but_until(recur_type: Seq<char>, p: JsonView, q: JsonView)
    requires
        same_but(p, q, "until"@),
    ensures
        label::detail_of(recur_type, p) == label::detail_of(recur_type, q),
        recur::cfg_of(q) == (recur::RecurCfgView {
            until: recur::date_at(q, "until"@),
            ..recur::cfg_of(p)
        }),
{
    let key = "until"@;
    reveal_strlit("until");
    reveal_strlit("holiday");
    reveal_strlit("weekdaysOnly");
    reveal_strlit("start");
    reveal_strlit("count");
    reveal_strlit("interval");
    reveal_strlit("weekdays");
    reveal_strlit("weekday");
    reveal_strlit("days");
    reveal_strlit("day");
    reveal_strlit("lastDay");
    reveal_strlit("mode");
    reveal_strlit("nth");
    reveal_strlit("monthOfQuarter");
    reveal_strlit("month");
    reveal_strlit("date");
    assert(key.len() == 5 && key[0] == 'u');
    assert("start"@[0] == 's' && "count"@[0] == 'c' && "month"@[0] == 'm');
    assert("holiday"@.len() == 7 && "weekdaysOnly"@.len() == 12 && "interval"@.len() == 8);
    assert("weekdays"@.len() == 8 && "weekday"@.len() == 7 && "days"@.len() == 4);
    assert("day"@.len() == 3 && "lastDay"@.len() == 7 && "mode"@.len() == 4);
    assert("nth"@.len() == 3 && "monthOfQuarter"@.len() == 14 && "date"@.len() == 4);
    assert(p.at("holiday"@) == q.at("holiday"@));
    assert(p.at("weekdaysOnly"@) == q.at("weekdaysOnly"@));
    assert(p.at("start"@) == q.at("start"@));
    assert(p.at("count"@) == q.at("count"@));
    assert(p.at("interval"@) == q.at("interval"@));
    assert(p.at("weekdays"@) == q.at("weekdays"@));
    assert(p.at("weekday"@) == q.at("weekday"@));
    assert(p.at("days"@) == q.at("days"@));
    assert(p.at("day"@) == q.at("day"@));
    assert(p.at("lastDay"@) == q.at("lastDay"@));
    assert(p.at("mode"@) == q.at("mode"@));
    assert(p.at("nth"@) == q.at("nth"@));
    assert(p.at("monthOfQuarter"@) == q.at("monthOfQuarter"@));
    assert(p.at("month"@) == q.at("month"@));
    assert(p.at("date"@) == q.at("date"@));
    assert(recur::month_days_of(p) =~= recur::month_days_of(q));
}

/// Stating a last day adds it at the end of a summary that counts nothing.
pub proof fn law_until_adds(recur_type: Seq<char>, p: JsonView, q: JsonView)
    requires
        same_but(p, q, "until"@),
        recur::date_at(p, "until"@) is None,
        recur::date_at(q, "until"@) is Some,
        recur::cfg_of(p).count is None || recur::cfg_of(p).start is None,
    ensures
        label::summary_text(recur_type, q) == label::summary_text(recur_type, p) + " · "@
            + calendar::date_text(recur::date_at(q, "until"@).unwrap()) + "까지"@,
{
    lemma_same_but_until(recur_type, p, q);
    law_summary_parts(recur_type, p);
    law_summary_parts(recur_type, q);
    assert(label::summary_text(recur_type, q) =~= label::summary_text(recur_type, p) + " · "@
        + calendar::date_text(recur::date_at(q, "until"@).unwrap()) + "까지"@);
}

/// The holiday policy has no part in what else a parameter states.
proof fn lemma_same_but_holiday(recur_type: Seq<char>, p: JsonView, q: JsonView)
    requires
        same_but(p, q, "holiday"@),
    ensures
        label::detail_of(recur_type, p) == label::detail_of(recur_type, q),
        recur::cfg_of(q) == (recur::RecurCfgView {
            holiday: recur::holiday_of(q),
            ..recur::cfg_of(p)
        }),
{
    let key = "holiday"@;
    reveal_strlit("until");
    reveal_strlit("holiday");
    reveal_strlit("start");
    reveal_strlit("count");
    reveal_strlit("interval");
    reveal_strlit("weekdays");
    reveal_strlit("weekday");
    reveal_strlit("days");
    reveal_strlit("day");
    reveal_strlit("lastDay");
    reveal_strlit("mode");
    reveal_strlit("nth");
    reveal_strlit("monthOfQuarter");
    reveal_strlit("month");
    reveal_strlit("date");
    assert(key.len() == 7 && key[0] == 'h');
    assert("weekday"@[0] == 'w' && "lastDay"@[0] == 'l');
    assert("until"@.len() == 5 && "start"@.len() == 5 && "count"@.len() == 5);
    assert("interval"@.len() == 8 && "weekdays"@.len() == 8 && "days"@.len() == 4);
    assert("day"@.len() == 3 && "mode"@.len() == 4 && "month"@.len() == 5);
    assert("nth"@.len() == 3 && "monthOfQuarter"@.len() == 14 && "date"@.len() == 4);
    assert(p.at("until"@) == q.at("until"@));
    assert(p.at("start"@) == q.at("start"@));
    assert(p.at("count"@) == q.at("count"@));
    assert(p.at("interval"@) == q.at("interval"@));
    assert(p.at("weekdays"@) == q.at("weekdays"@));
    assert(p.at("weekday"@) == q.at("weekday"@));
    assert(p.at("days"@) == q.at("days"@));
    assert(p.at("day"@) == q.at("day"@));
    assert(p.at("lastDay"@) == q.at("lastDay"@));
    assert(p.at("mode"@) == q.at("mode"@));
    assert(p.at("nth"@) == q.at("nth"@));
    assert(p.at("monthOfQuarter"@) == q.at("monthOfQuarter"@));
    assert(p.at("month"@) == q.at("month"@));
    assert(p.at("date"@) == q.at("date"@));
    assert(recur::month_days_of(p) =~= recur::month_days_of(q));
}

/// Stating a holiday policy adds its words right after the first part of a
/// summary, ahead of the last day and the number of occurrences.
pub proof fn law_holiday_adds(recur_type: Seq<char>, p: JsonView, q: JsonView)
    requires
        same_but(p, q, "holiday"@),
        recur::holiday_of(p) is Keep,
        !(recur::holiday_of(q) is Keep),
    ensures
        ({
            let base = summary_base(recur_type, p);
            let rest = appended(label::until_text(recur::cfg_of(p).until)) + appended(
                label::count_text(recur::cfg_of(p)),
            );
            let words = match recur::holiday_of(q) {
                HolidayPolicy::Before => "공휴일이면 직전 영업일"@,
                HolidayPolicy::After => "공휴일이면 다음 영업일"@,
                _ => "공휴일이면 건너뜀"@,
            };
            &&& label::summary_text(recur_type, p) == base + rest
            &&& label::summary_text(recur_type, q) == base + " · "@ + words + rest
        }),
{
    lemma_same_but_holiday(recur_type, p, q);
    law_summary_parts(recur_type, p);
    law_summary_parts(recur_type, q);
    let base = summary_base(recur_type, p);
    let until = appended(label::until_text(recur::cfg_of(p).until));
    let count = appended(label::count_text(recur::cfg_of(p)));
    let words = label::holiday_text(recur::holiday_of(q))[0];
    assert(summary_base(recur_type, q) == base);
    assert(label::summary_text(recur_type, p) =~= base + (until + count));
    assert(label::summary_text(recur_type, q) =~= base + " · "@ + words + (until + count));
}

} // verus!
