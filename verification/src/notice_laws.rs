//! What holds of summaries, reminders and the list of tasks.

use vstd::prelude::*;

use crate::calendar;
use crate::checks;
use crate::classify_laws;
use crate::due_laws;
use crate::json;
use crate::label;
use crate::model::CheckView;
use crate::model::OccurrenceView;
use crate::model::Setting;
use crate::model::TaskView;
use crate::notify;
use crate::notify::ReminderState;
use crate::pages;
use crate::pages::PendingView;
use crate::pages::PerTaskView;
use crate::recur;
use crate::recur_laws;
use crate::settings;
use crate::text;
use crate::today;
use crate::today_laws;

verus! {

// ── Pending work ────────────────────────────────────────

proof fn lemma_unchecked(list: Seq<OccurrenceView>) -> (left: Seq<int>)
    ensures
        left.len() == pages::unchecked(list).len(),
        classify_laws::ascends(left),
        forall|i: int| #[trigger]
            left.contains(i) <==> 0 <= i < list.len() && list[i].status == "none"@,
        forall|j: int|
            0 <= j < left.len() ==> #[trigger] pages::unchecked(list)[j] == list[left[j]],
    decreases list.len(),
{
    if list.len() == 0 {
        Seq::empty()
    } else {
        let front = list.drop_last();
        let last = list.len() - 1;
        let before = lemma_unchecked(front);
        assert forall|k: int| 0 <= k < before.len() implies 0 <= #[trigger] before[k] < last
            && list[before[k]] == front[before[k]] by {
            assert(before.contains(before[k]));
        }
        classify_laws::lemma_push(before, last);
        assert forall|i: int| 0 <= i < last implies front[i] == #[trigger] list[i] by {}
        if list.last().status == "none"@ {
            before.push(last)
        } else {
            before
        }
    }
}

/// What is still to be done is what is late and what of today has no note: it is
/// counted, what is late is named by task and due date, and the first two names
/// are given, those of what is late first. `left` gives the places in today's
/// list.
pub proof fn law_pending_work(overdue: Seq<OccurrenceView>, today: Seq<OccurrenceView>) -> (left:
    Seq<int>)
    ensures
        classify_laws::ascends(left),
        forall|i: int| #[trigger]
            left.contains(i) <==> 0 <= i < today.len() && today[i].status == "none"@,
        ({
            let s = pages::pending_of(overdue, today);
            &&& s.overdue == overdue.len()
            &&& s.total == overdue.len() + left.len()
            &&& s.overdue_keys.len() == overdue.len()
            &&& forall|j: int|
                0 <= j < overdue.len() ==> #[trigger] s.overdue_keys[j] == (
                    overdue[j].task_id,
                    overdue[j].due_date,
                )
            &&& s.sample_names.len() == if s.total < 2 {
                s.total
            } else {
                2
            }
            &&& forall|j: int|
                0 <= j < s.sample_names.len() ==> #[trigger] s.sample_names[j] == if j
                    < overdue.len() {
                    overdue[j].name
                } else {
                    today[left[j - overdue.len()]].name
                }
        }),
{
    let left = lemma_unchecked(today);
    let all = pages::names(overdue) + pages::names(pages::unchecked(today));
    let s = pages::pending_of(overdue, today);
    assert forall|j: int| 0 <= j < s.sample_names.len() implies #[trigger] s.sample_names[j] == if j
        < overdue.len() {
        overdue[j].name
    } else {
        today[left[j - overdue.len()]].name
    } by {
        assert(s.sample_names[j] == all[j]);
        if j >= overdue.len() {
            assert(pages::unchecked(today)[j - overdue.len()] == today[left[j - overdue.len()]]);
        }
    }
    left
}

// ── Tasks ───────────────────────────────────────────────

/// A task is done once and for all exactly if it is for one date and something
/// was noted of it on that date.
pub proof fn law_done_once(t: TaskView, noted: Map<checks::Key, CheckView>)
    ensures
        pages::is_done_once(t, noted) <==> {
            let p = match t.recur_param {
                Some(p) => json::param_of(p),
                None => json::param_of("{}"@),
            };
            &&& t.recur_type == "once"@
            &&& due_laws::given_day(p, "date"@) matches Some(n) && noted.contains_key(
                (t.id, calendar::date_text(n)),
            )
        },
{
}

/// The holidays are the days that some text names.
pub proof fn law_holidays(dates: Seq<Seq<char>>, n: int)
    ensures
        pages::named_days(dates).contains(n) <==> exists|i: int|
            0 <= i < dates.len() && calendar::parsed_date(#[trigger] dates[i]) == Some(n),
    decreases dates.len(),
{
    if dates.len() > 0 {
        let front = dates.drop_last();
        let last = dates.len() - 1;
        law_holidays(front, n);
        if exists|i: int|
            0 <= i < front.len() && calendar::parsed_date(#[trigger] front[i]) == Some(n) {
            let i = choose|i: int|
                0 <= i < front.len() && calendar::parsed_date(#[trigger] front[i]) == Some(n);
            assert(dates[i] == front[i]);
        }
        if exists|i: int|
            0 <= i < dates.len() && calendar::parsed_date(#[trigger] dates[i]) == Some(n) {
            let i = choose|i: int|
                0 <= i < dates.len() && calendar::parsed_date(#[trigger] dates[i]) == Some(n);
            if i < last {
                assert(front[i] == dates[i]);
            }
        }
        assert(dates[last] == dates.last());
    }
}

/// A task is to be reminded of today at the time it sets if it is due today and
/// nothing was noted of it; and of a due date ahead if it sets a number of days
/// from 1 to 30 and is due that many days ahead and not sooner.
pub proof fn law_per_task(
    t: TaskView,
    holidays: Set<int>,
    noted: Map<checks::Key, CheckView>,
    day: int,
)
    ensures
        ({
            let r = pages::per_task_of(t, holidays, noted, day);
            &&& r.task_id == t.id
            &&& r.name == t.name
            &&& r.today_notify_time == if today_laws::due_of(t, holidays, day, day).contains(day)
                && !noted.contains_key((t.id, calendar::date_text(day))) {
                t.notify_time
            } else {
                None
            }
            &&& forall|n: int, next: int|
                r.remind == Some((n, next)) <==> {
                    &&& t.remind_before matches Some(before) && before == n
                    &&& 1 <= n <= 30
                    &&& next == day + n
                    &&& #[trigger] today_laws::due_of(t, holidays, day + 1, day + n).contains(next)
                    &&& forall|k: int|
                        day < k < next ==> !#[trigger] today_laws::due_of(
                            t,
                            holidays,
                            day + 1,
                            day + n,
                        ).contains(k)
                }
        }),
{
    let r = pages::per_task_of(t, holidays, noted, day);
    today_laws::law_today_task(t, holidays, noted, day);
    assert forall|n: int, next: int|
        r.remind == Some((n, next)) <==> {
            &&& t.remind_before matches Some(before) && before == n
            &&& 1 <= n <= 30
            &&& next == day + n
            &&& #[trigger] today_laws::due_of(t, holidays, day + 1, day + n).contains(next)
            &&& forall|k: int|
                day < k < next ==> !#[trigger] today_laws::due_of(
                    t,
                    holidays,
                    day + 1,
                    day + n,
                ).contains(k)
        } by {
        let due = today_laws::due_of(t, holidays, day + 1, day + n);
        today_laws::lemma_due(t, holidays, day + 1, day + n);
        let p = json::param_of(today::param_text(t));
        recur_laws::law_ascending_in_window(
            recur::rule_of(t.recur_type, p),
            recur::cfg_of(p),
            holidays,
            day + 1,
            day + n,
        );
        if due.len() > 0 {
            assert(due.contains(due[0]));
            assert(day + 1 <= due[0] <= day + n);
        }
    }
}

// ── Notifications ───────────────────────────────────────

/// Whether a switch is on: it is set to `1`, or not set.
pub open spec fn switched_on(s: Seq<Setting>, key: Seq<char>) -> bool {
    settings::value_of(s, key) is None || settings::value_of(s, key) == Some("1"@)
}

/// The second of the day at which to notify: the one that is set, or nine
/// o'clock.
pub open spec fn set_second(time: Option<Seq<char>>) -> int {
    match time {
        Some(t) => match notify::clock_time(t) {
            Some(n) => n,
            None => 9int * 3600,
        },
        None => match notify::clock_time(Seq::empty()) {
            Some(n) => n,
            None => 9int * 3600,
        },
    }
}

/// The first names, separated by commas.
pub open spec fn some_names(names: Seq<Seq<char>>) -> Seq<char> {
    if names.len() == 1 {
        names[0]
    } else {
        names[0] + ", "@ + names[1]
    }
}

proof fn lemma_joined(parts: Seq<Seq<char>>, separator: Seq<char>)
    requires
        1 <= parts.len() <= 2,
    ensures
        text::joined(parts, separator) == if parts.len() == 1 {
            parts[0]
        } else {
            parts[0] + separator + parts[1]
        },
{
    reveal_with_fuel(text::joined, 3);
    if parts.len() == 2 {
        assert(parts.drop_last() =~= seq![parts[0]]);
    }
}

/// The words of a summary: how much is late, if anything is, and the first
/// names.
pub proof fn law_summary_words(s: PendingView)
    requires
        s.sample_names.len() <= 2,
    ensures
        s.overdue > 0 && s.sample_names.len() > 0 ==> notify::summary_words(s) == "밀림 "@
            + text::signed_decimal(s.overdue) + "건"@ + " · "@ + some_names(s.sample_names),
        s.overdue <= 0 && s.sample_names.len() > 0 ==> notify::summary_words(s) == some_names(
            s.sample_names,
        ),
        s.sample_names.len() > 0 ==> notify::overdue_words(s) == "밀림 "@ + text::signed_decimal(
            s.overdue,
        ) + "건"@ + " · "@ + some_names(s.sample_names),
{
    let parts = notify::summary_parts(s);
    if s.sample_names.len() > 0 {
        lemma_joined(s.sample_names, ", "@);
        lemma_joined(parts, " · "@);
    }
}

/// The daily summary is shown exactly if it is switched on, its time has come,
/// it was not shown today, and something is to be done; its title says how much.
pub proof fn law_summary(s: Seq<Setting>, pending: PendingView, now: int, today: Seq<char>)
    ensures
        notify::summary_due(s, pending, now, today) is Some <==> {
            &&& switched_on(s, "notify_enabled"@)
            &&& set_second(settings::value_of(s, "notify_time"@)) <= now
            &&& settings::value_of(s, "last_notify_date"@) != Some(today)
            &&& pending.total != 0
        },
        notify::summary_due(s, pending, now, today) matches Some(toast) ==> toast.0
            == "오늘 미체크 업무 "@ + text::signed_decimal(pending.total) + "건"@ && toast.1
            == notify::summary_words(pending),
{
}

/// What is late is shown at the start exactly if that is switched on and
/// something is late.
pub proof fn law_start(s: Seq<Setting>, pending: PendingView)
    ensures
        notify::start_due(s, pending) is Some <==> switched_on(s, "notify_on_overdue"@)
            && pending.overdue > 0,
        notify::start_due(s, pending) matches Some(toast) ==> toast.0 == "밀린 업무 "@
            + text::signed_decimal(pending.overdue) + "건"@ && toast.1 == notify::overdue_words(
            pending,
        ),
{
}

/// What has become late is shown exactly if that is switched on and something
/// is late that was not before; its title says how much.
pub proof fn law_new_late(s: Seq<Setting>, pending: PendingView, known: Set<checks::Key>)
    ensures
        notify::new_late_due(s, pending, known) is Some <==> switched_on(s, "notify_on_overdue"@)
            && exists|i: int|
            0 <= i < pending.overdue_keys.len() && !known.contains(
                #[trigger] pending.overdue_keys[i],
            ),
        notify::new_late_due(s, pending, known) matches Some(toast) ==> toast.0
            == "새 밀린 업무 "@ + text::signed_decimal(
            Set::new(
                |k: checks::Key| pending.overdue_keys.contains(k) && !known.contains(k),
            ).len() as int,
        ) + "건"@ && toast.1 == notify::overdue_words(pending),
{
    let late = pending.overdue_keys;
    let fresh = late.to_set().difference(known);
    late.lemma_cardinality_of_set();
    vstd::seq_lib::seq_to_set_is_finite(late);
    assert(fresh =~= Set::new(|k: checks::Key| late.contains(k) && !known.contains(k)));
    if fresh.len() > 0 {
        let k = fresh.choose();
        assert(fresh.contains(k));
        assert(late.contains(k));
        let i = choose|i: int| 0 <= i < late.len() && late[i] == k;
        assert(!known.contains(late[i]));
    }
    if exists|i: int| 0 <= i < late.len() && !known.contains(#[trigger] late[i]) {
        let i = choose|i: int| 0 <= i < late.len() && !known.contains(#[trigger] late[i]);
        assert(late.contains(late[i]));
        assert(fresh.contains(late[i]));
        if fresh.len() == 0 {
            assert(fresh =~= Set::empty());
        }
    }
}

/// The reminders of two groups of tasks are those of the first, then those of
/// the second.
pub proof fn law_reminders_join(
    state: ReminderState,
    a: Seq<PerTaskView>,
    b: Seq<PerTaskView>,
    now: int,
    ready: bool,
    today: Seq<char>,
)
    ensures
        notify::after_items(state, a + b, now, ready, today) == notify::after_items(
            notify::after_items(state, a, now, ready, today),
            b,
            now,
            ready,
            today,
        ),
    decreases b.len(),
{
    if b.len() == 0 {
        assert(a + b =~= a);
    } else {
        assert((a + b).drop_last() =~= a + b.drop_last());
        assert((a + b).last() == b.last());
        law_reminders_join(state, a, b.drop_last(), now, ready, today);
    }
}

/// A task is reminded of today if its time has come and it was not today; then
/// of a due date ahead if the time for that has come and it was not today. What
/// is shown is noted, and nothing else is.
pub proof fn law_reminders_of_task(
    state: ReminderState,
    item: PerTaskView,
    now: int,
    ready: bool,
    today: Seq<char>,
)
    ensures
        ({
            let r = notify::after_items(state, seq![item], now, ready, today);
            let key = (item.task_id, today);
            let due = item.today_notify_time is Some && set_second(item.today_notify_time) <= now
                && !state.sent.contains(key);
            let ahead = item.remind is Some && ready && !state.reminded.contains(key);
            let first = if due {
                state.titles.push("「"@ + item.name + "」 체크할 시간입니다"@)
            } else {
                state.titles
            };
            &&& r.titles == if ahead {
                first.push(
                    "「"@ + item.name + "」 — "@ + text::signed_decimal(item.remind.unwrap().0)
                        + "일 후("@ + label::month_and_day(item.remind.unwrap().1) + ") 기한"@,
                )
            } else {
                first
            }
            &&& r.sent == if due {
                state.sent.insert(key)
            } else {
                state.sent
            }
            &&& r.reminded == if ahead {
                state.reminded.insert(key)
            } else {
                state.reminded
            }
        }),
{
    assert(seq![item].drop_last() =~= Seq::<PerTaskView>::empty());
    assert(seq![item].last() == item);
    reveal_with_fuel(notify::after_items, 2);
}

} // verus!
