//! What holds of all statistics.

use vstd::prelude::*;

use crate::calendar;
use crate::checks;
use crate::days;
use crate::json;
use crate::model::CheckView;
use crate::model::TaskView;
use crate::recur;
use crate::recur_laws;
use crate::stats;
use crate::stats::TallyView;
use crate::today;
use crate::today_laws;

verus! {

// ── Tallies ─────────────────────────────────────────────

/// Two tallies as one.
pub open spec fn sum(a: TallyView, b: TallyView) -> TallyView {
    TallyView { done: a.done + b.done, total: a.total + b.total, skipped: a.skipped + b.skipped }
}

/// What one occurrence of a task on day `n` counts.
pub open spec fn one_occurrence(
    t: TaskView,
    noted: Map<checks::Key, CheckView>,
    n: int,
) -> TallyView {
    let key = (t.id, calendar::date_text(n));
    if noted.contains_key(key) && noted[key].status == "skip"@ {
        TallyView { done: 0, total: 0, skipped: 1 }
    } else if noted.contains_key(key) && noted[key].status == "done"@ {
        TallyView { done: 1, total: 1, skipped: 0 }
    } else {
        TallyView { done: 0, total: 1, skipped: 0 }
    }
}

/// The tally of a day is made of one occurrence of each task that is due on it
/// and existed then: one that was skipped counts only as skipped, any other as
/// one to do, and as done if it was.
pub proof fn law_tally_of_a_day(
    t: TaskView,
    holidays: Set<int>,
    noted: Map<checks::Key, CheckView>,
    n: int,
)
    ensures
        stats::tally_of(seq![t], holidays, noted, n, n) == if today_laws::due_of(
            t,
            holidays,
            n,
            n,
        ).contains(n) && (today_laws::born(t) matches Some(c) ==> c <= n) {
            one_occurrence(t, noted, n)
        } else {
            TallyView { done: 0, total: 0, skipped: 0 }
        },
{
    let from = today::not_before_creation(t, n);
    let due = today::task_days(t, holidays, from, n);
    let p = json::param_of(today::param_text(t));
    let rule = recur::rule_of(t.recur_type, p);
    let cfg = recur::cfg_of(p);
    let is_due = |k: int| recur::is_due(rule, cfg, holidays, from, n, k);
    assert(seq![t].drop_last() =~= Seq::<TaskView>::empty());
    assert(seq![t].last() == t);
    reveal_with_fuel(stats::tally_of, 2);
    reveal_with_fuel(stats::count_days, 2);
    days::lemma_matching_days(from, n, is_due);
    if from > n {
        assert(due.len() == 0);
    } else {
        assert(from == n);
        reveal_with_fuel(days::matching_days, 2);
        assert(due == if is_due(n) {
            Seq::<int>::empty().push(n)
        } else {
            Seq::<int>::empty()
        });
        if is_due(n) {
            assert(due.drop_last() =~= Seq::<int>::empty());
            assert(due.contains(n));
        }
    }
    reveal_strlit("skip");
    reveal_strlit("done");
    assert("skip"@[0] != "done"@[0]);
}

/// The tallies of two groups of tasks add up to that of all.
pub proof fn law_tally_of_groups(
    a: Seq<TaskView>,
    b: Seq<TaskView>,
    holidays: Set<int>,
    noted: Map<checks::Key, CheckView>,
    from: int,
    to: int,
)
    ensures
        stats::tally_of(a + b, holidays, noted, from, to) == sum(
            stats::tally_of(a, holidays, noted, from, to),
            stats::tally_of(b, holidays, noted, from, to),
        ),
    decreases b.len(),
{
    if b.len() == 0 {
        assert(a + b =~= a);
    } else {
        let t = b.last();
        let due = today::task_days(t, holidays, today::not_before_creation(t, from), to);
        law_tally_of_groups(a, b.drop_last(), holidays, noted, from, to);
        assert((a + b).drop_last() =~= a + b.drop_last());
        assert((a + b).last() == t);
        lemma_count_from(
            stats::tally_of(a, holidays, noted, from, to),
            stats::tally_of(b.drop_last(), holidays, noted, from, to),
            t,
            due,
            noted,
        );
    }
}

proof fn lemma_count_from(
    a: TallyView,
    b: TallyView,
    t: TaskView,
    due: Seq<int>,
    noted: Map<checks::Key, CheckView>,
)
    ensures
        stats::count_days(sum(a, b), t, due, noted) == sum(a, stats::count_days(b, t, due, noted)),
    decreases due.len(),
{
    if due.len() > 0 {
        lemma_count_from(a, b, t, due.drop_last(), noted);
    }
}

proof fn lemma_count_join(
    tally: TallyView,
    t: TaskView,
    a: Seq<int>,
    b: Seq<int>,
    noted: Map<checks::Key, CheckView>,
)
    ensures
        stats::count_days(tally, t, a + b, noted) == stats::count_days(
            stats::count_days(tally, t, a, noted),
            t,
            b,
            noted,
        ),
    decreases b.len(),
{
    if b.len() == 0 {
        assert(a + b =~= a);
    } else {
        assert((a + b).drop_last() =~= a + b.drop_last());
        assert((a + b).last() == b.last());
        lemma_count_join(tally, t, a, b.drop_last(), noted);
    }
}

/// The tallies of two adjoining windows add up to that of the whole. The window
/// lies far enough from the ends of the calendar for moves.
pub proof fn law_tally_of_windows(
    tasks: Seq<TaskView>,
    holidays: Set<int>,
    noted: Map<checks::Key, CheckView>,
    from: int,
    mid: int,
    to: int,
)
    requires
        from <= mid < to,
        calendar::in_calendar(from - recur::MOVE_LIMIT),
        calendar::in_calendar(to + recur::MOVE_LIMIT),
    ensures
        stats::tally_of(tasks, holidays, noted, from, to) == sum(
            stats::tally_of(tasks, holidays, noted, from, mid),
            stats::tally_of(tasks, holidays, noted, mid + 1, to),
        ),
    decreases tasks.len(),
{
    if tasks.len() > 0 {
        let t = tasks.last();
        let front = tasks.drop_last();
        let p = json::param_of(today::param_text(t));
        let rule = recur::rule_of(t.recur_type, p);
        let cfg = recur::cfg_of(p);
        let f1 = today::not_before_creation(t, from);
        let f2 = today::not_before_creation(t, mid + 1);
        let whole = today::task_days(t, holidays, f1, to);
        let early = today::task_days(t, holidays, f1, mid);
        let late = today::task_days(t, holidays, f2, to);
        law_tally_of_windows(front, holidays, noted, from, mid, to);
        if f1 <= mid {
            recur_laws::law_windows_join(rule, cfg, holidays, f1, mid, to);
        } else {
            assert(early =~= Seq::<int>::empty());
        }
        assert(whole =~= early + late);
        let a = stats::tally_of(front, holidays, noted, from, mid);
        let b = stats::tally_of(front, holidays, noted, mid + 1, to);
        lemma_count_join(sum(a, b), t, early, late, noted);
        assert(sum(a, b) == sum(b, a));
        lemma_count_from(b, a, t, early, noted);
        let a2 = stats::count_days(a, t, early, noted);
        assert(sum(b, a2) == sum(a2, b));
        lemma_count_from(a2, b, t, late, noted);
    }
}

// ── Streaks ─────────────────────────────────────────────

/// Whether all that was to be done on a day was done, and something was.
pub open spec fn all_done(
    tasks: Seq<TaskView>,
    holidays: Set<int>,
    noted: Map<checks::Key, CheckView>,
    d: int,
) -> bool {
    let tally = stats::tally_of(tasks, holidays, noted, d, d);
    tally.total > 0 && tally.done == tally.total
}

/// Whether something that was to be done on a day was not.
pub open spec fn missed(
    tasks: Seq<TaskView>,
    holidays: Set<int>,
    noted: Map<checks::Key, CheckView>,
    d: int,
) -> bool {
    let tally = stats::tally_of(tasks, holidays, noted, d, d);
    tally.done < tally.total
}

/// The streak is the number of days on which all was done that are later than
/// the last day before today on which something was missed. Days without work
/// neither count nor end it, nor does what is not finished today. `last` is that
/// day, or the day before those looked at if there is none.
pub proof fn law_streak_is_since_last_missed(
    tasks: Seq<TaskView>,
    holidays: Set<int>,
    noted: Map<checks::Key, CheckView>,
    today: int,
    left: nat,
    last: int,
)
    requires
        today - left <= last < today,
        last == today - left || missed(tasks, holidays, noted, last),
        forall|d: int| last < d < today ==> !#[trigger] missed(tasks, holidays, noted, d),
    ensures
        stats::streak(tasks, holidays, noted, today, today, left) == days::matching_days(
            last + 1,
            today,
            |d: int| all_done(tasks, holidays, noted, d),
        ).len(),
{
    lemma_streak(tasks, holidays, noted, today, today - left, last, today);
}

proof fn lemma_streak(
    tasks: Seq<TaskView>,
    holidays: Set<int>,
    noted: Map<checks::Key, CheckView>,
    today: int,
    first: int,
    last: int,
    d: int,
)
    requires
        first <= last <= d <= today,
        last < today,
        last == first || missed(tasks, holidays, noted, last),
        forall|k: int| last < k < today ==> !#[trigger] missed(tasks, holidays, noted, k),
    ensures
        stats::streak(tasks, holidays, noted, today, d, (d - first) as nat) == days::matching_days(
            last + 1,
            d,
            |k: int| all_done(tasks, holidays, noted, k),
        ).len(),
    decreases d - last,
{
    let p = |k: int| all_done(tasks, holidays, noted, k);
    let left = (d - first) as nat;
    stats::law_tally(tasks, holidays, noted, d, d);
    if d > last {
        lemma_streak(tasks, holidays, noted, today, first, last, d - 1);
        assert((left - 1) as nat == (d - 1 - first) as nat);
        assert(d == today || !missed(tasks, holidays, noted, d));
        let before = stats::streak(tasks, holidays, noted, today, d - 1, (left - 1) as nat);
        assert(stats::streak(tasks, holidays, noted, today, d, left) == if p(d) {
            before + 1
        } else {
            before
        });
        assert(days::matching_days(last + 1, d, p).len() == if p(d) {
            days::matching_days(last + 1, d - 1, p).len() + 1
        } else {
            days::matching_days(last + 1, d - 1, p).len()
        });
    } else {
        assert(days::matching_days(last + 1, d, p).len() == 0);
        assert(last == first || missed(tasks, holidays, noted, last));
        assert(stats::streak(tasks, holidays, noted, today, d, left) == 0);
    }
}

// ── Periods ─────────────────────────────────────────────

/// The week begins on the Monday on or before a day, the month on its first day,
/// the quarter on the first of January, April, July or October.
pub proof fn law_periods(y: int, m: int, d: int)
    requires
        calendar::is_civil(y, m, d),
    ensures
        ({
            let n = calendar::day_number(y, m, d);
            &&& calendar::monday_of(n) % 7 == 1
            &&& n - 6 <= calendar::monday_of(n) <= n
            &&& stats::first_of_month(n) == n - (d - 1)
            &&& stats::quarter_first(n) == calendar::day_number(
                y,
                if m <= 3 {
                    1
                } else if m <= 6 {
                    4
                } else if m <= 9 {
                    7
                } else {
                    10
                },
                1,
            )
        }),
{
    calendar::lemma_civil(y, m, d);
}

/// The month view has a cell for each day of the month, from the first to the
/// last, with the tally of that day.
pub proof fn law_month_cells(
    tasks: Seq<TaskView>,
    holidays: Set<int>,
    noted: Map<checks::Key, CheckView>,
    y: int,
    m: int,
    d: int,
    k: int,
)
    requires
        calendar::is_civil(y, m, d),
        calendar::is_civil(y, m, k),
    ensures
        ({
            let n = calendar::day_number(y, m, d);
            let cells = stats::month_cells(tasks, holidays, noted, n);
            let day = calendar::day_number(y, m, k);
            &&& cells.len() == calendar::days_in_month(y, m)
            &&& cells[k - 1].date == calendar::date_text(day)
            &&& cells[k - 1].tally == stats::tally_of(tasks, holidays, noted, day, day)
        }),
{
    calendar::lemma_civil(y, m, d);
}

} // verus!
