//! What is late, what is due today and what comes next.

use vstd::prelude::*;

use crate::calendar;
use crate::calendar::Date;
use crate::checks;
use crate::checks::Checks;
use crate::days;
use crate::days::DateSet;
use crate::json;
use crate::label;
use crate::model;
use crate::model::CheckInfo;
use crate::model::CheckView;
use crate::model::OccurrenceView;
use crate::model::Task;
use crate::model::TaskOccurrence;
use crate::model::TaskView;
use crate::ranking;
use crate::ranking::Ranked;
use crate::recur;
use crate::text;

verus! {

/// How many days back late occurrences are looked for.
pub const PAST_DAYS: i32 = 120;

/// How many days ahead upcoming occurrences are looked for.
pub const UPCOMING_DAYS: i32 = 14;

/// How many tasks can be counted.
pub const MAX_TASKS: usize = 0xffff_ffff;

// ── Occurrences: model ──────────────────────────────────

/// The recurrence parameter of a task.
pub open spec fn param_text(t: TaskView) -> Seq<char> {
    match t.recur_param {
        Some(p) => p,
        None => "{}"@,
    }
}

/// The due days of a task from `from` to `to`.
pub open spec fn task_days(t: TaskView, holidays: Set<int>, from: int, to: int) -> Seq<int> {
    recur::occurrence_days(t.recur_type, json::param_of(param_text(t)), holidays, from, to)
}

/// The day on which a task was created, if it is known.
pub open spec fn created_day(t: TaskView) -> Option<int> {
    match t.created_at {
        Some(s) => match text::byte_prefix(s, 10) {
            Some(p) => calendar::parsed_date(p),
            None => None,
        },
        None => None,
    }
}

/// `from`, or the day on which the task was created if that is later.
pub open spec fn not_before_creation(t: TaskView, from: int) -> int {
    match created_day(t) {
        Some(c) => if c > from {
            c
        } else {
            from
        },
        None => from,
    }
}

/// The occurrence of task `t` on day `n`.
pub open spec fn key_on(t: TaskView, n: int) -> checks::Key {
    (t.id, calendar::date_text(n))
}

/// What was noted of the occurrence of task `t` on day `n`.
pub open spec fn noted_on(noted: Map<checks::Key, CheckView>, t: TaskView, n: int) -> Option<
    CheckView,
> {
    if noted.contains_key(key_on(t, n)) {
        Some(noted[key_on(t, n)])
    } else {
        None
    }
}

/// An occurrence as it is shown.
pub open spec fn occurrence(
    t: TaskView,
    n: int,
    check: Option<CheckView>,
    days_late: int,
    upcoming_label: Option<Seq<char>>,
) -> OccurrenceView {
    let status = match check {
        Some(c) => c.status,
        None => "none"@,
    };
    OccurrenceView {
        task_id: t.id,
        name: t.name,
        memo: t.memo,
        links: t.links,
        recur_type: t.recur_type,
        recur_param: t.recur_param,
        due_date: calendar::date_text(n),
        rule_label: label::label_text(t.recur_type, json::param_of(param_text(t))),
        status,
        checked: status == "done"@,
        check_memo: match check {
            Some(c) => c.memo,
            None => None,
        },
        days_late,
        upcoming_label,
        priority: t.priority,
    }
}

/// Today's occurrence of a task, checked or not. `due` are its due days today.
pub open spec fn today_among(
    t: TaskView,
    due: Seq<int>,
    noted: Map<checks::Key, CheckView>,
    today: int,
) -> Option<OccurrenceView> {
    if due.len() > 0 {
        Some(occurrence(t, today, noted_on(noted, t, today), 0, None))
    } else {
        None
    }
}

/// Today's occurrence of a task, checked or not.
pub open spec fn today_occurrence(
    t: TaskView,
    holidays: Set<int>,
    noted: Map<checks::Key, CheckView>,
    today: int,
) -> Option<OccurrenceView> {
    today_among(t, task_days(t, holidays, today, today), noted, today)
}

/// The late occurrence of a task: that of its last due day before today, if
/// nothing was noted of it; ranked by how late it is, the latest first. `past`
/// are its due days before today.
pub open spec fn late_among(
    t: TaskView,
    past: Seq<int>,
    noted: Map<checks::Key, CheckView>,
    today: int,
) -> Option<(int, OccurrenceView)> {
    if past.len() > 0 && noted_on(noted, t, past.last()) is None {
        Some(
            (
                past.last() - today,
                occurrence(t, past.last(), None, today - past.last(), None),
            ),
        )
    } else {
        None
    }
}

/// The late occurrence of a task, looked for up to `PAST_DAYS` back and not
/// before the task was created.
pub open spec fn late_occurrence(
    t: TaskView,
    holidays: Set<int>,
    noted: Map<checks::Key, CheckView>,
    today: int,
) -> Option<(int, OccurrenceView)> {
    late_among(
        t,
        task_days(t, holidays, not_before_creation(t, today - PAST_DAYS), today - 1),
        noted,
        today,
    )
}

/// The wording of an upcoming occurrence.
pub open spec fn upcoming_text(recur_type: Seq<char>, n: int) -> Seq<char> {
    label::short_text(recur_type) + " · "@ + label::month_and_day(n) + " 예정"@
}

/// The next occurrence of a task; ranked by its day. Daily tasks have none.
/// `ahead` are its due days after today.
pub open spec fn next_among(t: TaskView, ahead: Seq<int>) -> Option<(int, OccurrenceView)> {
    if t.recur_type != "daily"@ && ahead.len() > 0 {
        Some(
            (
                ahead[0],
                occurrence(t, ahead[0], None, 0, Some(upcoming_text(t.recur_type, ahead[0]))),
            ),
        )
    } else {
        None
    }
}

/// The next occurrence of a task after today, up to `UPCOMING_DAYS` ahead.
pub open spec fn next_occurrence(t: TaskView, holidays: Set<int>, today: int) -> Option<
    (int, OccurrenceView),
> {
    next_among(t, task_days(t, holidays, today + 1, today + UPCOMING_DAYS))
}

/// A list with one more entry, if there is one.
pub open spec fn with_any<T>(s: Seq<T>, x: Option<T>) -> Seq<T> {
    match x {
        Some(x) => s.push(x),
        None => s,
    }
}

/// Today's occurrences, in the order of the tasks.
pub open spec fn today_list(
    tasks: Seq<TaskView>,
    holidays: Set<int>,
    noted: Map<checks::Key, CheckView>,
    today: int,
) -> Seq<OccurrenceView>
    decreases tasks.len(),
{
    if tasks.len() == 0 {
        Seq::empty()
    } else {
        with_any(
            today_list(tasks.drop_last(), holidays, noted, today),
            today_occurrence(tasks.last(), holidays, noted, today),
        )
    }
}

/// The late occurrences, in the order of the tasks.
pub open spec fn late_list(
    tasks: Seq<TaskView>,
    holidays: Set<int>,
    noted: Map<checks::Key, CheckView>,
    today: int,
) -> Seq<(int, OccurrenceView)>
    decreases tasks.len(),
{
    if tasks.len() == 0 {
        Seq::empty()
    } else {
        with_any(
            late_list(tasks.drop_last(), holidays, noted, today),
            late_occurrence(tasks.last(), holidays, noted, today),
        )
    }
}

/// The upcoming occurrences, in the order of the tasks.
pub open spec fn next_list(tasks: Seq<TaskView>, holidays: Set<int>, today: int) -> Seq<
    (int, OccurrenceView),
>
    decreases tasks.len(),
{
    if tasks.len() == 0 {
        Seq::empty()
    } else {
        with_any(
            next_list(tasks.drop_last(), holidays, today),
            next_occurrence(tasks.last(), holidays, today),
        )
    }
}

/// The late occurrences, the latest first.
pub open spec fn overdue_list(
    tasks: Seq<TaskView>,
    holidays: Set<int>,
    noted: Map<checks::Key, CheckView>,
    today: int,
) -> Seq<OccurrenceView> {
    ranking::entries(ranking::ranked(late_list(tasks, holidays, noted, today)))
}

/// The upcoming occurrences, the next first.
pub open spec fn upcoming_list(tasks: Seq<TaskView>, holidays: Set<int>, today: int) -> Seq<
    OccurrenceView,
> {
    ranking::entries(ranking::ranked(next_list(tasks, holidays, today)))
}

// ── Occurrences ─────────────────────────────────────────

/// The due dates of a task from `from` to `to`.
pub fn occurrences_of(t: &Task, holidays: &DateSet, from: Date, to: Date) -> (r: Vec<Date>)
    ensures
        days::numbers(r@) == task_days(t.view(), holidays@, from@, to@),
{
    match &t.recur_param {
        Some(p) => recur::occurrences_between(
            t.recur_type.as_str(),
            p.as_str(),
            from,
            to,
            holidays,
        ),
        None => recur::occurrences_between(t.recur_type.as_str(), "{}", from, to, holidays),
    }
}

/// The date on which a task was created, if it is known.
pub fn created_date(t: &Task) -> (r: Option<Date>)
    ensures
        recur::opt_day(r) == created_day(t.view()),
{
    match &t.created_at {
        Some(s) => match text::text_prefix(s.as_str(), 10) {
            Some(p) => Date::parse(p.as_str()),
            None => None,
        },
        None => None,
    }
}

/// `from`, or the date on which the task was created if that is later.
pub fn clamp_from(t: &Task, from: Date) -> (r: Date)
    ensures
        r@ == not_before_creation(t.view(), from@),
{
    match created_date(t) {
        Some(c) => if c.days() > from.days() {
            c
        } else {
            from
        },
        None => from,
    }
}

/// An occurrence as it is shown.
pub fn make_occ(
    t: &Task,
    due: &Date,
    check: Option<&CheckInfo>,
    days_late: i64,
    upcoming_label: Option<String>,
) -> (r: TaskOccurrence)
    ensures
        r.view() == occurrence(
            t.view(),
            due@,
            match check {
                Some(c) => Some(c.view()),
                None => None,
            },
            days_late as int,
            text::opt_text(upcoming_label),
        ),
{
    let rule_label = match &t.recur_param {
        Some(p) => label::rule_label(t.recur_type.as_str(), p.as_str()),
        None => label::rule_label(t.recur_type.as_str(), "{}"),
    };
    let (status, check_memo) = match check {
        Some(c) => (c.status.clone(), text::copy_opt(&c.memo)),
        None => ("none".to_owned(), None),
    };
    let checked = status.as_str().eq("done");
    TaskOccurrence {
        task_id: t.id,
        name: t.name.clone(),
        memo: text::copy_opt(&t.memo),
        links: text::copy_opt(&t.links),
        recur_type: t.recur_type.clone(),
        recur_param: text::copy_opt(&t.recur_param),
        due_date: due.to_text(),
        rule_label,
        status,
        checked,
        check_memo,
        days_late,
        upcoming_label,
        priority: t.priority,
    }
}

/// What was noted of the occurrence of a task on a date.
pub fn find_check<'a>(noted: &'a Checks, t: &Task, due: &Date) -> (r: Option<&'a CheckInfo>)
    ensures
        (match r {
            Some(c) => Some(c.view()),
            None => None::<CheckView>,
        }) == noted_on(noted@, t.view(), due@),
{
    let key = due.to_text();
    noted.find(t.id, key.as_str())
}

/// Today's occurrence of a task whose due dates today are `due`.
pub fn today_of(t: &Task, due: &Vec<Date>, noted: &Checks, today: Date) -> (r: Option<
    TaskOccurrence,
>)
    ensures
        (match r {
            Some(o) => Some(o.view()),
            None => None::<OccurrenceView>,
        }) == today_among(t.view(), days::numbers(due@), noted@, today@),
{
    if due.len() == 0 {
        return None;
    }
    let check = find_check(noted, t, &today);
    Some(make_occ(t, &today, check, 0, None))
}

/// The late occurrence of a task whose due dates before today are `past`.
pub fn late_of(t: &Task, past: &Vec<Date>, noted: &Checks, today: Date) -> (r: Option<Ranked>)
    ensures
        (match r {
            Some(o) => Some((o.rank as int, o.occurrence.view())),
            None => None::<(int, OccurrenceView)>,
        }) == late_among(t.view(), days::numbers(past@), noted@, today@),
{
    if past.len() == 0 {
        return None;
    }
    let last = past[past.len() - 1];
    assert(days::numbers(past@).last() == last@);
    match find_check(noted, t, &last) {
        Some(_) => None,
        None => {
            let days_late: i64 = today.days() as i64 - last.days() as i64;
            Some(Ranked { rank: -days_late, occurrence: make_occ(t, &last, None, days_late, None) })
        },
    }
}

/// The next occurrence of a task whose due dates after today are `ahead`.
pub fn next_of(t: &Task, ahead: &Vec<Date>) -> (r: Option<Ranked>)
    ensures
        (match r {
            Some(o) => Some((o.rank as int, o.occurrence.view())),
            None => None::<(int, OccurrenceView)>,
        }) == next_among(t.view(), days::numbers(ahead@)),
{
    if t.recur_type.as_str().eq("daily") || ahead.len() == 0 {
        return None;
    }
    let first = ahead[0];
    assert(days::numbers(ahead@)[0] == first@);
    let mut wording = text::concat3(
        label::short_recur(t.recur_type.as_str()),
        " · ",
        label::month_day_label(&first).as_str(),
    );
    wording.append(" 예정");
    Some(
        Ranked {
            rank: first.days() as i64,
            occurrence: make_occ(t, &first, None, 0, Some(wording)),
        },
    )
}

/// The late occurrences, the latest first, and today's, checked or not.
pub fn compute_overdue_today(
    tasks: &Vec<Task>,
    holidays: &DateSet,
    noted: &Checks,
    today: Date,
) -> (r: (Vec<TaskOccurrence>, Vec<TaskOccurrence>))
    requires
        calendar::in_calendar(today@ - PAST_DAYS),
    ensures
        model::occurrence_views(r.0@) == overdue_list(
            model::task_views(tasks@),
            holidays@,
            noted@,
            today@,
        ),
        model::occurrence_views(r.1@) == today_list(
            model::task_views(tasks@),
            holidays@,
            noted@,
            today@,
        ),
{
    let ghost all = model::task_views(tasks@);
    let today_n: i32 = today.days();
    let oldest = Date::from_days(today_n - PAST_DAYS);
    let yesterday = Date::from_days(today_n - 1);
    let mut overdue: Vec<Ranked> = Vec::new();
    let mut today_occ: Vec<TaskOccurrence> = Vec::new();
    let mut i: usize = 0;
    assert(ranking::ranked_views(overdue@) =~= ranking::ranked(
        late_list(all.take(0), holidays@, noted@, today@),
    ));
    assert(model::occurrence_views(today_occ@) =~= today_list(
        all.take(0),
        holidays@,
        noted@,
        today@,
    ));
    while i < tasks.len()
        invariant
            oldest@ == today@ - PAST_DAYS,
            yesterday@ == today@ - 1,
            all == model::task_views(tasks@),
            i <= tasks.len(),
            ranking::ranked_views(overdue@) == ranking::ranked(
                late_list(all.take(i as int), holidays@, noted@, today@),
            ),
            model::occurrence_views(today_occ@) == today_list(
                all.take(i as int),
                holidays@,
                noted@,
                today@,
            ),
        decreases tasks.len() - i,
    {
        let ghost before = model::occurrence_views(today_occ@);
        let ghost late_before = late_list(all.take(i as int), holidays@, noted@, today@);
        proof {
            assert(all.take(i + 1).drop_last() == all.take(i as int));
            assert(all.take(i + 1).last() == tasks@[i as int].view());
        }
        let t = &tasks[i];
        let due = occurrences_of(t, holidays, today, today);
        if let Some(o) = today_of(t, &due, noted, today) {
            let ghost x = o.view();
            today_occ.push(o);
            assert(model::occurrence_views(today_occ@) =~= before.push(x));
        }
        let past = occurrences_of(t, holidays, clamp_from(t, oldest), yesterday);
        if let Some(o) = late_of(t, &past, noted, today) {
            proof {
                let x = (o.rank as int, o.occurrence.view());
                assert(late_before.push(x).drop_last() == late_before);
            }
            ranking::rank_occurrence(&mut overdue, o);
        }
        i += 1;
    }
    assert(all.take(i as int) == all);
    (ranking::unranked(overdue), today_occ)
}

/// The upcoming occurrences, the next first.
pub fn compute_upcoming(tasks: &Vec<Task>, holidays: &DateSet, today: Date) -> (r: Vec<
    TaskOccurrence,
>)
    requires
        calendar::in_calendar(today@ + UPCOMING_DAYS),
    ensures
        model::occurrence_views(r@) == upcoming_list(
            model::task_views(tasks@),
            holidays@,
            today@,
        ),
{
    let ghost all = model::task_views(tasks@);
    let today_n: i32 = today.days();
    let tomorrow = Date::from_days(today_n + 1);
    let latest = Date::from_days(today_n + UPCOMING_DAYS);
    let mut next: Vec<Ranked> = Vec::new();
    let mut i: usize = 0;
    assert(ranking::ranked_views(next@) =~= ranking::ranked(
        next_list(all.take(0), holidays@, today@),
    ));
    while i < tasks.len()
        invariant
            tomorrow@ == today@ + 1,
            latest@ == today@ + UPCOMING_DAYS,
            all == model::task_views(tasks@),
            i <= tasks.len(),
            ranking::ranked_views(next@) == ranking::ranked(
                next_list(all.take(i as int), holidays@, today@),
            ),
        decreases tasks.len() - i,
    {
        let ghost before = next_list(all.take(i as int), holidays@, today@);
        proof {
            assert(all.take(i + 1).drop_last() == all.take(i as int));
            assert(all.take(i + 1).last() == tasks@[i as int].view());
        }
        let ahead = occurrences_of(&tasks[i], holidays, tomorrow, latest);
        if let Some(o) = next_of(&tasks[i], &ahead) {
            proof {
                let x = (o.rank as int, o.occurrence.view());
                assert(before.push(x).drop_last() == before);
            }
            ranking::rank_occurrence(&mut next, o);
        }
        i += 1;
    }
    assert(all.take(i as int) == all);
    ranking::unranked(next)
}

} // verus!
