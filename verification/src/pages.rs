//! What the pages, the notifications and the tray show.

use vstd::prelude::*;

use crate::calendar;
use crate::calendar::Date;
use crate::checks;
use crate::checks::Checks;
use crate::days;
use crate::days::DateSet;
use crate::json;
use crate::model;
use crate::model::CheckView;
use crate::model::OccurrenceView;
use crate::model::PendingSummary;
use crate::model::Task;
use crate::model::TaskDto;
use crate::model::TaskListItem;
use crate::model::TaskOccurrence;
use crate::model::TaskView;
use crate::model::TodayView;
use crate::ranking;
use crate::recur;
use crate::recur_laws;
use crate::stats;
use crate::text;
use crate::today;
use crate::today::MAX_TASKS;
use crate::today::PAST_DAYS;
use crate::today::UPCOMING_DAYS;

verus! {

/// How many task names a summary gives.
pub const SAMPLE_NAMES: usize = 2;

/// How many days before a due date a task can be reminded of at most.
pub const MAX_REMIND_DAYS: i64 = 30;

// ── Today ───────────────────────────────────────────────

/// What today's page shows.
pub fn get_today_view(tasks: &Vec<Task>, holidays: &DateSet, noted: &Checks, today: Date) -> (r:
    TodayView)
    requires
        tasks.len() <= MAX_TASKS,
        calendar::in_calendar(today@ - PAST_DAYS),
        calendar::in_calendar(today@ + UPCOMING_DAYS),
    ensures
        r.date@ == calendar::date_text(today@),
        model::occurrence_views(r.overdue@) == today::overdue_list(
            model::task_views(tasks@),
            holidays@,
            noted@,
            today@,
        ),
        model::occurrence_views(r.today@) == today::today_list(
            model::task_views(tasks@),
            holidays@,
            noted@,
            today@,
        ),
        model::occurrence_views(r.upcoming@) == today::upcoming_list(
            model::task_views(tasks@),
            holidays@,
            today@,
        ),
        r.week.view() == stats::tally_of(
            model::task_views(tasks@),
            holidays@,
            noted@,
            calendar::monday_of(today@),
            today@,
        ),
{
    let (overdue, today_list) = today::compute_overdue_today(tasks, holidays, noted, today);
    let upcoming = today::compute_upcoming(tasks, holidays, today);
    let monday = stats::week_start(today);
    let week = stats::range_stats(tasks, holidays, noted, monday, today);
    TodayView { date: today.to_text(), overdue, today: today_list, upcoming, week }
}

// ── Pending work ────────────────────────────────────────

/// The occurrences of which nothing was noted.
pub open spec fn unchecked(list: Seq<OccurrenceView>) -> Seq<OccurrenceView>
    decreases list.len(),
{
    if list.len() == 0 {
        list
    } else if list.last().status == "none"@ {
        unchecked(list.drop_last()).push(list.last())
    } else {
        unchecked(list.drop_last())
    }
}

/// The task names of some occurrences.
pub open spec fn names(list: Seq<OccurrenceView>) -> Seq<Seq<char>> {
    Seq::new(list.len(), |i: int| list[i].name)
}

/// The tasks and due dates of some occurrences.
pub open spec fn keys(list: Seq<OccurrenceView>) -> Seq<checks::Key> {
    Seq::new(list.len(), |i: int| (list[i].task_id, list[i].due_date))
}

/// The first entries of a list, at most `n`.
pub open spec fn first_few<T>(s: Seq<T>, n: nat) -> Seq<T> {
    if s.len() <= n {
        s
    } else {
        s.take(n as int)
    }
}

/// What is still to be done.
#[verifier::ext_equal]
pub struct PendingView {
    pub overdue: int,
    pub total: int,
    pub overdue_keys: Seq<checks::Key>,
    pub sample_names: Seq<Seq<char>>,
}

impl PendingSummary {
    pub open spec fn view(&self) -> PendingView {
        PendingView {
            overdue: self.overdue as int,
            total: self.total as int,
            overdue_keys: checks::key_views(self.overdue_keys@),
            sample_names: text::texts(self.sample_names@),
        }
    }
}

/// What is still to be done of late occurrences and today's.
pub open spec fn pending_of(overdue: Seq<OccurrenceView>, today: Seq<OccurrenceView>) -> PendingView {
    PendingView {
        overdue: overdue.len() as int,
        total: (overdue.len() + unchecked(today).len()) as int,
        overdue_keys: keys(overdue),
        sample_names: first_few(names(overdue) + names(unchecked(today)), SAMPLE_NAMES as nat),
    }
}

proof fn lemma_list_lengths(
    tasks: Seq<TaskView>,
    holidays: Set<int>,
    noted: Map<checks::Key, CheckView>,
    day: int,
)
    ensures
        today::today_list(tasks, holidays, noted, day).len() <= tasks.len(),
        today::late_list(tasks, holidays, noted, day).len() <= tasks.len(),
    decreases tasks.len(),
{
    if tasks.len() > 0 {
        lemma_list_lengths(tasks.drop_last(), holidays, noted, day);
    }
}

/// Adds a name unless there are enough.
fn push_sample(sample: &mut Vec<String>, name: &String)
    requires
        old(sample).len() <= SAMPLE_NAMES,
    ensures
        final(sample).len() <= SAMPLE_NAMES,
        forall|all: Seq<Seq<char>>|
            text::texts(old(sample)@) == #[trigger] first_few(all, SAMPLE_NAMES as nat)
                ==> text::texts(final(sample)@) == first_few(
                all.push(name@),
                SAMPLE_NAMES as nat,
            ),
{
    let ghost before = text::texts(sample@);
    if sample.len() < SAMPLE_NAMES {
        sample.push(name.clone());
        assert(text::texts(sample@) =~= before.push(name@));
    } else {
        assert forall|all: Seq<Seq<char>>|
            text::texts(sample@) == #[trigger] first_few(
                all,
                SAMPLE_NAMES as nat,
            ) implies text::texts(sample@) == first_few(all.push(name@), SAMPLE_NAMES as nat) by {
            assert(all.push(name@).take(SAMPLE_NAMES as int) =~= all.take(SAMPLE_NAMES as int));
            if all.len() == SAMPLE_NAMES {
                assert(all.take(SAMPLE_NAMES as int) =~= all);
            }
        }
    }
}

/// What is still to be done of late occurrences and today's.
pub fn summarize(overdue: &Vec<TaskOccurrence>, today_list: &Vec<TaskOccurrence>) -> (r:
    PendingSummary)
    requires
        overdue.len() <= MAX_TASKS,
        today_list.len() <= MAX_TASKS,
    ensures
        r.view() == pending_of(
            model::occurrence_views(overdue@),
            model::occurrence_views(today_list@),
        ),
{
    let ghost late = model::occurrence_views(overdue@);
    let ghost today = model::occurrence_views(today_list@);
    let mut overdue_keys: Vec<(i64, String)> = Vec::new();
    let mut sample: Vec<String> = Vec::new();
    let mut i: usize = 0;
    assert(text::texts(sample@) =~= first_few(names(late.take(0)), SAMPLE_NAMES as nat));
    while i < overdue.len()
        invariant
            late == model::occurrence_views(overdue@),
            i <= overdue.len(),
            checks::key_views(overdue_keys@) == keys(late.take(i as int)),
            sample.len() <= SAMPLE_NAMES,
            text::texts(sample@) == first_few(names(late.take(i as int)), SAMPLE_NAMES as nat),
        decreases overdue.len() - i,
    {
        let ghost before = checks::key_views(overdue_keys@);
        let ghost so_far = names(late.take(i as int));
        overdue_keys.push((overdue[i].task_id, overdue[i].due_date.clone()));
        push_sample(&mut sample, &overdue[i].name);
        proof {
            assert(late.take(i + 1) =~= late.take(i as int).push(late[i as int]));
            assert(checks::key_views(overdue_keys@) =~= before.push(
                (late[i as int].task_id, late[i as int].due_date),
            ));
            assert(keys(late.take(i + 1)) =~= before.push(
                (late[i as int].task_id, late[i as int].due_date),
            ));
            assert(names(late.take(i + 1)) =~= so_far.push(late[i as int].name));
        }
        i += 1;
    }
    assert(late.take(i as int) == late);
    let ghost late_names = names(late);
    let mut open: i64 = 0;
    let mut j: usize = 0;
    assert(late_names + names(unchecked(today.take(0))) =~= late_names);
    while j < today_list.len()
        invariant
            today == model::occurrence_views(today_list@),
            today_list.len() <= MAX_TASKS,
            j <= today_list.len(),
            open == unchecked(today.take(j as int)).len(),
            0 <= open <= j,
            sample.len() <= SAMPLE_NAMES,
            text::texts(sample@) == first_few(
                late_names + names(unchecked(today.take(j as int))),
                SAMPLE_NAMES as nat,
            ),
        decreases today_list.len() - j,
    {
        let ghost before = unchecked(today.take(j as int));
        let ghost so_far = late_names + names(before);
        proof {
            assert(today.take(j + 1).drop_last() == today.take(j as int));
            assert(today.take(j + 1).last() == today_list@[j as int].view());
        }
        if today_list[j].status.as_str().eq("none") {
            open += 1;
            push_sample(&mut sample, &today_list[j].name);
            assert(late_names + names(before.push(today[j as int])) =~= so_far.push(
                today[j as int].name,
            ));
        }
        j += 1;
    }
    assert(today.take(j as int) == today);
    let late_count: i64 = overdue.len() as i64;
    PendingSummary {
        overdue: late_count,
        total: open + late_count,
        overdue_keys,
        sample_names: sample,
    }
}

/// What is still to be done today.
pub fn pending_summary(tasks: &Vec<Task>, holidays: &DateSet, noted: &Checks, today: Date) -> (r:
    PendingSummary)
    requires
        tasks.len() <= MAX_TASKS,
        calendar::in_calendar(today@ - PAST_DAYS),
    ensures
        r.view() == pending_of(
            today::overdue_list(model::task_views(tasks@), holidays@, noted@, today@),
            today::today_list(model::task_views(tasks@), holidays@, noted@, today@),
        ),
{
    let (overdue, today_list) = today::compute_overdue_today(tasks, holidays, noted, today);
    proof {
        let all = model::task_views(tasks@);
        lemma_list_lengths(all, holidays@, noted@, today@);
        ranking::law_ranked(today::late_list(all, holidays@, noted@, today@), 0);
        assert(model::occurrence_views(overdue@).len() == overdue.len());
        assert(model::occurrence_views(today_list@).len() == today_list.len());
    }
    summarize(&overdue, &today_list)
}

// ── Laws ────────────────────────────────────────────────

/// What is late is late by 1 to `PAST_DAYS` days, and nothing was noted of it.
pub proof fn law_late(
    t: TaskView,
    holidays: Set<int>,
    noted: Map<checks::Key, CheckView>,
    day: int,
)
    ensures
        today::late_occurrence(t, holidays, noted, day) matches Some((rank, o)) ==> {
            &&& 1 <= o.days_late <= PAST_DAYS
            &&& rank == -o.days_late
            &&& o.status == "none"@
            &&& !o.checked
            &&& o.due_date == calendar::date_text(day - o.days_late)
            &&& !noted.contains_key((o.task_id, o.due_date))
        },
{
    let from = today::not_before_creation(t, day - PAST_DAYS);
    let p = json::param_of(today::param_text(t));
    let past = today::task_days(t, holidays, from, day - 1);
    recur_laws::law_ascending_in_window(
        recur::rule_of(t.recur_type, p),
        recur::cfg_of(p),
        holidays,
        from,
        day - 1,
    );
    if past.len() > 0 {
        assert(past[past.len() - 1] == past.last());
    }
    reveal_strlit("none");
    reveal_strlit("done");
    assert("none"@[0] == 'n' && "done"@[0] == 'd');
}

/// The late occurrences come the latest first; none is lost and none is made
/// up.
pub proof fn law_overdue_order(
    tasks: Seq<TaskView>,
    holidays: Set<int>,
    noted: Map<checks::Key, CheckView>,
    day: int,
    i: int,
    j: int,
)
    requires
        0 <= i <= j < today::overdue_list(tasks, holidays, noted, day).len(),
    ensures
        today::overdue_list(tasks, holidays, noted, day)[i].days_late >= today::overdue_list(
            tasks,
            holidays,
            noted,
            day,
        )[j].days_late,
        ranking::ranked(today::late_list(tasks, holidays, noted, day)).to_multiset()
            == today::late_list(tasks, holidays, noted, day).to_multiset(),
{
    let list = today::late_list(tasks, holidays, noted, day);
    let sorted = ranking::ranked(list);
    ranking::law_ranked(list, 0);
    lemma_ranks(tasks, holidays, noted, day);
    lemma_ranked_keep(list);
    assert(sorted[i].0 <= sorted[j].0);
    assert(sorted[i].0 == -sorted[i].1.days_late);
    assert(sorted[j].0 == -sorted[j].1.days_late);
}

proof fn lemma_ranks(
    tasks: Seq<TaskView>,
    holidays: Set<int>,
    noted: Map<checks::Key, CheckView>,
    day: int,
)
    ensures
        forall|k: int|
            0 <= k < today::late_list(tasks, holidays, noted, day).len() ==> (
            #[trigger] today::late_list(tasks, holidays, noted, day)[k]).0 == -today::late_list(
                tasks,
                holidays,
                noted,
                day,
            )[k].1.days_late,
    decreases tasks.len(),
{
    if tasks.len() > 0 {
        lemma_ranks(tasks.drop_last(), holidays, noted, day);
    }
}

/// Ranking keeps what holds of every entry.
proof fn lemma_ranked_keep(s: Seq<(int, OccurrenceView)>)
    requires
        forall|k: int| 0 <= k < s.len() ==> (#[trigger] s[k]).0 == -s[k].1.days_late,
    ensures
        forall|k: int|
            0 <= k < ranking::ranked(s).len() ==> (#[trigger] ranking::ranked(s)[k]).0
                == -ranking::ranked(s)[k].1.days_late,
    decreases s.len(),
{
    if s.len() > 0 {
        let front = s.drop_last();
        assert forall|k: int| 0 <= k < front.len() implies (#[trigger] front[k]).0
            == -front[k].1.days_late by {
            assert(front[k] == s[k]);
        }
        lemma_ranked_keep(front);
        assert(s[s.len() - 1] == s.last());
        lemma_rank_in_keep(ranking::ranked(front), s.last());
    }
}

proof fn lemma_rank_in_keep(s: Seq<(int, OccurrenceView)>, x: (int, OccurrenceView))
    requires
        forall|k: int| 0 <= k < s.len() ==> (#[trigger] s[k]).0 == -s[k].1.days_late,
        x.0 == -x.1.days_late,
    ensures
        forall|k: int|
            0 <= k < ranking::rank_in(s, x).len() ==> (#[trigger] ranking::rank_in(s, x)[k]).0
                == -ranking::rank_in(s, x)[k].1.days_late,
    decreases s.len(),
{
    if s.len() > 0 && s.last().0 > x.0 {
        let front = s.drop_last();
        assert forall|k: int| 0 <= k < front.len() implies (#[trigger] front[k]).0
            == -front[k].1.days_late by {
            assert(front[k] == s[k]);
        }
        lemma_rank_in_keep(front, x);
        assert(s[s.len() - 1] == s.last());
    }
}

/// The summary counts every late occurrence and every one of today's that is
/// not checked; it gives at most two names, and none only if nothing is left
/// to do.
pub proof fn law_pending(overdue: Seq<OccurrenceView>, today: Seq<OccurrenceView>)
    ensures
        ({
            let s = pending_of(overdue, today);
            &&& 0 <= s.overdue <= s.total
            &&& s.overdue_keys.len() == s.overdue
            &&& s.sample_names.len() <= SAMPLE_NAMES
            &&& s.sample_names.len() == 0 <==> s.total == 0
        }),
{
}

// ── Tasks ───────────────────────────────────────────────

/// Whether a task was for one date and something was noted of it on that date.
pub open spec fn is_done_once(t: TaskView, noted: Map<checks::Key, CheckView>) -> bool {
    t.recur_type == "once"@ && match recur::date_at(
        json::param_of(today::param_text(t)),
        "date"@,
    ) {
        Some(n) => noted.contains_key(today::key_on(t, n)),
        None => false,
    }
}

/// Whether a task was for one date and something was noted of it on that date.
fn done_once(t: &Task, noted: &Checks) -> (b: bool)
    ensures
        b == is_done_once(t.view(), noted@),
{
    if !t.recur_type.as_str().eq("once") {
        return false;
    }
    let p = match &t.recur_param {
        Some(p) => json::param_value(p.as_str()),
        None => json::param_value("{}"),
    };
    match recur::parse_date(&p, "date") {
        Some(d) => today::find_check(noted, t, &d).is_some(),
        None => false,
    }
}

/// The list of all tasks.
pub fn list_tasks(tasks: Vec<Task>, noted: &Checks) -> (r: Vec<TaskListItem>)
    ensures
        r.len() == tasks.len(),
        forall|i: int|
            0 <= i < r.len() ==> (#[trigger] r@[i]).task == tasks@[i] && r@[i].done_once
                == is_done_once(tasks@[i].view(), noted@),
{
    let ghost all = tasks@;
    let mut out: Vec<TaskListItem> = Vec::new();
    for t in it: tasks
        invariant
            it.seq() == all,
            out.len() == it.index(),
            forall|i: int|
                0 <= i < out.len() ==> (#[trigger] out@[i]).task == all[i] && out@[i].done_once
                    == is_done_once(all[i].view(), noted@),
    {
        let once = done_once(&t, noted);
        out.push(TaskListItem { task: t, done_once: once });
    }
    out
}

/// The id of the task that an entry replaces; an error without one.
pub fn update_id(dto: &TaskDto) -> (r: Result<i64, String>)
    ensures
        match dto.id {
            Some(id) => r == Ok::<i64, String>(id),
            None => r is Err && r->Err_0@ == "업무 id가 없습니다"@,
        },
{
    match dto.id {
        Some(id) => Ok(id),
        None => Err("업무 id가 없습니다".to_owned()),
    }
}

/// The place of an entered task in the list; 0 if it has none.
pub fn stored_sort_order(dto: &TaskDto) -> (r: i64)
    ensures
        r == match dto.sort_order {
            Some(n) => n,
            None => 0,
        },
{
    match dto.sort_order {
        Some(n) => n,
        None => 0,
    }
}

/// The priority of an entered task; normal if it has none.
pub fn stored_priority(dto: &TaskDto) -> (r: i64)
    ensures
        r == match dto.priority {
            Some(n) => n,
            None => 1,
        },
{
    match dto.priority {
        Some(n) => n,
        None => 1,
    }
}

/// The days that some texts name; those that are no dates are ignored.
pub open spec fn named_days(dates: Seq<Seq<char>>) -> Set<int>
    decreases dates.len(),
{
    if dates.len() == 0 {
        Set::empty()
    } else {
        match calendar::parsed_date(dates.last()) {
            Some(n) => named_days(dates.drop_last()).insert(n),
            None => named_days(dates.drop_last()),
        }
    }
}

/// The holidays with the given dates; texts that are no dates are ignored.
pub fn holiday_set(dates: &Vec<String>) -> (r: DateSet)
    ensures
        r@ == named_days(text::texts(dates@)),
{
    let ghost all = text::texts(dates@);
    let mut out = DateSet::new();
    let mut i: usize = 0;
    assert(out@ =~= named_days(all.take(0)));
    while i < dates.len()
        invariant
            all == text::texts(dates@),
            i <= dates.len(),
            out@ == named_days(all.take(i as int)),
        decreases dates.len() - i,
    {
        assert(all.take(i + 1).drop_last() == all.take(i as int));
        if let Some(d) = Date::parse(dates[i].as_str()) {
            out.insert(d);
        }
        i += 1;
    }
    assert(all.take(i as int) == all);
    out
}

// ── Reminders of single tasks ───────────────────────────

/// When to remind of a task today, and of a due date ahead.
pub struct PerTaskNotify {
    pub task_id: i64,
    pub name: String,
    /// The time of today's reminder, if the task is due and not checked.
    pub today_notify_time: Option<String>,
    /// The number of days to the next due date and that date, if a reminder is
    /// due that many days before.
    pub remind: Option<(i64, Date)>,
}

/// When to remind of a task.
pub struct PerTaskView {
    pub task_id: int,
    pub name: Seq<char>,
    pub today_notify_time: Option<Seq<char>>,
    pub remind: Option<(int, int)>,
}

impl PerTaskNotify {
    pub open spec fn view(&self) -> PerTaskView {
        PerTaskView {
            task_id: self.task_id as int,
            name: self.name@,
            today_notify_time: text::opt_text(self.today_notify_time),
            remind: match self.remind {
                Some((n, d)) => Some((n as int, d@)),
                None => None,
            },
        }
    }
}

/// The views of a list of reminders.
pub open spec fn per_task_views(v: Seq<PerTaskNotify>) -> Seq<PerTaskView> {
    Seq::new(v.len(), |i: int| v[i].view())
}

/// The due date ahead that a task is to be reminded of today: the next one, if
/// it is as many days ahead as the task says.
pub open spec fn remind_of(t: TaskView, holidays: Set<int>, day: int) -> Option<(int, int)> {
    match t.remind_before {
        Some(n) => {
            let ahead = today::task_days(t, holidays, day + 1, day + n);
            if 1 <= n <= MAX_REMIND_DAYS && ahead.len() > 0 && ahead[0] == day + n {
                Some((n as int, day + n))
            } else {
                None
            }
        },
        None => None,
    }
}

/// When to remind of a task.
pub open spec fn per_task_of(
    t: TaskView,
    holidays: Set<int>,
    noted: Map<checks::Key, CheckView>,
    day: int,
) -> PerTaskView {
    PerTaskView {
        task_id: t.id,
        name: t.name,
        today_notify_time: if today::task_days(t, holidays, day, day).len() > 0
            && today::noted_on(noted, t, day) is None {
            t.notify_time
        } else {
            None
        },
        remind: remind_of(t, holidays, day),
    }
}

/// The due date ahead that a task is to be reminded of today.
fn remind(t: &Task, holidays: &DateSet, today: Date) -> (r: Option<(i64, Date)>)
    requires
        calendar::in_calendar(today@ + MAX_REMIND_DAYS),
    ensures
        (match r {
            Some((n, d)) => Some((n as int, d@)),
            None => None::<(int, int)>,
        }) == remind_of(t.view(), holidays@, today@),
{
    let n: i64 = match t.remind_before {
        Some(n) => n,
        None => {
            return None;
        },
    };
    if n < 1 || n > MAX_REMIND_DAYS {
        return None;
    }
    let today_n: i32 = today.days();
    let to: i32 = today_n + n as i32;
    let ahead = today::occurrences_of(
        t,
        holidays,
        Date::from_days(today_n + 1),
        Date::from_days(to),
    );
    assert(days::numbers(ahead@).len() == ahead.len());
    if ahead.len() == 0 {
        return None;
    }
    assert(days::numbers(ahead@)[0] == ahead@[0]@);
    if ahead[0].days() == to {
        Some((n, ahead[0]))
    } else {
        None
    }
}

/// When to remind of each task.
pub fn per_task_notify(tasks: &Vec<Task>, holidays: &DateSet, noted: &Checks, today: Date) -> (r:
    Vec<PerTaskNotify>)
    requires
        calendar::in_calendar(today@ + MAX_REMIND_DAYS),
    ensures
        per_task_views(r@) == Seq::new(
            tasks@.len(),
            |i: int| per_task_of(tasks@[i].view(), holidays@, noted@, today@),
        ),
{
    let mut out: Vec<PerTaskNotify> = Vec::new();
    let mut i: usize = 0;
    while i < tasks.len()
        invariant
            calendar::in_calendar(today@ + MAX_REMIND_DAYS),
            i <= tasks.len(),
            out.len() == i,
            forall|k: int|
                0 <= k < i ==> (#[trigger] out@[k]).view() == per_task_of(
                    tasks@[k].view(),
                    holidays@,
                    noted@,
                    today@,
                ),
        decreases tasks.len() - i,
    {
        let t = &tasks[i];
        let due = today::occurrences_of(t, holidays, today, today);
        assert(days::numbers(due@).len() == due.len());
        let today_notify_time = if due.len() > 0 && today::find_check(
            noted,
            t,
            &today,
        ).is_none() {
            text::copy_opt(&t.notify_time)
        } else {
            None
        };
        out.push(
            PerTaskNotify {
                task_id: t.id,
                name: t.name.clone(),
                today_notify_time,
                remind: remind(t, holidays, today),
            },
        );
        i += 1;
    }
    assert(per_task_views(out@) =~= Seq::new(
        tasks@.len(),
        |i: int| per_task_of(tasks@[i].view(), holidays@, noted@, today@),
    ));
    out
}

} // verus!
