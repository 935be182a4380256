//! How much of the work was done.

use vstd::prelude::*;

use crate::calendar;
use crate::calendar::Date;
use crate::calendar::MAX_DAY;
use crate::calendar::MIN_DAY;
use crate::checks;
use crate::checks::Checks;
use crate::days;
use crate::days::DateSet;
use crate::json;
use crate::model;
use crate::model::CheckView;
use crate::model::HeatCell;
use crate::model::Stats;
use crate::model::Tally;
use crate::model::Task;
use crate::model::TaskView;
use crate::recur;
use crate::recur_laws;
use crate::today;
use crate::today::MAX_TASKS;
use crate::today::PAST_DAYS;

verus! {

// ── Model ───────────────────────────────────────────────

/// A number of occurrences; those that were skipped count only as skipped.
pub struct TallyView {
    pub done: int,
    pub total: int,
    pub skipped: int,
}

impl Tally {
    pub open spec fn view(&self) -> TallyView {
        TallyView {
            done: self.done as int,
            total: self.total as int,
            skipped: self.skipped as int,
        }
    }
}

pub open spec fn none_counted() -> TallyView {
    TallyView { done: 0, total: 0, skipped: 0 }
}

/// A tally with one more occurrence.
pub open spec fn counted(tally: TallyView, check: Option<CheckView>) -> TallyView {
    match check {
        Some(c) => if c.status == "skip"@ {
            TallyView { skipped: tally.skipped + 1, ..tally }
        } else if c.status == "done"@ {
            TallyView { done: tally.done + 1, total: tally.total + 1, ..tally }
        } else {
            TallyView { total: tally.total + 1, ..tally }
        },
        None => TallyView { total: tally.total + 1, ..tally },
    }
}

/// A tally with the occurrences of a task on some days.
pub open spec fn count_days(
    tally: TallyView,
    t: TaskView,
    due: Seq<int>,
    noted: Map<checks::Key, CheckView>,
) -> TallyView
    decreases due.len(),
{
    if due.len() == 0 {
        tally
    } else {
        counted(
            count_days(tally, t, due.drop_last(), noted),
            today::noted_on(noted, t, due.last()),
        )
    }
}

/// The occurrences of some tasks from `from` to `to`, none before its task was
/// created.
pub open spec fn tally_of(
    tasks: Seq<TaskView>,
    holidays: Set<int>,
    noted: Map<checks::Key, CheckView>,
    from: int,
    to: int,
) -> TallyView
    decreases tasks.len(),
{
    if tasks.len() == 0 {
        none_counted()
    } else {
        let t = tasks.last();
        count_days(
            tally_of(tasks.drop_last(), holidays, noted, from, to),
            t,
            today::task_days(t, holidays, today::not_before_creation(t, from), to),
            noted,
        )
    }
}

/// Number of days on which all was done, from day `d` back over at most `left`
/// days. Days without work do not count. The first other day ends it, but for
/// today, which is not over yet.
pub open spec fn streak(
    tasks: Seq<TaskView>,
    holidays: Set<int>,
    noted: Map<checks::Key, CheckView>,
    today: int,
    d: int,
    left: nat,
) -> int
    decreases left,
{
    if left == 0 {
        0
    } else {
        let tally = tally_of(tasks, holidays, noted, d, d);
        let before = streak(tasks, holidays, noted, today, d - 1, (left - 1) as nat);
        if tally.total == 0 {
            before
        } else if tally.done == tally.total {
            before + 1
        } else if d == today {
            before
        } else {
            0
        }
    }
}

/// First day of the quarter of a day.
pub open spec fn quarter_first(n: int) -> int {
    let (y, m, d) = calendar::civil(n);
    calendar::day_number(y, (m - 1) / 3 * 3 + 1, 1)
}

/// First day of the month of a day.
pub open spec fn first_of_month(n: int) -> int {
    let (y, m, d) = calendar::civil(n);
    calendar::day_number(y, m, 1)
}

/// Number of days of the month of a day.
pub open spec fn month_length(n: int) -> int {
    let (y, m, d) = calendar::civil(n);
    calendar::days_in_month(y, m)
}

/// One day as the statistics show it.
pub struct CellView {
    pub date: Seq<char>,
    pub tally: TallyView,
}

impl HeatCell {
    pub open spec fn view(&self) -> CellView {
        CellView {
            date: self.date@,
            tally: TallyView {
                done: self.done as int,
                total: self.total as int,
                skipped: self.skipped as int,
            },
        }
    }
}

/// The views of some days.
pub open spec fn cell_views(v: Seq<HeatCell>) -> Seq<CellView> {
    Seq::new(v.len(), |i: int| v[i].view())
}

/// Day `n` as the statistics show it.
pub open spec fn cell_on(
    tasks: Seq<TaskView>,
    holidays: Set<int>,
    noted: Map<checks::Key, CheckView>,
    n: int,
) -> CellView {
    CellView { date: calendar::date_text(n), tally: tally_of(tasks, holidays, noted, n, n) }
}

/// The days of the month of a day.
pub open spec fn month_cells(
    tasks: Seq<TaskView>,
    holidays: Set<int>,
    noted: Map<checks::Key, CheckView>,
    today: int,
) -> Seq<CellView> {
    Seq::new(
        month_length(today) as nat,
        |i: int| cell_on(tasks, holidays, noted, first_of_month(today) + i),
    )
}

// ── Laws ────────────────────────────────────────────────

/// No more was done than there was to do; and every occurrence is counted once,
/// as to be done or as skipped.
pub proof fn law_tally(
    tasks: Seq<TaskView>,
    holidays: Set<int>,
    noted: Map<checks::Key, CheckView>,
    from: int,
    to: int,
)
    ensures
        ({
            let tally = tally_of(tasks, holidays, noted, from, to);
            &&& 0 <= tally.done <= tally.total
            &&& 0 <= tally.skipped
            &&& tally.total + tally.skipped == occurrence_count(tasks, holidays, from, to)
        }),
    decreases tasks.len(),
{
    if tasks.len() > 0 {
        let t = tasks.last();
        law_tally(tasks.drop_last(), holidays, noted, from, to);
        lemma_count_days(
            tally_of(tasks.drop_last(), holidays, noted, from, to),
            t,
            today::task_days(t, holidays, today::not_before_creation(t, from), to),
            noted,
        );
    }
}

/// Number of occurrences of some tasks from `from` to `to`.
pub open spec fn occurrence_count(tasks: Seq<TaskView>, holidays: Set<int>, from: int, to: int) -> int
    decreases tasks.len(),
{
    if tasks.len() == 0 {
        0
    } else {
        let t = tasks.last();
        occurrence_count(tasks.drop_last(), holidays, from, to) + today::task_days(
            t,
            holidays,
            today::not_before_creation(t, from),
            to,
        ).len()
    }
}

proof fn lemma_count_days(
    tally: TallyView,
    t: TaskView,
    due: Seq<int>,
    noted: Map<checks::Key, CheckView>,
)
    requires
        0 <= tally.done <= tally.total,
        0 <= tally.skipped,
    ensures
        ({
            let r = count_days(tally, t, due, noted);
            &&& 0 <= r.done <= r.total
            &&& tally.total <= r.total
            &&& tally.skipped <= r.skipped
            &&& r.total + r.skipped == tally.total + tally.skipped + due.len()
        }),
    decreases due.len(),
{
    if due.len() > 0 {
        lemma_count_days(tally, t, due.drop_last(), noted);
    }
}

/// The streak is not negative and not longer than the days looked at.
pub proof fn law_streak(
    tasks: Seq<TaskView>,
    holidays: Set<int>,
    noted: Map<checks::Key, CheckView>,
    today: int,
    d: int,
    left: nat,
)
    ensures
        0 <= streak(tasks, holidays, noted, today, d, left) <= left,
    decreases left,
{
    if left > 0 {
        law_streak(tasks, holidays, noted, today, d - 1, (left - 1) as nat);
    }
}

/// What is not finished today does not break the streak: it is as long as it
/// was yesterday.
pub proof fn law_today_keeps_streak(
    tasks: Seq<TaskView>,
    holidays: Set<int>,
    noted: Map<checks::Key, CheckView>,
    today: int,
    left: nat,
)
    requires
        left > 0,
        tally_of(tasks, holidays, noted, today, today).done < tally_of(
            tasks,
            holidays,
            noted,
            today,
            today,
        ).total,
    ensures
        streak(tasks, holidays, noted, today, today, left) == streak(
            tasks,
            holidays,
            noted,
            today,
            today - 1,
            (left - 1) as nat,
        ),
{
}

// ── Counting ────────────────────────────────────────────

/// No task is due on more days than the calendar has.
proof fn lemma_few_days(t: TaskView, holidays: Set<int>, from: int, to: int)
    ensures
        today::task_days(t, holidays, from, to).len() <= 0x1000_0000,
{
    let p = json::param_of(today::param_text(t));
    let due = today::task_days(t, holidays, from, to);
    recur_laws::law_ascending_in_window(
        recur::rule_of(t.recur_type, p),
        recur::cfg_of(p),
        holidays,
        from,
        to,
    );
    if due.len() > 0 {
        days::lemma_ascending_len(due, MIN_DAY as int, MAX_DAY as int);
    }
}

/// A tally with the occurrences of a task on its due dates `due`.
pub fn count_dates(tally: Tally, t: &Task, due: &Vec<Date>, noted: &Checks) -> (r: Tally)
    requires
        0 <= tally.done <= tally.total,
        0 <= tally.skipped,
        tally.total + tally.skipped + due.len() <= i64::MAX,
    ensures
        r.view() == count_days(tally.view(), t.view(), days::numbers(due@), noted@),
{
    let ghost dues = days::numbers(due@);
    let mut out = tally;
    let mut j: usize = 0;
    while j < due.len()
        invariant
            dues == days::numbers(due@),
            j <= due.len(),
            out.view() == count_days(tally.view(), t.view(), dues.take(j as int), noted@),
            0 <= out.done <= out.total,
            0 <= out.skipped,
            out.total + out.skipped == tally.total + tally.skipped + j,
            tally.total + tally.skipped + due.len() <= i64::MAX,
        decreases due.len() - j,
    {
        proof {
            assert(dues.take(j + 1).drop_last() == dues.take(j as int));
            assert(dues.take(j + 1).last() == due@[j as int]@);
        }
        match today::find_check(noted, t, &due[j]) {
            Some(c) => {
                if c.status.as_str().eq("skip") {
                    out.skipped = out.skipped + 1;
                } else if c.status.as_str().eq("done") {
                    out.done = out.done + 1;
                    out.total = out.total + 1;
                } else {
                    out.total = out.total + 1;
                }
            },
            None => {
                out.total = out.total + 1;
            },
        }
        j += 1;
    }
    assert(dues.take(j as int) == dues);
    out
}

/// The occurrences of some tasks from `from` to `to`, none before its task was
/// created.
pub fn range_stats(
    tasks: &Vec<Task>,
    holidays: &DateSet,
    noted: &Checks,
    from: Date,
    to: Date,
) -> (r: Tally)
    requires
        tasks.len() <= MAX_TASKS,
    ensures
        r.view() == tally_of(model::task_views(tasks@), holidays@, noted@, from@, to@),
{
    let ghost all = model::task_views(tasks@);
    let mut tally = Tally { done: 0, total: 0, skipped: 0 };
    let mut i: usize = 0;
    while i < tasks.len()
        invariant
            all == model::task_views(tasks@),
            i <= tasks.len() <= MAX_TASKS,
            tally.view() == tally_of(all.take(i as int), holidays@, noted@, from@, to@),
            0 <= tally.done <= tally.total,
            0 <= tally.skipped,
            tally.total + tally.skipped <= i * 0x1000_0000,
        decreases tasks.len() - i,
    {
        let t = &tasks[i];
        let start = today::clamp_from(t, from);
        let due = today::occurrences_of(t, holidays, start, to);
        proof {
            lemma_few_days(t.view(), holidays@, start@, to@);
            assert(days::numbers(due@).len() == due.len());
            lemma_count_days(tally.view(), t.view(), days::numbers(due@), noted@);
            assert(all.take(i + 1).drop_last() == all.take(i as int));
            assert(all.take(i + 1).last() == tasks@[i as int].view());
        }
        tally = count_dates(tally, t, &due, noted);
        i += 1;
    }
    assert(all.take(i as int) == all);
    tally
}

/// The Monday of the week of a date.
pub fn week_start(today: Date) -> (r: Date)
    requires
        calendar::in_calendar(today@ - 6),
    ensures
        r@ == calendar::monday_of(today@),
{
    let w = today.weekday();
    let back: u32 = (w + 6) % 7;
    Date::from_days(today.days() - back as i32)
}

/// Number of days on which all was done, back from today over `PAST_DAYS` days.
pub fn streak_days(tasks: &Vec<Task>, holidays: &DateSet, noted: &Checks, today: Date) -> (r: i64)
    requires
        tasks.len() <= MAX_TASKS,
        calendar::in_calendar(today@ - PAST_DAYS),
    ensures
        r == streak(
            model::task_views(tasks@),
            holidays@,
            noted@,
            today@,
            today@,
            PAST_DAYS as nat,
        ),
{
    let ghost all = model::task_views(tasks@);
    let today_n: i32 = today.days();
    let mut found: i64 = 0;
    let mut left: i32 = PAST_DAYS;
    while left > 0
        invariant
            all == model::task_views(tasks@),
            tasks.len() <= MAX_TASKS,
            today_n == today@,
            calendar::in_calendar(today@),
            calendar::in_calendar(today@ - PAST_DAYS),
            0 <= left <= PAST_DAYS,
            0 <= found <= PAST_DAYS - left,
            streak(all, holidays@, noted@, today@, today@, PAST_DAYS as nat) == found + streak(
                all,
                holidays@,
                noted@,
                today@,
                today@ - (PAST_DAYS - left),
                left as nat,
            ),
        decreases left,
    {
        let n: i32 = today_n - (PAST_DAYS - left);
        let d = Date::from_days(n);
        let tally = range_stats(tasks, holidays, noted, d, d);
        if tally.total != 0 {
            if tally.done == tally.total {
                found += 1;
            } else if n != today_n {
                return found;
            }
        }
        left -= 1;
    }
    found
}

/// The days of the month of a date.
pub fn heatmap(tasks: &Vec<Task>, holidays: &DateSet, noted: &Checks, today: Date) -> (r: Vec<
    HeatCell,
>)
    requires
        tasks.len() <= MAX_TASKS,
    ensures
        cell_views(r@) == month_cells(
            model::task_views(tasks@),
            holidays@,
            noted@,
            today@,
        ),
{
    let ghost all = model::task_views(tasks@);
    let (y, m, _) = today.ymd();
    let last: u32 = calendar::last_day_of_month(y, m);
    let mut out: Vec<HeatCell> = Vec::new();
    let mut day: u32 = 1;
    while day <= last
        invariant
            all == model::task_views(tasks@),
            tasks.len() <= MAX_TASKS,
            calendar::is_ymd(y as int, m as int, 1),
            last == calendar::days_in_month(y as int, m as int),
            last <= 31,
            1 <= day <= last + 1,
            out.len() == day - 1,
            forall|i: int|
                0 <= i < day - 1 ==> (#[trigger] out@[i]).view() == cell_on(
                    all,
                    holidays@,
                    noted@,
                    calendar::day_number(y as int, m as int, 1) + i,
                ),
        decreases last + 1 - day,
    {
        let date = Date::from_ymd_opt(y, m, day).unwrap();
        let tally = range_stats(tasks, holidays, noted, date, date);
        out.push(
            HeatCell {
                date: date.to_text(),
                done: tally.done,
                total: tally.total,
                skipped: tally.skipped,
            },
        );
        day += 1;
    }
    assert(cell_views(out@) =~= month_cells(all, holidays@, noted@, today@));
    out
}

/// What the statistics page shows.
pub fn get_stats(tasks: &Vec<Task>, holidays: &DateSet, noted: &Checks, today: Date) -> (r: Stats)
    requires
        tasks.len() <= MAX_TASKS,
        calendar::in_calendar(today@ - PAST_DAYS),
    ensures
        r.streak_days == streak(
            model::task_views(tasks@),
            holidays@,
            noted@,
            today@,
            today@,
            PAST_DAYS as nat,
        ),
        r.week.view() == tally_of(
            model::task_views(tasks@),
            holidays@,
            noted@,
            calendar::monday_of(today@),
            today@,
        ),
        r.month.view() == tally_of(
            model::task_views(tasks@),
            holidays@,
            noted@,
            first_of_month(today@),
            today@,
        ),
        r.quarter.view() == tally_of(
            model::task_views(tasks@),
            holidays@,
            noted@,
            quarter_first(today@),
            today@,
        ),
        cell_views(r.heatmap@) == month_cells(
            model::task_views(tasks@),
            holidays@,
            noted@,
            today@,
        ),
{
    let (y, m, _) = today.ymd();
    let month_start = Date::from_ymd_opt(y, m, 1).unwrap();
    let quarter_month: u32 = (m - 1) / 3 * 3 + 1;
    let quarter_start = Date::from_ymd_opt(y, quarter_month, 1).unwrap();
    let monday = week_start(today);
    Stats {
        streak_days: streak_days(tasks, holidays, noted, today),
        month: range_stats(tasks, holidays, noted, month_start, today),
        week: range_stats(tasks, holidays, noted, monday, today),
        quarter: range_stats(tasks, holidays, noted, quarter_start, today),
        heatmap: heatmap(tasks, holidays, noted, today),
    }
}

} // verus!
