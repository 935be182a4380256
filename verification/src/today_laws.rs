//! What holds of the lists of late, present and upcoming work.

use vstd::prelude::*;

use crate::calendar;
use crate::checks;
use crate::days;
use crate::json;
use crate::label;
use crate::model::CheckView;
use crate::model::OccurrenceView;
use crate::model::TaskView;
use crate::ranking;
use crate::recur;
use crate::recur_laws;
use crate::text;
use crate::today;

verus! {

// ── Tasks ───────────────────────────────────────────────

/// The due days of a task from `from` to `to`.
pub open spec fn due_of(t: TaskView, holidays: Set<int>, from: int, to: int) -> Seq<int> {
    match t.recur_param {
        Some(p) => recur::occurrence_days(t.recur_type, json::param_of(p), holidays, from, to),
        None => recur::occurrence_days(t.recur_type, json::param_of("{}"@), holidays, from, to),
    }
}

/// The day on which a task was created, by the first ten bytes of what is noted
/// of it.
pub open spec fn born(t: TaskView) -> Option<int> {
    match t.created_at {
        Some(s) => match text::byte_prefix(s, 10) {
            Some(date) => calendar::parsed_date(date),
            None => None,
        },
        None => None,
    }
}

/// The first of the last 120 days before today on which the task existed.
pub open spec fn oldest_of(t: TaskView, today: int) -> int {
    match born(t) {
        Some(c) => if c > today - 120 {
            c
        } else {
            today - 120
        },
        None => today - 120,
    }
}

/// Whether day `n` is the last due day of a task before today.
pub open spec fn is_last_due(t: TaskView, holidays: Set<int>, today: int, n: int) -> bool {
    &&& due_of(t, holidays, oldest_of(t, today), today - 1).contains(n)
    &&& forall|k: int| #[trigger]
        due_of(t, holidays, oldest_of(t, today), today - 1).contains(k) ==> k <= n
}

/// Whether a task is late since day `n`: nothing was noted of the last day on
/// which it was due.
pub open spec fn is_late(
    t: TaskView,
    holidays: Set<int>,
    noted: Map<checks::Key, CheckView>,
    today: int,
    n: int,
) -> bool {
    is_last_due(t, holidays, today, n) && !noted.contains_key((t.id, calendar::date_text(n)))
}

/// Whether day `n` is the first day of the next 14 on which a task is due.
/// Daily tasks are not announced.
pub open spec fn is_next(t: TaskView, holidays: Set<int>, today: int, n: int) -> bool {
    &&& t.recur_type != "daily"@
    &&& due_of(t, holidays, today + 1, today + 14).contains(n)
    &&& forall|k: int| #[trigger]
        due_of(t, holidays, today + 1, today + 14).contains(k) ==> n <= k
}

/// Whether an entry shows task `t` on day `n`.
pub open spec fn shows(o: OccurrenceView, t: TaskView, n: int) -> bool {
    &&& o.task_id == t.id
    &&& o.name == t.name
    &&& o.memo == t.memo
    &&& o.links == t.links
    &&& o.recur_type == t.recur_type
    &&& o.recur_param == t.recur_param
    &&& o.priority == t.priority
    &&& o.due_date == calendar::date_text(n)
    &&& o.rule_label == match t.recur_param {
        Some(p) => label::label_text(t.recur_type, json::param_of(p)),
        None => label::label_text(t.recur_type, json::param_of("{}"@)),
    }
}

/// Whether an entry shows that nothing was noted.
pub open spec fn shows_nothing(o: OccurrenceView) -> bool {
    o.status == "none"@ && !o.checked && o.check_memo is None
}

/// Whether an entry shows what was noted.
pub open spec fn shows_check(o: OccurrenceView, c: CheckView) -> bool {
    &&& o.status == c.status
    &&& o.checked <==> c.status == "done"@
    &&& o.check_memo == c.memo
}

// ── Lists in order ──────────────────────────────────────

/// A number, the index of a task, and a day.
pub type Place = (int, (int, int));

/// Whether places come by number, then by index.
pub open spec fn in_order(s: Seq<Place>) -> bool {
    forall|a: int, b: int|
        0 <= a < b < s.len() ==> (#[trigger] s[a]).0 < (#[trigger] s[b]).0 || (s[a].0 == s[b].0
            && s[a].1.0 < s[b].1.0)
}

proof fn lemma_rank_places(s: Seq<Place>, x: Place)
    requires
        in_order(s),
        forall|k: int| 0 <= k < s.len() ==> (#[trigger] s[k]).1.0 < x.1.0,
    ensures
        in_order(ranking::rank_in(s, x)),
        ranking::rank_in(s, x).len() == s.len() + 1,
        forall|v: Place| #[trigger]
            ranking::rank_in(s, x).contains(v) <==> s.contains(v) || v == x,
    decreases s.len(),
{
    let r = ranking::rank_in(s, x);
    if s.len() == 0 || s.last().0 <= x.0 {
        assert(r == s.push(x));
        assert forall|v: Place| #[trigger] r.contains(v) <==> s.contains(v) || v == x by {
            lemma_push_contains(s, x, v);
        }
        assert forall|a: int, b: int| 0 <= a < b < r.len() implies (#[trigger] r[a]).0 < (
        #[trigger] r[b]).0 || (r[a].0 == r[b].0 && r[a].1.0 < r[b].1.0) by {
            if b == s.len() {
                let last = s[s.len() - 1];
                assert(last.0 <= x.0);
                assert(a == s.len() - 1 || s[a].0 <= last.0);
                assert(s[a].1.0 < x.1.0);
            } else {
                assert(r[a] == s[a] && r[b] == s[b]);
            }
        }
    } else {
        let front = s.drop_last();
        let last = s.last();
        let inner = ranking::rank_in(front, x);
        assert forall|k: int| 0 <= k < front.len() implies (#[trigger] front[k]).1.0 < x.1.0 by {
            assert(front[k] == s[k]);
        }
        lemma_rank_places(front, x);
        assert(front.push(last) == s);
        assert forall|v: Place| #[trigger] r.contains(v) <==> s.contains(v) || v == x by {
            lemma_push_contains(inner, last, v);
            lemma_push_contains(front, last, v);
            assert(inner.contains(v) <==> front.contains(v) || v == x);
        }
        assert forall|a: int, b: int| 0 <= a < b < r.len() implies (#[trigger] r[a]).0 < (
        #[trigger] r[b]).0 || (r[a].0 == r[b].0 && r[a].1.0 < r[b].1.0) by {
            if b == inner.len() {
                assert(inner.contains(inner[a]));
                if front.contains(inner[a]) {
                    let k = choose|k: int| 0 <= k < front.len() && front[k] == inner[a];
                    assert(s[k] == inner[a] && s[s.len() - 1] == last);
                }
            } else {
                assert(r[a] == inner[a] && r[b] == inner[b]);
            }
        }
    }
}

proof fn lemma_push_contains<T>(s: Seq<T>, x: T, v: T)
    ensures
        s.push(x).contains(v) <==> s.contains(v) || v == x,
{
    if s.contains(v) {
        let k = choose|k: int| 0 <= k < s.len() && s[k] == v;
        assert(s.push(x)[k] == v);
    }
    assert(s.push(x)[s.len() as int] == x);
    if s.push(x).contains(v) {
        let k = choose|k: int| 0 <= k < s.push(x).len() && s.push(x)[k] == v;
        if k < s.len() {
            assert(s[k] == v);
        }
    }
}

/// Places whose indices ascend are brought into order, none added or lost.
proof fn lemma_ranked_places(s: Seq<Place>)
    requires
        forall|a: int, b: int|
            0 <= a < b < s.len() ==> (#[trigger] s[a]).1.0 < (#[trigger] s[b]).1.0,
    ensures
        in_order(ranking::ranked(s)),
        ranking::ranked(s).len() == s.len(),
        forall|v: Place| #[trigger] ranking::ranked(s).contains(v) <==> s.contains(v),
    decreases s.len(),
{
    if s.len() > 0 {
        let front = s.drop_last();
        let before = ranking::ranked(front);
        assert forall|a: int, b: int| 0 <= a < b < front.len() implies (#[trigger] front[a]).1.0 < (
        #[trigger] front[b]).1.0 by {
            assert(front[a] == s[a] && front[b] == s[b]);
        }
        lemma_ranked_places(front);
        assert forall|k: int| 0 <= k < before.len() implies (#[trigger] before[k]).1.0
            < s.last().1.0 by {
            assert(before.contains(before[k]));
            let i = choose|i: int| 0 <= i < front.len() && front[i] == before[k];
            assert(s[i] == before[k] && s[s.len() - 1] == s.last());
        }
        lemma_rank_places(before, s.last());
        assert(front.push(s.last()) == s);
        assert forall|v: Place| #[trigger] ranking::ranked(s).contains(v) <==> s.contains(v) by {
            lemma_push_contains(front, s.last(), v);
            assert(before.contains(v) <==> front.contains(v));
        }
    }
}

/// The same list with other entries.
pub open spec fn with_entries<T>(s: Seq<Place>, f: spec_fn((int, int)) -> T) -> Seq<(int, T)> {
    Seq::new(s.len(), |k: int| (s[k].0, f(s[k].1)))
}

proof fn lemma_rank_entries<T>(s: Seq<Place>, x: Place, f: spec_fn((int, int)) -> T)
    ensures
        ranking::rank_in(with_entries(s, f), (x.0, f(x.1))) == with_entries(
            ranking::rank_in(s, x),
            f,
        ),
    decreases s.len(),
{
    let t = with_entries(s, f);
    let y = (x.0, f(x.1));
    if s.len() == 0 || s.last().0 <= x.0 {
        assert(t.push(y) =~= with_entries(s.push(x), f));
    } else {
        lemma_rank_entries(s.drop_last(), x, f);
        assert(t.drop_last() =~= with_entries(s.drop_last(), f));
        let inner = ranking::rank_in(s.drop_last(), x);
        assert(with_entries(inner, f).push(t.last()) =~= with_entries(inner.push(s.last()), f));
    }
}

/// The order does not depend on the entries.
proof fn lemma_ranked_entries<T>(s: Seq<Place>, f: spec_fn((int, int)) -> T)
    ensures
        ranking::ranked(with_entries(s, f)) == with_entries(ranking::ranked(s), f),
    decreases s.len(),
{
    let t = with_entries(s, f);
    if s.len() > 0 {
        lemma_ranked_entries(s.drop_last(), f);
        assert(t.drop_last() =~= with_entries(s.drop_last(), f));
        lemma_rank_entries(ranking::ranked(s.drop_last()), s.last(), f);
    } else {
        assert(t =~= with_entries(ranking::ranked(s), f));
    }
}

// ── Due days ────────────────────────────────────────────

pub proof fn lemma_due(t: TaskView, holidays: Set<int>, from: int, to: int)
    ensures
        due_of(t, holidays, from, to) == today::task_days(t, holidays, from, to),
        days::ascending(due_of(t, holidays, from, to)),
        due_of(t, holidays, from, to).len() > 0 ==> ({
            let due = due_of(t, holidays, from, to);
            &&& due.contains(due[0])
            &&& due.contains(due.last())
            &&& forall|k: int| #[trigger] due.contains(k) ==> due[0] <= k <= due.last()
        }),
{
    let due = due_of(t, holidays, from, to);
    let p = json::param_of(today::param_text(t));
    recur_laws::law_ascending_in_window(
        recur::rule_of(t.recur_type, p),
        recur::cfg_of(p),
        holidays,
        from,
        to,
    );
    if due.len() > 0 {
        assert(due.contains(due[0]));
        assert(due.contains(due[due.len() - 1]));
        assert forall|k: int| #[trigger] due.contains(k) implies due[0] <= k <= due.last() by {
            let i = choose|i: int| 0 <= i < due.len() && due[i] == k;
            assert(i == 0 || due[0] < due[i]);
            assert(i == due.len() - 1 || due[i] < due[due.len() - 1]);
        }
    }
}

// ── Late work ───────────────────────────────────────────

/// A task has a late occurrence exactly if nothing was noted of its last due
/// day before today, whatever was noted of earlier ones. It is that of this
/// day.
pub proof fn law_late_task(
    t: TaskView,
    holidays: Set<int>,
    noted: Map<checks::Key, CheckView>,
    today: int,
    n: int,
)
    ensures
        is_late(t, holidays, noted, today, n) <==> (today::late_occurrence(
            t,
            holidays,
            noted,
            today,
        ) matches Some(o) && o.0 == n - today),
        is_late(t, holidays, noted, today, n) ==> ({
            let o = today::late_occurrence(t, holidays, noted, today).unwrap().1;
            &&& shows(o, t, n)
            &&& shows_nothing(o)
            &&& o.days_late == today - n
            &&& o.upcoming_label is None
        }),
{
    let due = due_of(t, holidays, oldest_of(t, today), today - 1);
    lemma_due(t, holidays, oldest_of(t, today), today - 1);
    assert(today::not_before_creation(t, today - today::PAST_DAYS) == oldest_of(t, today));
    reveal_strlit("none");
    reveal_strlit("done");
    assert("none"@[0] != "done"@[0]);
    if is_late(t, holidays, noted, today, n) {
        assert(due.len() > 0);
        assert(due.contains(due.last()));
        assert(n == due.last());
    }
}

/// What the late list is made from.
spec fn late_places(
    tasks: Seq<TaskView>,
    holidays: Set<int>,
    noted: Map<checks::Key, CheckView>,
    today: int,
) -> Seq<Place>
    decreases tasks.len(),
{
    if tasks.len() == 0 {
        Seq::empty()
    } else {
        let before = late_places(tasks.drop_last(), holidays, noted, today);
        match today::late_occurrence(tasks.last(), holidays, noted, today) {
            Some(o) => before.push((o.0, (tasks.len() - 1, o.0 + today))),
            None => before,
        }
    }
}

spec fn late_entry(
    tasks: Seq<TaskView>,
    holidays: Set<int>,
    noted: Map<checks::Key, CheckView>,
    today: int,
) -> spec_fn((int, int)) -> OccurrenceView {
    |w: (int, int)| today::late_occurrence(tasks[w.0], holidays, noted, today).unwrap().1
}

proof fn lemma_late_places(
    tasks: Seq<TaskView>,
    k: int,
    holidays: Set<int>,
    noted: Map<checks::Key, CheckView>,
    today: int,
)
    requires
        0 <= k <= tasks.len(),
    ensures
        ({
            let s = late_places(tasks.take(k), holidays, noted, today);
            &&& today::late_list(tasks.take(k), holidays, noted, today) == with_entries(
                s,
                late_entry(tasks, holidays, noted, today),
            )
            &&& forall|a: int, b: int|
                0 <= a < b < s.len() ==> (#[trigger] s[a]).1.0 < (#[trigger] s[b]).1.0
            &&& forall|v: Place| #[trigger]
                s.contains(v) <==> 0 <= v.1.0 < k && v.0 == v.1.1 - today && is_late(
                    tasks[v.1.0],
                    holidays,
                    noted,
                    today,
                    v.1.1,
                )
        }),
    decreases k,
{
    let f = late_entry(tasks, holidays, noted, today);
    let now = tasks.take(k);
    let s = late_places(now, holidays, noted, today);
    if k == 0 {
        assert(today::late_list(now, holidays, noted, today) =~= with_entries(s, f));
    } else {
        lemma_late_places(tasks, k - 1, holidays, noted, today);
        assert(now.drop_last() =~= tasks.take(k - 1));
        assert(now.last() == tasks[k - 1]);
        let before = late_places(tasks.take(k - 1), holidays, noted, today);
        let found = today::late_occurrence(tasks[k - 1], holidays, noted, today);
        assert(today::late_list(now, holidays, noted, today) =~= with_entries(s, f));
        assert forall|v: Place| #[trigger] s.contains(v) <==> 0 <= v.1.0 < k && v.0 == v.1.1 - today
            && is_late(tasks[v.1.0], holidays, noted, today, v.1.1) by {
            law_late_task(tasks[v.1.0], holidays, noted, today, v.1.1);
            assert(before.contains(v) <==> 0 <= v.1.0 < k - 1 && v.0 == v.1.1 - today && is_late(
                tasks[v.1.0],
                holidays,
                noted,
                today,
                v.1.1,
            ));
            if let Some(o) = found {
                lemma_push_contains(before, (o.0, (k - 1, o.0 + today)), v);
            }
        }
        assert forall|a: int, b: int| 0 <= a < b < s.len() implies (#[trigger] s[a]).1.0 < (
        #[trigger] s[b]).1.0 by {
            assert(s[a] == before[a]);
            assert(before.contains(before[a]));
            if b < before.len() {
                assert(s[b] == before[b]);
            }
        }
    }
}

/// The list of late work has one entry for every late task, on its last due
/// day, and no other. It comes by that day, the earliest first, and of one day
/// in the order of the tasks. `who` gives the task and the day of each entry.
pub proof fn law_overdue(
    tasks: Seq<TaskView>,
    holidays: Set<int>,
    noted: Map<checks::Key, CheckView>,
    today: int,
) -> (who: Seq<(int, int)>)
    ensures
        who.len() == today::overdue_list(tasks, holidays, noted, today).len(),
        forall|j: int|
            0 <= j < who.len() ==> {
                let o = today::overdue_list(tasks, holidays, noted, today)[j];
                let (i, n) = #[trigger] who[j];
                &&& 0 <= i < tasks.len()
                &&& is_late(tasks[i], holidays, noted, today, n)
                &&& shows(o, tasks[i], n)
                &&& shows_nothing(o)
                &&& o.days_late == today - n
                &&& o.upcoming_label is None
            },
        forall|i: int, n: int|
            0 <= i < tasks.len() && #[trigger] is_late(tasks[i], holidays, noted, today, n)
                ==> who.contains((i, n)),
        forall|a: int, b: int|
            0 <= a < b < who.len() ==> (#[trigger] who[a]).1 < (#[trigger] who[b]).1 || (who[a].1
                == who[b].1 && who[a].0 < who[b].0),
{
    let f = late_entry(tasks, holidays, noted, today);
    let s = late_places(tasks, holidays, noted, today);
    lemma_late_places(tasks, tasks.len() as int, holidays, noted, today);
    assert(tasks.take(tasks.len() as int) =~= tasks);
    lemma_ranked_places(s);
    lemma_ranked_entries(s, f);
    let r = ranking::ranked(s);
    let who = Seq::new(r.len(), |j: int| r[j].1);
    let list = today::overdue_list(tasks, holidays, noted, today);
    assert forall|j: int| 0 <= j < who.len() implies {
        let o = list[j];
        let (i, n) = #[trigger] who[j];
        &&& 0 <= i < tasks.len()
        &&& is_late(tasks[i], holidays, noted, today, n)
        &&& shows(o, tasks[i], n)
        &&& shows_nothing(o)
        &&& o.days_late == today - n
        &&& o.upcoming_label is None
    } by {
        assert(r.contains(r[j]));
        assert(s.contains(r[j]));
        law_late_task(tasks[who[j].0], holidays, noted, today, who[j].1);
    }
    assert forall|i: int, n: int|
        0 <= i < tasks.len() && #[trigger] is_late(
            tasks[i],
            holidays,
            noted,
            today,
            n,
        ) implies who.contains((i, n)) by {
        let v: Place = (n - today, (i, n));
        assert(s.contains(v));
        assert(r.contains(v));
        let j = choose|j: int| 0 <= j < r.len() && r[j] == v;
        assert(who[j] == (i, n));
    }
    assert forall|a: int, b: int| 0 <= a < b < who.len() implies (#[trigger] who[a]).1 < (
    #[trigger] who[b]).1 || (who[a].1 == who[b].1 && who[a].0 < who[b].0) by {
        assert(r.contains(r[a]) && r.contains(r[b]));
        assert(s.contains(r[a]) && s.contains(r[b]));
    }
    who
}

// ── Upcoming work ───────────────────────────────────────

/// A task has an upcoming occurrence exactly if it is not daily and due in the
/// next 14 days. It is that of the first such day.
pub proof fn law_next_task(t: TaskView, holidays: Set<int>, today: int, n: int)
    ensures
        is_next(t, holidays, today, n) <==> (today::next_occurrence(
            t,
            holidays,
            today,
        ) matches Some(o) && o.0 == n),
        is_next(t, holidays, today, n) ==> ({
            let o = today::next_occurrence(t, holidays, today).unwrap().1;
            &&& shows(o, t, n)
            &&& shows_nothing(o)
            &&& o.days_late == 0
            &&& o.upcoming_label == Some(
                label::short_text(t.recur_type) + " · "@ + label::month_and_day(n) + " 예정"@,
            )
        }),
{
    let due = due_of(t, holidays, today + 1, today + 14);
    lemma_due(t, holidays, today + 1, today + 14);
    reveal_strlit("none");
    reveal_strlit("done");
    assert("none"@[0] != "done"@[0]);
    if is_next(t, holidays, today, n) {
        assert(due.len() > 0);
        assert(due.contains(due[0]));
        assert(n == due[0]);
    }
}

/// What the upcoming list is made from.
spec fn next_places(tasks: Seq<TaskView>, holidays: Set<int>, today: int) -> Seq<Place>
    decreases tasks.len(),
{
    if tasks.len() == 0 {
        Seq::empty()
    } else {
        let before = next_places(tasks.drop_last(), holidays, today);
        match today::next_occurrence(tasks.last(), holidays, today) {
            Some(o) => before.push((o.0, (tasks.len() - 1, o.0))),
            None => before,
        }
    }
}

spec fn next_entry(tasks: Seq<TaskView>, holidays: Set<int>, today: int) -> spec_fn(
    (int, int),
) -> OccurrenceView {
    |w: (int, int)| today::next_occurrence(tasks[w.0], holidays, today).unwrap().1
}

proof fn lemma_next_places(tasks: Seq<TaskView>, k: int, holidays: Set<int>, today: int)
    requires
        0 <= k <= tasks.len(),
    ensures
        ({
            let s = next_places(tasks.take(k), holidays, today);
            &&& today::next_list(tasks.take(k), holidays, today) == with_entries(
                s,
                next_entry(tasks, holidays, today),
            )
            &&& forall|a: int, b: int|
                0 <= a < b < s.len() ==> (#[trigger] s[a]).1.0 < (#[trigger] s[b]).1.0
            &&& forall|v: Place| #[trigger]
                s.contains(v) <==> 0 <= v.1.0 < k && v.0 == v.1.1 && is_next(
                    tasks[v.1.0],
                    holidays,
                    today,
                    v.1.1,
                )
        }),
    decreases k,
{
    let f = next_entry(tasks, holidays, today);
    let now = tasks.take(k);
    let s = next_places(now, holidays, today);
    if k == 0 {
        assert(today::next_list(now, holidays, today) =~= with_entries(s, f));
    } else {
        lemma_next_places(tasks, k - 1, holidays, today);
        assert(now.drop_last() =~= tasks.take(k - 1));
        assert(now.last() == tasks[k - 1]);
        let before = next_places(tasks.take(k - 1), holidays, today);
        let found = today::next_occurrence(tasks[k - 1], holidays, today);
        assert(today::next_list(now, holidays, today) =~= with_entries(s, f));
        assert forall|v: Place| #[trigger] s.contains(v) <==> 0 <= v.1.0 < k && v.0 == v.1.1
            && is_next(tasks[v.1.0], holidays, today, v.1.1) by {
            law_next_task(tasks[v.1.0], holidays, today, v.1.1);
            assert(before.contains(v) <==> 0 <= v.1.0 < k - 1 && v.0 == v.1.1 && is_next(
                tasks[v.1.0],
                holidays,
                today,
                v.1.1,
            ));
            if let Some(o) = found {
                lemma_push_contains(before, (o.0, (k - 1, o.0)), v);
            }
        }
        assert forall|a: int, b: int| 0 <= a < b < s.len() implies (#[trigger] s[a]).1.0 < (
        #[trigger] s[b]).1.0 by {
            assert(s[a] == before[a]);
            assert(before.contains(before[a]));
            if b < before.len() {
                assert(s[b] == before[b]);
            }
        }
    }
}

/// The list of upcoming work has one entry for every task that is not daily and
/// due in the next 14 days, on the first such day, and no other. It comes by
/// that day, and of one day in the order of the tasks. `who` gives the task and
/// the day of each entry.
pub proof fn law_upcoming(tasks: Seq<TaskView>, holidays: Set<int>, today: int) -> (who: Seq<
    (int, int),
>)
    ensures
        who.len() == today::upcoming_list(tasks, holidays, today).len(),
        forall|j: int|
            0 <= j < who.len() ==> {
                let o = today::upcoming_list(tasks, holidays, today)[j];
                let (i, n) = #[trigger] who[j];
                &&& 0 <= i < tasks.len()
                &&& is_next(tasks[i], holidays, today, n)
                &&& shows(o, tasks[i], n)
                &&& shows_nothing(o)
                &&& o.days_late == 0
                &&& o.upcoming_label == Some(
                    label::short_text(tasks[i].recur_type) + " · "@ + label::month_and_day(n)
                        + " 예정"@,
                )
            },
        forall|i: int, n: int|
            0 <= i < tasks.len() && #[trigger] is_next(tasks[i], holidays, today, n)
                ==> who.contains((i, n)),
        forall|a: int, b: int|
            0 <= a < b < who.len() ==> (#[trigger] who[a]).1 < (#[trigger] who[b]).1 || (who[a].1
                == who[b].1 && who[a].0 < who[b].0),
{
    let f = next_entry(tasks, holidays, today);
    let s = next_places(tasks, holidays, today);
    lemma_next_places(tasks, tasks.len() as int, holidays, today);
    assert(tasks.take(tasks.len() as int) =~= tasks);
    lemma_ranked_places(s);
    lemma_ranked_entries(s, f);
    let r = ranking::ranked(s);
    let who = Seq::new(r.len(), |j: int| r[j].1);
    let list = today::upcoming_list(tasks, holidays, today);
    assert forall|j: int| 0 <= j < who.len() implies {
        let o = list[j];
        let (i, n) = #[trigger] who[j];
        &&& 0 <= i < tasks.len()
        &&& is_next(tasks[i], holidays, today, n)
        &&& shows(o, tasks[i], n)
        &&& shows_nothing(o)
        &&& o.days_late == 0
        &&& o.upcoming_label == Some(
            label::short_text(tasks[i].recur_type) + " · "@ + label::month_and_day(n) + " 예정"@,
        )
    } by {
        assert(r.contains(r[j]));
        assert(s.contains(r[j]));
        law_next_task(tasks[who[j].0], holidays, today, who[j].1);
    }
    assert forall|i: int, n: int|
        0 <= i < tasks.len() && #[trigger] is_next(
            tasks[i],
            holidays,
            today,
            n,
        ) implies who.contains((i, n)) by {
        let v: Place = (n, (i, n));
        assert(s.contains(v));
        assert(r.contains(v));
        let j = choose|j: int| 0 <= j < r.len() && r[j] == v;
        assert(who[j] == (i, n));
    }
    assert forall|a: int, b: int| 0 <= a < b < who.len() implies (#[trigger] who[a]).1 < (
    #[trigger] who[b]).1 || (who[a].1 == who[b].1 && who[a].0 < who[b].0) by {
        assert(r.contains(r[a]) && r.contains(r[b]));
        assert(s.contains(r[a]) && s.contains(r[b]));
    }
    who
}

// ── Present work ────────────────────────────────────────

/// A task has an occurrence today exactly if it is due today, whatever was noted
/// of it; the entry shows what was.
pub proof fn law_today_task(
    t: TaskView,
    holidays: Set<int>,
    noted: Map<checks::Key, CheckView>,
    today: int,
)
    ensures
        today::today_occurrence(t, holidays, noted, today) is Some <==> due_of(
            t,
            holidays,
            today,
            today,
        ).contains(today),
        today::today_occurrence(t, holidays, noted, today) matches Some(o) ==> {
            &&& shows(o, t, today)
            &&& o.days_late == 0
            &&& o.upcoming_label is None
            &&& if noted.contains_key((t.id, calendar::date_text(today))) {
                shows_check(o, noted[(t.id, calendar::date_text(today))])
            } else {
                shows_nothing(o)
            }
        },
{
    let due = due_of(t, holidays, today, today);
    lemma_due(t, holidays, today, today);
    let p = json::param_of(today::param_text(t));
    recur_laws::law_ascending_in_window(
        recur::rule_of(t.recur_type, p),
        recur::cfg_of(p),
        holidays,
        today,
        today,
    );
    if due.len() > 0 {
        assert(due[0] == today);
    }
    reveal_strlit("none");
    reveal_strlit("done");
    assert("none"@[0] != "done"@[0]);
}

/// The list of today's work has one entry for every task that is due today,
/// checked or not, and no other, in the order of the tasks. `who` gives the task
/// of each entry.
pub proof fn law_today(
    tasks: Seq<TaskView>,
    holidays: Set<int>,
    noted: Map<checks::Key, CheckView>,
    today: int,
) -> (who: Seq<int>)
    ensures
        who.len() == today::today_list(tasks, holidays, noted, today).len(),
        forall|a: int, b: int| 0 <= a < b < who.len() ==> who[a] < who[b],
        forall|i: int| #[trigger]
            who.contains(i) <==> 0 <= i < tasks.len() && due_of(
                tasks[i],
                holidays,
                today,
                today,
            ).contains(today),
        forall|j: int|
            0 <= j < who.len() ==> {
                let o = today::today_list(tasks, holidays, noted, today)[j];
                let t = tasks[#[trigger] who[j]];
                &&& shows(o, t, today)
                &&& o.days_late == 0
                &&& o.upcoming_label is None
                &&& if noted.contains_key((t.id, calendar::date_text(today))) {
                    shows_check(o, noted[(t.id, calendar::date_text(today))])
                } else {
                    shows_nothing(o)
                }
            },
    decreases tasks.len(),
{
    if tasks.len() == 0 {
        Seq::empty()
    } else {
        let front = tasks.drop_last();
        let last = tasks.len() - 1;
        let before = law_today(front, holidays, noted, today);
        law_today_task(tasks.last(), holidays, noted, today);
        let due = today::today_occurrence(tasks.last(), holidays, noted, today) is Some;
        let who = if due {
            before.push(last)
        } else {
            before
        };
        assert forall|j: int| 0 <= j < before.len() implies 0 <= #[trigger] before[j] < last
            && tasks[before[j]] == front[before[j]] by {
            assert(before.contains(before[j]));
        }
        assert forall|i: int| #[trigger] who.contains(i) <==> 0 <= i < tasks.len() && due_of(
            tasks[i],
            holidays,
            today,
            today,
        ).contains(today) by {
            lemma_push_contains(before, last, i);
            assert(before.contains(i) <==> 0 <= i < front.len() && due_of(
                front[i],
                holidays,
                today,
                today,
            ).contains(today));
            assert(0 <= i < last ==> front[i] == tasks[i]);
        }
        who
    }
}

} // verus!
