//! Pages, summaries and statistics.

use workcheck::calendar::Date;
use workcheck::checks::toggle_check;
use workcheck::checks::Checks;
use workcheck::checks::ToggleAction;
use workcheck::days::DateSet;
use workcheck::model::CheckInfo;
use workcheck::model::Tally;
use workcheck::model::Task;
use workcheck::model::TaskDto;
use workcheck::pages;
use workcheck::stats;
use workcheck::today;

fn d(y: i32, m: u32, day: u32) -> Date {
    Date::from_ymd_opt(y, m, day).unwrap()
}

fn task(id: i64, name: &str, recur_type: &str, param: &str) -> Task {
    Task {
        id,
        name: name.to_string(),
        memo: Some("memo".to_string()),
        links: None,
        recur_type: recur_type.to_string(),
        recur_param: Some(param.to_string()),
        active: 1,
        sort_order: Some(0),
        created_at: Some("2026-01-01 09:00:00".to_string()),
        notify_time: None,
        remind_before: None,
        priority: 1,
    }
}

fn note(checks: &mut Checks, id: i64, date: &str, status: &str) {
    checks.insert(id, date.to_string(), CheckInfo { status: status.to_string(), memo: Some("note".to_string()) });
}

fn dto(id: Option<i64>) -> TaskDto {
    TaskDto {
        id,
        name: "n".to_string(),
        memo: None,
        links: None,
        recur_type: "daily".to_string(),
        recur_param: None,
        sort_order: None,
        notify_time: None,
        remind_before: None,
        priority: None,
    }
}

#[test]
fn late_today_and_upcoming() {
    // July 22, 2026 is a Wednesday.
    let today = d(2026, 7, 22);
    let tasks = vec![
        task(1, "daily", "daily", "{}"),
        task(2, "friday", "weekly", r#"{"weekdays":[5]}"#),
        task(3, "wednesday", "weekly", r#"{"weekdays":[3]}"#),
        task(4, "month end", "monthly", r#"{"days":[31]}"#),
        task(5, "monday", "weekly", r#"{"weekdays":[1]}"#),
    ];
    let mut checks = Checks::new();
    note(&mut checks, 5, "2026-07-20", "done");
    note(&mut checks, 3, "2026-07-22", "done");
    let view = pages::get_today_view(&tasks, &DateSet::new(), &checks, today);
    assert_eq!(view.date, "2026-07-22");

    let late: Vec<(i64, i64, &str)> =
        view.overdue.iter().map(|o| (o.task_id, o.days_late, o.due_date.as_str())).collect();
    assert_eq!(
        late,
        vec![(4, 22, "2026-06-30"), (3, 7, "2026-07-15"), (2, 5, "2026-07-17"), (1, 1, "2026-07-21")]
    );
    assert!(view.overdue.iter().all(|o| o.status == "none" && !o.checked && o.check_memo.is_none()));

    let due: Vec<(i64, &str, bool)> =
        view.today.iter().map(|o| (o.task_id, o.status.as_str(), o.checked)).collect();
    assert_eq!(due, vec![(1, "none", false), (3, "done", true)]);
    assert_eq!(view.today[1].check_memo, Some("note".to_string()));
    assert_eq!(view.today[1].rule_label, "매주 · 수");
    assert_eq!(view.today[1].memo, Some("memo".to_string()));

    let next: Vec<(i64, &str)> = view.upcoming.iter().map(|o| (o.task_id, o.due_date.as_str())).collect();
    assert_eq!(next, vec![(2, "2026-07-24"), (5, "2026-07-27"), (3, "2026-07-29"), (4, "2026-07-31")]);
    assert_eq!(view.upcoming[0].upcoming_label, Some("매주 · 7/24 예정".to_string()));
    assert_eq!(view.upcoming[3].upcoming_label, Some("매월 · 7/31 예정".to_string()));
    assert_eq!(view.upcoming[0].days_late, 0);

    // Monday to Wednesday: three daily ones, one each of Monday and Wednesday.
    assert_eq!(view.week, Tally { done: 2, total: 5, skipped: 0 });
}

#[test]
fn equally_late_keep_the_order_of_the_tasks() {
    let tasks = vec![task(9, "a", "daily", "{}"), task(3, "b", "daily", "{}"), task(5, "c", "daily", "{}")];
    let (late, due) = today::compute_overdue_today(&tasks, &DateSet::new(), &Checks::new(), d(2026, 7, 22));
    assert_eq!(late.iter().map(|o| o.task_id).collect::<Vec<_>>(), vec![9, 3, 5]);
    assert_eq!(due.len(), 3);
}

#[test]
fn nothing_is_due_before_a_task_was_created() {
    let today = d(2026, 7, 22);
    let mut t = task(1, "a", "daily", "{}");
    t.created_at = Some("2026-07-22 08:00:00".to_string());
    assert_eq!(today::created_date(&t), Some(today));
    let (late, due) = today::compute_overdue_today(&vec![t], &DateSet::new(), &Checks::new(), today);
    assert!(late.is_empty());
    assert_eq!(due.len(), 1);
    for created in [None, Some("".to_string()), Some("가나다라마".to_string()), Some("2026/07/22 08".to_string())] {
        let mut t = task(1, "a", "daily", "{}");
        t.created_at = created;
        assert_eq!(today::created_date(&t), None);
        assert_eq!(today::clamp_from(&t, today), today);
    }
}

#[test]
fn late_ones_are_looked_for_far_enough_back() {
    let t = task(1, "a", "once", r#"{"date":"2026-04-01"}"#);
    let (late, _) = today::compute_overdue_today(&vec![t], &DateSet::new(), &Checks::new(), d(2026, 7, 30));
    assert_eq!(late.len(), 1);
    assert_eq!(late[0].days_late, 120);
    let t = task(1, "a", "once", r#"{"date":"2026-04-01"}"#);
    let (late, _) = today::compute_overdue_today(&vec![t], &DateSet::new(), &Checks::new(), d(2026, 7, 31));
    assert!(late.is_empty());
}

#[test]
fn skipped_is_neither_late_nor_counted() {
    let today = d(2026, 7, 22);
    let tasks = vec![task(1, "a", "daily", "{}")];
    let mut checks = Checks::new();
    note(&mut checks, 1, "2026-07-21", "skip");
    note(&mut checks, 1, "2026-07-20", "done");
    note(&mut checks, 1, "2026-07-22", "skip");
    let (late, due) = today::compute_overdue_today(&tasks, &DateSet::new(), &checks, today);
    assert!(late.is_empty());
    assert_eq!(due[0].status, "skip");
    assert!(!due[0].checked);
    let tally = stats::range_stats(&tasks, &DateSet::new(), &checks, d(2026, 7, 20), today);
    assert_eq!(tally, Tally { done: 1, total: 1, skipped: 2 });
    let s = pages::pending_summary(&tasks, &DateSet::new(), &checks, today);
    assert_eq!(s.total, 0);
}

#[test]
fn pending_work() {
    let today = d(2026, 7, 22);
    let tasks = vec![
        task(1, "one", "daily", "{}"),
        task(2, "two", "weekly", r#"{"weekdays":[3]}"#),
        task(3, "three", "weekly", r#"{"weekdays":[5]}"#),
    ];
    let mut checks = Checks::new();
    note(&mut checks, 1, "2026-07-21", "done");
    note(&mut checks, 2, "2026-07-15", "done");
    let s = pages::pending_summary(&tasks, &DateSet::new(), &checks, today);
    assert_eq!(s.overdue, 1);
    assert_eq!(s.total, 3);
    assert_eq!(s.overdue_keys, vec![(3, "2026-07-17".to_string())]);
    assert_eq!(s.sample_names, vec!["three".to_string(), "one".to_string()]);
    let none = pages::pending_summary(&vec![], &DateSet::new(), &checks, today);
    assert_eq!((none.overdue, none.total, none.sample_names.len()), (0, 0, 0));
}

#[test]
fn statistics() {
    let today = d(2026, 7, 22);
    let tasks = vec![task(1, "a", "daily", "{}")];
    let mut checks = Checks::new();
    for day in 18..22 {
        note(&mut checks, 1, &format!("2026-07-{}", day), "done");
    }
    let s = stats::get_stats(&tasks, &DateSet::new(), &checks, today);
    assert_eq!(s.streak_days, 4);
    assert_eq!(s.week, Tally { done: 2, total: 3, skipped: 0 });
    assert_eq!(s.month, Tally { done: 4, total: 22, skipped: 0 });
    assert_eq!(s.quarter, Tally { done: 4, total: 22, skipped: 0 });
    assert_eq!(s.heatmap.len(), 31);
    assert_eq!(s.heatmap[0].date, "2026-07-01");
    assert_eq!((s.heatmap[17].done, s.heatmap[17].total, s.heatmap[17].skipped), (1, 1, 0));
    assert_eq!((s.heatmap[30].done, s.heatmap[30].total), (0, 1));

    note(&mut checks, 1, "2026-07-22", "done");
    assert_eq!(stats::streak_days(&tasks, &DateSet::new(), &checks, today), 5);
    note(&mut checks, 1, "2026-07-20", "skip");
    assert_eq!(stats::streak_days(&tasks, &DateSet::new(), &checks, today), 4);
    checks.remove(1, "2026-07-20");
    assert_eq!(stats::streak_days(&tasks, &DateSet::new(), &checks, today), 2);
    assert_eq!(stats::get_stats(&vec![], &DateSet::new(), &checks, d(2026, 2, 3)).heatmap.len(), 28);
}

#[test]
fn weeks_and_quarters() {
    assert_eq!(stats::week_start(d(2026, 7, 22)), d(2026, 7, 20));
    assert_eq!(stats::week_start(d(2026, 7, 20)), d(2026, 7, 20));
    assert_eq!(stats::week_start(d(2026, 7, 26)), d(2026, 7, 20));
    let tasks = vec![task(1, "a", "daily", "{}")];
    let s = stats::get_stats(&tasks, &DateSet::new(), &Checks::new(), d(2026, 6, 2));
    assert_eq!(s.month.total, 2);
    assert_eq!(s.quarter.total, 30 + 31 + 2);
}

#[test]
fn toggling_twice_restores() {
    let mut checks = Checks::new();
    assert_eq!(toggle_check(&mut checks, 1, "2026-07-22"), ToggleAction::Insert);
    assert_eq!(checks.find(1, "2026-07-22").unwrap().status, "done");
    assert!(checks.find(2, "2026-07-22").is_none());
    assert_eq!(toggle_check(&mut checks, 1, "2026-07-22"), ToggleAction::Delete);
    assert!(checks.find(1, "2026-07-22").is_none());
    note(&mut checks, 1, "2026-07-22", "skip");
    note(&mut checks, 1, "2026-07-22", "done");
    assert_eq!(toggle_check(&mut checks, 1, "2026-07-22"), ToggleAction::Delete);
    assert!(checks.find(1, "2026-07-22").is_none());
}

#[test]
fn tasks_for_one_date() {
    let tasks = vec![
        task(1, "a", "once", r#"{"date":"2026-07-22"}"#),
        task(2, "b", "once", r#"{"date":"2026-07-22"}"#),
        task(3, "c", "daily", r#"{"date":"2026-07-22"}"#),
        task(4, "d", "once", "{}"),
    ];
    let mut checks = Checks::new();
    for id in [1, 3, 4] {
        note(&mut checks, id, "2026-07-22", "done");
    }
    let list = pages::list_tasks(tasks, &checks);
    assert_eq!(list.iter().map(|i| i.done_once).collect::<Vec<_>>(), vec![true, false, false, false]);
    assert_eq!(list[2].task.name, "c");
}

#[test]
fn entered_tasks() {
    assert_eq!(pages::update_id(&dto(Some(7))), Ok(7));
    assert_eq!(pages::update_id(&dto(None)), Err("업무 id가 없습니다".to_string()));
    let mut t = dto(None);
    assert_eq!((pages::stored_sort_order(&t), pages::stored_priority(&t)), (0, 1));
    t.sort_order = Some(5);
    t.priority = Some(2);
    assert_eq!((pages::stored_sort_order(&t), pages::stored_priority(&t)), (5, 2));
}

#[test]
fn holidays_by_text() {
    let set = pages::holiday_set(&vec!["2026-08-17".to_string(), "soon".to_string()]);
    assert!(set.has(d(2026, 8, 17).days()));
    assert!(!set.has(d(2026, 8, 18).days()));
}

#[test]
fn reminders_of_tasks() {
    let today = d(2026, 7, 22);
    let mut a = task(1, "a", "weekly", r#"{"weekdays":[3]}"#);
    a.notify_time = Some("10:00".to_string());
    let mut b = task(2, "b", "weekly", r#"{"weekdays":[5]}"#);
    b.notify_time = Some("10:00".to_string());
    b.remind_before = Some(2);
    let mut c = task(3, "c", "daily", "{}");
    c.remind_before = Some(3);
    let mut e = task(4, "e", "monthly", r#"{"days":[31]}"#);
    e.remind_before = Some(40);
    let tasks = vec![a, b, c, e];
    let mut checks = Checks::new();
    let list = pages::per_task_notify(&tasks, &DateSet::new(), &checks, today);
    assert_eq!(list[0].today_notify_time, Some("10:00".to_string()));
    assert_eq!(list[0].remind, None);
    assert_eq!(list[1].today_notify_time, None);
    assert_eq!(list[1].remind, Some((2, d(2026, 7, 24))));
    assert_eq!(list[2].remind, None);
    assert_eq!(list[3].remind, None);
    note(&mut checks, 1, "2026-07-22", "done");
    assert_eq!(pages::per_task_notify(&tasks, &DateSet::new(), &checks, today)[0].today_notify_time, None);
}
