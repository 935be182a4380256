//! The records that the application stores and shows.

use vstd::prelude::*;

use crate::text;

verus! {

// ── Stored records ──────────────────────────────────────

/// Recurring work.
#[derive(Debug, Clone)]
pub struct Task {
    pub id: i64,
    pub name: String,
    pub memo: Option<String>,
    /// Links as a JSON array of titles and addresses.
    pub links: Option<String>,
    /// One of daily, weekly, monthly, quarterly, yearly and once.
    pub recur_type: String,
    /// The parameter of the recurrence type, as JSON.
    pub recur_param: Option<String>,
    pub active: i64,
    pub sort_order: Option<i64>,
    pub created_at: Option<String>,
    /// When to remind of the work, as hours and minutes.
    pub notify_time: Option<String>,
    /// How many days before a due date to remind of it.
    pub remind_before: Option<i64>,
    /// 0 for high, 1 for normal, 2 for low.
    pub priority: i64,
}

/// A setting.
#[derive(Debug, Clone)]
pub struct Setting {
    pub key: String,
    pub value: String,
}

/// A public holiday.
#[derive(Debug, Clone)]
pub struct Holiday {
    /// The date as year, month and day.
    pub date: String,
    pub name: String,
}

/// What was noted of one occurrence.
#[derive(Debug, Clone)]
pub struct CheckInfo {
    /// `done` or `skip`.
    pub status: String,
    pub memo: Option<String>,
}

/// A task in the list of all tasks.
#[derive(Debug, Clone)]
pub struct TaskListItem {
    pub task: Task,
    /// Whether the task was for one date and was checked on it.
    pub done_once: bool,
}

/// A task as it is entered. With an id it replaces that task.
#[derive(Debug, Clone)]
pub struct TaskDto {
    pub id: Option<i64>,
    pub name: String,
    pub memo: Option<String>,
    pub links: Option<String>,
    pub recur_type: String,
    pub recur_param: Option<String>,
    pub sort_order: Option<i64>,
    pub notify_time: Option<String>,
    pub remind_before: Option<i64>,
    pub priority: Option<i64>,
}

// ── Shown records ───────────────────────────────────────

/// One due date of a task.
#[derive(Debug, Clone)]
pub struct TaskOccurrence {
    pub task_id: i64,
    pub name: String,
    pub memo: Option<String>,
    pub links: Option<String>,
    pub recur_type: String,
    pub recur_param: Option<String>,
    pub due_date: String,
    pub rule_label: String,
    /// `none`, `done` or `skip`.
    pub status: String,
    /// Whether the status is `done`.
    pub checked: bool,
    pub check_memo: Option<String>,
    /// How many days the occurrence is late; 0 if it is not.
    pub days_late: i64,
    pub upcoming_label: Option<String>,
    pub priority: i64,
}

/// A number of occurrences; those that were skipped count only as skipped.
#[derive(Debug, Clone, Copy, PartialEq, Eq, Structural)]
pub struct Tally {
    pub done: i64,
    pub total: i64,
    pub skipped: i64,
}

/// What today's page shows.
#[derive(Debug)]
pub struct TodayView {
    pub date: String,
    pub overdue: Vec<TaskOccurrence>,
    pub today: Vec<TaskOccurrence>,
    pub upcoming: Vec<TaskOccurrence>,
    /// The occurrences of this week so far.
    pub week: Tally,
}

/// One day of this month. `done` and `total` leave out what was skipped.
#[derive(Debug)]
pub struct HeatCell {
    pub date: String,
    pub done: i64,
    pub total: i64,
    pub skipped: i64,
}

/// What the statistics page shows.
#[derive(Debug)]
pub struct Stats {
    pub streak_days: i64,
    pub month: Tally,
    pub week: Tally,
    pub quarter: Tally,
    pub heatmap: Vec<HeatCell>,
}

/// What is still to be done.
#[derive(Debug)]
pub struct PendingSummary {
    /// Number of late occurrences.
    pub overdue: i64,
    /// Late occurrences and today's that are not checked.
    pub total: i64,
    /// Task and due date of the late occurrences.
    pub overdue_keys: Vec<(i64, String)>,
    /// At most two task names, late ones first.
    pub sample_names: Vec<String>,
}

// ── Issue tracker ───────────────────────────────────────

/// An account of the issue tracker.
#[derive(Debug, Clone)]
pub struct JiraUser {
    pub account_id: String,
    pub display_name: String,
}

/// What came of asking the issue tracker.
#[derive(Debug, Clone)]
pub struct PollResult {
    pub new_count: i64,
    pub error: Option<String>,
}

/// A stored notification.
#[derive(Debug, Clone)]
pub struct JiraNotificationRow {
    pub id: i64,
    pub event_uid: String,
    pub issue_key: String,
    pub project_key: String,
    pub category: String,
    pub summary: String,
    pub detail: String,
    pub actor: String,
    pub event_at: String,
    pub fetched_at: String,
    pub read: i64,
}

// ── Models ──────────────────────────────────────────────

/// What was noted of one occurrence.
pub struct CheckView {
    pub status: Seq<char>,
    pub memo: Option<Seq<char>>,
}

impl CheckInfo {
    pub open spec fn view(&self) -> CheckView {
        CheckView { status: self.status@, memo: text::opt_text(self.memo) }
    }
}

/// Recurring work, as far as its occurrences depend on it.
pub struct TaskView {
    pub id: int,
    pub name: Seq<char>,
    pub memo: Option<Seq<char>>,
    pub links: Option<Seq<char>>,
    pub recur_type: Seq<char>,
    pub recur_param: Option<Seq<char>>,
    pub created_at: Option<Seq<char>>,
    pub notify_time: Option<Seq<char>>,
    pub remind_before: Option<i64>,
    pub priority: int,
}

impl Task {
    pub open spec fn view(&self) -> TaskView {
        TaskView {
            id: self.id as int,
            name: self.name@,
            memo: text::opt_text(self.memo),
            links: text::opt_text(self.links),
            recur_type: self.recur_type@,
            recur_param: text::opt_text(self.recur_param),
            created_at: text::opt_text(self.created_at),
            notify_time: text::opt_text(self.notify_time),
            remind_before: self.remind_before,
            priority: self.priority as int,
        }
    }
}

/// The views of a list of tasks.
pub open spec fn task_views(tasks: Seq<Task>) -> Seq<TaskView> {
    Seq::new(tasks.len(), |i: int| tasks[i].view())
}

/// One due date of a task.
#[verifier::ext_equal]
pub struct OccurrenceView {
    pub task_id: int,
    pub name: Seq<char>,
    pub memo: Option<Seq<char>>,
    pub links: Option<Seq<char>>,
    pub recur_type: Seq<char>,
    pub recur_param: Option<Seq<char>>,
    pub due_date: Seq<char>,
    pub rule_label: Seq<char>,
    pub status: Seq<char>,
    pub checked: bool,
    pub check_memo: Option<Seq<char>>,
    pub days_late: int,
    pub upcoming_label: Option<Seq<char>>,
    pub priority: int,
}

impl TaskOccurrence {
    pub open spec fn view(&self) -> OccurrenceView {
        OccurrenceView {
            task_id: self.task_id as int,
            name: self.name@,
            memo: text::opt_text(self.memo),
            links: text::opt_text(self.links),
            recur_type: self.recur_type@,
            recur_param: text::opt_text(self.recur_param),
            due_date: self.due_date@,
            rule_label: self.rule_label@,
            status: self.status@,
            checked: self.checked,
            check_memo: text::opt_text(self.check_memo),
            days_late: self.days_late as int,
            upcoming_label: text::opt_text(self.upcoming_label),
            priority: self.priority as int,
        }
    }
}

/// The views of a list of occurrences.
pub open spec fn occurrence_views(v: Seq<TaskOccurrence>) -> Seq<OccurrenceView> {
    Seq::new(v.len(), |i: int| v[i].view())
}

/// The keys and values of some settings.
pub open spec fn setting_pairs(settings: Seq<Setting>) -> Seq<(Seq<char>, Seq<char>)> {
    Seq::new(settings.len(), |i: int| (settings[i].key@, settings[i].value@))
}

} // verus!
