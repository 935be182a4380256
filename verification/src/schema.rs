//! The database: its tables, how they came to be what they are, and what is in
//! them at first.

use vstd::prelude::*;

use crate::model;
use crate::model::Holiday;
use crate::model::Setting;
use crate::text::TextSet;

verus! {

/// The version of the tables once all steps were taken.
pub const SCHEMA_VERSION: i64 = 5;

// ── Steps ───────────────────────────────────────────────

/// A step from one version of the tables to the next.
#[derive(Debug, Clone, Copy, PartialEq, Eq, Structural)]
pub enum Migration {
    /// What was noted of an occurrence gets a status and a memo.
    CheckStatus,
    /// Tasks get reminders of their own.
    TaskReminders,
    /// Tasks get a priority.
    TaskPriority,
    /// Notifications from the issue tracker.
    JiraNotifications,
}

impl Migration {
    /// The version after the step.
    pub open spec fn target(self) -> int {
        match self {
            Migration::CheckStatus => 2,
            Migration::TaskReminders => 3,
            Migration::TaskPriority => 4,
            Migration::JiraNotifications => 5,
        }
    }

    /// The version after the step.
    pub fn version(self) -> (r: i64)
        ensures
            r == self.target(),
    {
        match self {
            Migration::CheckStatus => 2,
            Migration::TaskReminders => 3,
            Migration::TaskPriority => 4,
            Migration::JiraNotifications => 5,
        }
    }

    /// The statements of the step.
    pub open spec fn statements(self) -> Seq<char> {
        match self {
            Migration::CheckStatus => "ALTER TABLE CheckLog ADD COLUMN status TEXT NOT NULL DEFAULT 'done'; ALTER TABLE CheckLog ADD COLUMN memo TEXT; PRAGMA user_version = 2;"@,
            Migration::TaskReminders => "ALTER TABLE Task ADD COLUMN notify_time TEXT; ALTER TABLE Task ADD COLUMN remind_before INTEGER; PRAGMA user_version = 3;"@,
            Migration::TaskPriority => "ALTER TABLE Task ADD COLUMN priority INTEGER NOT NULL DEFAULT 1; PRAGMA user_version = 4;"@,
            Migration::JiraNotifications => "CREATE TABLE IF NOT EXISTS JiraNotification (id INTEGER PRIMARY KEY AUTOINCREMENT, event_uid TEXT NOT NULL UNIQUE, issue_key TEXT NOT NULL, project_key TEXT NOT NULL, category TEXT NOT NULL, summary TEXT NOT NULL, detail TEXT NOT NULL, actor TEXT NOT NULL, event_at TEXT NOT NULL, fetched_at TEXT NOT NULL, read INTEGER NOT NULL DEFAULT 0); CREATE INDEX IF NOT EXISTS idx_jira_notif_read ON JiraNotification(read, event_at DESC); PRAGMA user_version = 5;"@,
        }
    }

    /// The statements of the step.
    pub fn sql(self) -> (r: &'static str)
        ensures
            r@ == self.statements(),
    {
        match self {
            Migration::CheckStatus => "ALTER TABLE CheckLog ADD COLUMN status TEXT NOT NULL DEFAULT 'done'; ALTER TABLE CheckLog ADD COLUMN memo TEXT; PRAGMA user_version = 2;",
            Migration::TaskReminders => "ALTER TABLE Task ADD COLUMN notify_time TEXT; ALTER TABLE Task ADD COLUMN remind_before INTEGER; PRAGMA user_version = 3;",
            Migration::TaskPriority => "ALTER TABLE Task ADD COLUMN priority INTEGER NOT NULL DEFAULT 1; PRAGMA user_version = 4;",
            Migration::JiraNotifications => "CREATE TABLE IF NOT EXISTS JiraNotification (id INTEGER PRIMARY KEY AUTOINCREMENT, event_uid TEXT NOT NULL UNIQUE, issue_key TEXT NOT NULL, project_key TEXT NOT NULL, category TEXT NOT NULL, summary TEXT NOT NULL, detail TEXT NOT NULL, actor TEXT NOT NULL, event_at TEXT NOT NULL, fetched_at TEXT NOT NULL, read INTEGER NOT NULL DEFAULT 0); CREATE INDEX IF NOT EXISTS idx_jira_notif_read ON JiraNotification(read, event_at DESC); PRAGMA user_version = 5;",
        }
    }
}

/// All steps, in their order.
pub open spec fn all_steps() -> Seq<Migration> {
    seq![
        Migration::CheckStatus,
        Migration::TaskReminders,
        Migration::TaskPriority,
        Migration::JiraNotifications,
    ]
}

/// The steps of a list that lead beyond a version.
pub open spec fn steps_beyond(steps: Seq<Migration>, version: int) -> Seq<Migration>
    decreases steps.len(),
{
    if steps.len() == 0 {
        steps
    } else if version < steps.last().target() {
        steps_beyond(steps.drop_last(), version).push(steps.last())
    } else {
        steps_beyond(steps.drop_last(), version)
    }
}

/// The steps that tables of a version still need.
pub open spec fn steps_from(version: int) -> Seq<Migration> {
    steps_beyond(all_steps(), version)
}

/// The steps that tables of a version still need, in their order.
pub fn pending_migrations(version: i64) -> (r: Vec<Migration>)
    ensures
        r@ == steps_from(version as int),
{
    let mut out: Vec<Migration> = Vec::new();
    if version < Migration::CheckStatus.version() {
        out.push(Migration::CheckStatus);
    }
    if version < Migration::TaskReminders.version() {
        out.push(Migration::TaskReminders);
    }
    if version < Migration::TaskPriority.version() {
        out.push(Migration::TaskPriority);
    }
    if version < Migration::JiraNotifications.version() {
        out.push(Migration::JiraNotifications);
    }
    proof {
        let all = all_steps();
        assert(all.drop_last() =~= seq![
            Migration::CheckStatus,
            Migration::TaskReminders,
            Migration::TaskPriority,
        ]);
        assert(all.drop_last().drop_last() =~= seq![
            Migration::CheckStatus,
            Migration::TaskReminders,
        ]);
        assert(all.drop_last().drop_last().drop_last() =~= seq![Migration::CheckStatus]);
        reveal_with_fuel(steps_beyond, 5);
        assert(out@ =~= steps_from(version as int));
    }
    out
}

/// The version after some steps.
pub open spec fn version_after(version: int, steps: Seq<Migration>) -> int {
    if steps.len() == 0 {
        version
    } else {
        steps.last().target()
    }
}

/// However old the tables are, the steps take them to the present version, one
/// after the other; and once they are there, no step is left.
pub proof fn law_migrations(version: int)
    ensures
        version <= SCHEMA_VERSION ==> version_after(version, steps_from(version))
            == SCHEMA_VERSION,
        steps_from(SCHEMA_VERSION as int) == Seq::<Migration>::empty(),
        forall|i: int, j: int|
            0 <= i < j < steps_from(version).len() ==> (#[trigger] steps_from(version)[i]).target()
                < (#[trigger] steps_from(version)[j]).target(),
        forall|i: int|
            0 <= i < steps_from(version).len() ==> version < (#[trigger] steps_from(
                version,
            )[i]).target(),
{
    let all = all_steps();
    assert(all.drop_last() =~= seq![
        Migration::CheckStatus,
        Migration::TaskReminders,
        Migration::TaskPriority,
    ]);
    assert(all.drop_last().drop_last() =~= seq![Migration::CheckStatus, Migration::TaskReminders]);
    assert(all.drop_last().drop_last().drop_last() =~= seq![Migration::CheckStatus]);
    reveal_with_fuel(steps_beyond, 5);
}

/// A step is taken exactly if it leads beyond the version of the tables. The
/// checks come first, then the reminders, the priority and the notifications.
pub proof fn law_steps(version: int, step: Migration)
    ensures
        steps_from(version).contains(step) <==> version < match step {
            Migration::CheckStatus => 2int,
            Migration::TaskReminders => 3,
            Migration::TaskPriority => 4,
            Migration::JiraNotifications => 5,
        },
{
    lemma_steps_beyond(all_steps(), version, step);
    let all = all_steps();
    assert(all[0] == Migration::CheckStatus && all[1] == Migration::TaskReminders);
    assert(all[2] == Migration::TaskPriority && all[3] == Migration::JiraNotifications);
    assert(all.contains(step));
}

proof fn lemma_steps_beyond(steps: Seq<Migration>, version: int, step: Migration)
    ensures
        steps_beyond(steps, version).contains(step) <==> steps.contains(step) && version
            < step.target(),
    decreases steps.len(),
{
    if steps.len() > 0 {
        let front = steps.drop_last();
        let before = steps_beyond(front, version);
        let all = steps_beyond(steps, version);
        lemma_steps_beyond(front, version, step);
        if steps.contains(step) {
            let i = choose|i: int| 0 <= i < steps.len() && steps[i] == step;
            if i < front.len() {
                assert(front[i] == step);
            }
        }
        if front.contains(step) {
            let i = choose|i: int| 0 <= i < front.len() && front[i] == step;
            assert(steps[i] == step);
        }
        assert(steps[steps.len() - 1] == steps.last());
        if version < steps.last().target() {
            if before.contains(step) {
                let i = choose|i: int| 0 <= i < before.len() && before[i] == step;
                assert(all[i] == step);
            }
            assert(all[before.len() as int] == steps.last());
            if all.contains(step) {
                let i = choose|i: int| 0 <= i < all.len() && all[i] == step;
                if i < before.len() {
                    assert(before[i] == step);
                }
            }
        }
    }
}

/// The tables of the first version.
pub open spec fn base_statements() -> Seq<char> {
    "CREATE TABLE IF NOT EXISTS Task (id INTEGER PRIMARY KEY, name TEXT NOT NULL, memo TEXT, links TEXT, recur_type TEXT NOT NULL, recur_param TEXT, active INTEGER DEFAULT 1, sort_order INTEGER, created_at TEXT); CREATE TABLE IF NOT EXISTS CheckLog (id INTEGER PRIMARY KEY, task_id INTEGER NOT NULL REFERENCES Task(id), due_date TEXT NOT NULL, checked_at TEXT NOT NULL, UNIQUE(task_id, due_date)); CREATE TABLE IF NOT EXISTS Setting (key TEXT PRIMARY KEY, value TEXT); CREATE TABLE IF NOT EXISTS Holiday (date TEXT PRIMARY KEY, name TEXT);"@
}

/// The tables of the first version.
pub fn base_sql() -> (r: &'static str)
    ensures
        r@ == base_statements(),
{
    "CREATE TABLE IF NOT EXISTS Task (id INTEGER PRIMARY KEY, name TEXT NOT NULL, memo TEXT, links TEXT, recur_type TEXT NOT NULL, recur_param TEXT, active INTEGER DEFAULT 1, sort_order INTEGER, created_at TEXT); CREATE TABLE IF NOT EXISTS CheckLog (id INTEGER PRIMARY KEY, task_id INTEGER NOT NULL REFERENCES Task(id), due_date TEXT NOT NULL, checked_at TEXT NOT NULL, UNIQUE(task_id, due_date)); CREATE TABLE IF NOT EXISTS Setting (key TEXT PRIMARY KEY, value TEXT); CREATE TABLE IF NOT EXISTS Holiday (date TEXT PRIMARY KEY, name TEXT);"
}

/// How a notification is stored: one that is there already is left alone.
pub open spec fn insert_event_statement() -> Seq<char> {
    "INSERT OR IGNORE INTO JiraNotification (event_uid, issue_key, project_key, category, summary, detail, actor, event_at, fetched_at, read) VALUES(?1,?2,?3,?4,?5,?6,?7,?8,?9,0)"@
}

/// How a notification is stored: one that is there already is left alone.
pub fn insert_event_sql() -> (r: &'static str)
    ensures
        r@ == insert_event_statement(),
{
    "INSERT OR IGNORE INTO JiraNotification (event_uid, issue_key, project_key, category, summary, detail, actor, event_at, fetched_at, read) VALUES(?1,?2,?3,?4,?5,?6,?7,?8,?9,0)"
}

// ── First contents ──────────────────────────────────────

/// The settings at first.
pub open spec fn first_settings() -> Seq<(Seq<char>, Seq<char>)> {
    seq![
        ("notify_enabled"@, "1"@),
        ("notify_time"@, "09:00"@),
        ("notify_on_overdue"@, "1"@),
        ("close_to_tray"@, "1"@),
        ("theme"@, "system"@),
        ("auto_backup"@, "1"@),
        ("hotkey_toggle"@, "Ctrl+Alt+W"@),
        ("hotkey_quick"@, "Ctrl+Alt+A"@),
        ("jira_enabled"@, "0"@),
        ("jira_base_url"@, "https://gmdsoft.atlassian.net"@),
        ("jira_email"@, ""@),
        ("jira_api_token"@, ""@),
        ("jira_account_id"@, ""@),
        ("jira_project"@, "APP"@),
        ("jira_categories"@, "created,assignee,comment,mention,assigned"@),
        ("jira_my_issues_only"@, "1"@),
        ("jira_poll_secs"@, "180"@),
        ("jira_last_poll"@, ""@),
        ("jira_last_error"@, ""@),
    ]
}

/// A setting with a key and a value.
fn setting(key: &str, value: &str) -> (r: Setting)
    ensures
        r.key@ == key@,
        r.value@ == value@,
{
    Setting { key: key.to_owned(), value: value.to_owned() }
}

/// The settings at first.
pub fn default_settings() -> (r: Vec<Setting>)
    ensures
        model::setting_pairs(r@) == first_settings(),
{
    let mut v: Vec<Setting> = Vec::new();
    v.push(setting("notify_enabled", "1"));
    v.push(setting("notify_time", "09:00"));
    v.push(setting("notify_on_overdue", "1"));
    v.push(setting("close_to_tray", "1"));
    v.push(setting("theme", "system"));
    v.push(setting("auto_backup", "1"));
    v.push(setting("hotkey_toggle", "Ctrl+Alt+W"));
    v.push(setting("hotkey_quick", "Ctrl+Alt+A"));
    v.push(setting("jira_enabled", "0"));
    v.push(setting("jira_base_url", "https://gmdsoft.atlassian.net"));
    v.push(setting("jira_email", ""));
    v.push(setting("jira_api_token", ""));
    v.push(setting("jira_account_id", ""));
    v.push(setting("jira_project", "APP"));
    v.push(setting("jira_categories", "created,assignee,comment,mention,assigned"));
    v.push(setting("jira_my_issues_only", "1"));
    v.push(setting("jira_poll_secs", "180"));
    v.push(setting("jira_last_poll", ""));
    v.push(setting("jira_last_error", ""));
    assert(model::setting_pairs(v@) =~= first_settings());
    v
}

/// The dates and names of some holidays.
pub open spec fn holiday_pairs(v: Seq<Holiday>) -> Seq<(Seq<char>, Seq<char>)> {
    Seq::new(v.len(), |i: int| (v[i].date@, v[i].name@))
}

/// The Korean public holidays of 2026.
pub open spec fn holidays_of_2026() -> Seq<(Seq<char>, Seq<char>)> {
    seq![
        ("2026-01-01"@, "신정"@),
        ("2026-02-16"@, "설날 연휴"@),
        ("2026-02-17"@, "설날"@),
        ("2026-02-18"@, "설날 연휴"@),
        ("2026-03-01"@, "삼일절"@),
        ("2026-03-02"@, "삼일절 대체공휴일"@),
        ("2026-05-05"@, "어린이날"@),
        ("2026-05-24"@, "부처님오신날"@),
        ("2026-05-25"@, "부처님오신날 대체공휴일"@),
        ("2026-06-03"@, "전국동시지방선거"@),
        ("2026-06-06"@, "현충일"@),
        ("2026-08-15"@, "광복절"@),
        ("2026-08-17"@, "광복절 대체공휴일"@),
        ("2026-09-24"@, "추석 연휴"@),
        ("2026-09-25"@, "추석"@),
        ("2026-09-26"@, "추석 연휴"@),
        ("2026-10-03"@, "개천절"@),
        ("2026-10-05"@, "개천절 대체공휴일"@),
        ("2026-10-09"@, "한글날"@),
        ("2026-12-25"@, "성탄절"@),
    ]
}

/// A holiday with a date and a name.
fn holiday(date: &str, name: &str) -> (r: Holiday)
    ensures
        r.date@ == date@,
        r.name@ == name@,
{
    Holiday { date: date.to_owned(), name: name.to_owned() }
}

/// The holidays to enter: those of 2026, once. After that none, so that deleted
/// ones do not come back.
pub fn seed_holidays(seeded: bool) -> (r: Vec<Holiday>)
    ensures
        holiday_pairs(r@) == if seeded {
            Seq::empty()
        } else {
            holidays_of_2026()
        },
{
    let mut v: Vec<Holiday> = Vec::new();
    if seeded {
        assert(holiday_pairs(v@) =~= Seq::empty());
        return v;
    }
    v.push(holiday("2026-01-01", "신정"));
    v.push(holiday("2026-02-16", "설날 연휴"));
    v.push(holiday("2026-02-17", "설날"));
    v.push(holiday("2026-02-18", "설날 연휴"));
    v.push(holiday("2026-03-01", "삼일절"));
    v.push(holiday("2026-03-02", "삼일절 대체공휴일"));
    v.push(holiday("2026-05-05", "어린이날"));
    v.push(holiday("2026-05-24", "부처님오신날"));
    v.push(holiday("2026-05-25", "부처님오신날 대체공휴일"));
    v.push(holiday("2026-06-03", "전국동시지방선거"));
    v.push(holiday("2026-06-06", "현충일"));
    v.push(holiday("2026-08-15", "광복절"));
    v.push(holiday("2026-08-17", "광복절 대체공휴일"));
    v.push(holiday("2026-09-24", "추석 연휴"));
    v.push(holiday("2026-09-25", "추석"));
    v.push(holiday("2026-09-26", "추석 연휴"));
    v.push(holiday("2026-10-03", "개천절"));
    v.push(holiday("2026-10-05", "개천절 대체공휴일"));
    v.push(holiday("2026-10-09", "한글날"));
    v.push(holiday("2026-12-25", "성탄절"));
    assert(holiday_pairs(v@) =~= holidays_of_2026());
    v
}

// ── Entering the first contents ─────────────────────────

/// The setting that tells that the holidays were entered.
pub const SEED_FLAG: &'static str = "seed_holidays_2026";

/// Rows of a table with a key and a value each.
pub type Rows = Seq<(Seq<char>, Seq<char>)>;

/// The rows whose key is not there yet, in their order.
pub open spec fn missing(rows: Rows, present: Set<Seq<char>>) -> Rows
    decreases rows.len(),
{
    if rows.len() == 0 {
        rows
    } else if present.contains(rows.last().0) {
        missing(rows.drop_last(), present)
    } else {
        missing(rows.drop_last(), present).push(rows.last())
    }
}

/// The settings at first and the flag.
pub open spec fn first_rows() -> Rows {
    first_settings().push((SEED_FLAG@, "1"@))
}

/// The settings to add: those at first that are not there, and the flag.
pub open spec fn settings_to_add(keys: Set<Seq<char>>) -> Rows {
    missing(first_rows(), keys)
}

/// The holidays to add: those of 2026 that are not there, unless the flag is set.
pub open spec fn holidays_to_add(keys: Set<Seq<char>>, dates: Set<Seq<char>>) -> Rows {
    if keys.contains(SEED_FLAG@) {
        Seq::empty()
    } else {
        missing(holidays_of_2026(), dates)
    }
}

/// The rows to add to the database.
#[derive(Debug)]
pub struct FirstRows {
    pub settings: Vec<Setting>,
    pub holidays: Vec<Holiday>,
}

/// The rows to add to the database, by the keys of the settings and the dates of
/// the holidays that are there.
pub fn seed(keys: &TextSet, dates: &TextSet) -> (r: FirstRows)
    ensures
        model::setting_pairs(r.settings@) == settings_to_add(keys@),
        holiday_pairs(r.holidays@) == holidays_to_add(keys@, dates@),
{
    let mut all = default_settings();
    all.push(setting(SEED_FLAG, "1"));
    let ghost rows = first_rows();
    assert(model::setting_pairs(all@) =~= rows);
    let mut settings: Vec<Setting> = Vec::new();
    assert(model::setting_pairs(settings@) =~= missing(rows.take(0), keys@));
    for s in it: all
        invariant
            rows == model::setting_pairs(it.seq()),
            model::setting_pairs(settings@) == missing(rows.take(it.index()), keys@),
    {
        let ghost before = model::setting_pairs(settings@);
        let ghost i = it.index();
        assert(rows.take(i + 1).drop_last() == rows.take(i));
        assert(rows.take(i + 1).last() == (s.key@, s.value@));
        if !keys.has(s.key.as_str()) {
            settings.push(s);
            assert(model::setting_pairs(settings@) =~= before.push(rows[i]));
        }
    }
    assert(rows.take(rows.len() as int) == rows);
    let days = seed_holidays(keys.has(SEED_FLAG));
    let ghost dated = holiday_pairs(days@);
    let mut holidays: Vec<Holiday> = Vec::new();
    assert(holiday_pairs(holidays@) =~= missing(dated.take(0), dates@));
    for h in it: days
        invariant
            dated == holiday_pairs(it.seq()),
            holiday_pairs(holidays@) == missing(dated.take(it.index()), dates@),
    {
        let ghost before = holiday_pairs(holidays@);
        let ghost i = it.index();
        assert(dated.take(i + 1).drop_last() == dated.take(i));
        assert(dated.take(i + 1).last() == (h.date@, h.name@));
        if !dates.has(h.date.as_str()) {
            holidays.push(h);
            assert(holiday_pairs(holidays@) =~= before.push(dated[i]));
        }
    }
    assert(dated.take(dated.len() as int) == dated);
    FirstRows { settings, holidays }
}

/// A table after some rows were added.
pub open spec fn with_rows(table: Map<Seq<char>, Seq<char>>, rows: Rows) -> Map<
    Seq<char>,
    Seq<char>,
>
    decreases rows.len(),
{
    if rows.len() == 0 {
        table
    } else {
        with_rows(table, rows.drop_last()).insert(rows.last().0, rows.last().1)
    }
}

/// Adding the missing rows leaves those that are there as they are, makes every
/// key of the rows one that is there, and adds nothing but the rows.
proof fn lemma_with_missing(table: Map<Seq<char>, Seq<char>>, rows: Rows)
    ensures
        ({
            let after = with_rows(table, missing(rows, table.dom()));
            &&& forall|k: Seq<char>| #[trigger]
                table.contains_key(k) ==> after.contains_key(k) && after[k] == table[k]
            &&& forall|i: int|
                0 <= i < rows.len() ==> after.contains_key((#[trigger] rows[i]).0)
            &&& forall|k: Seq<char>| #[trigger]
                after.contains_key(k) && !table.contains_key(k) ==> rows.contains((k, after[k]))
        }),
    decreases rows.len(),
{
    if rows.len() > 0 {
        let front = rows.drop_last();
        let (key, value) = rows.last();
        lemma_with_missing(table, front);
        let old = with_rows(table, missing(front, table.dom()));
        let after = with_rows(table, missing(rows, table.dom()));
        if !table.contains_key(key) {
            let added = missing(front, table.dom());
            assert(added.push((key, value)).drop_last() == added);
            assert(after == old.insert(key, value));
        }
        assert forall|i: int| 0 <= i < rows.len() implies after.contains_key(
            (#[trigger] rows[i]).0,
        ) by {
            if i < front.len() {
                assert(front[i] == rows[i]);
            }
        }
        assert forall|k: Seq<char>| #[trigger]
            after.contains_key(k) && !table.contains_key(k) implies rows.contains(
            (k, after[k]),
        ) by {
            if k == key {
                assert(rows[rows.len() - 1] == (k, after[k]));
            } else {
                assert(front.contains((k, old[k])));
                let i = choose|i: int| 0 <= i < front.len() && front[i] == (k, old[k]);
                assert(rows[i] == (k, after[k]));
            }
        }
    }
}

/// Nothing is missing where all keys are there.
proof fn lemma_nothing_missing(rows: Rows, present: Set<Seq<char>>)
    requires
        forall|i: int| 0 <= i < rows.len() ==> present.contains((#[trigger] rows[i]).0),
    ensures
        missing(rows, present) == Rows::empty(),
    decreases rows.len(),
{
    if rows.len() > 0 {
        let front = rows.drop_last();
        assert forall|i: int| 0 <= i < front.len() implies present.contains(
            (#[trigger] front[i]).0,
        ) by {
            assert(front[i] == rows[i]);
        }
        lemma_nothing_missing(front, present);
        assert(rows.last() == rows[rows.len() - 1]);
    }
    assert(missing(rows, present) =~= Rows::empty());
}

/// Whether no two rows have the same key.
pub open spec fn distinct_keys(rows: Rows) -> bool {
    forall|i: int, j: int| 0 <= i < j < rows.len() ==> rows[i].0 != rows[j].0
}

/// The settings at first and the flag have different keys: they differ in their
/// length or in their sixth character.
proof fn lemma_first_rows()
    ensures
        distinct_keys(first_rows()),
{
    let rows = first_rows();
    reveal_strlit("notify_enabled");
    reveal_strlit("notify_time");
    reveal_strlit("notify_on_overdue");
    reveal_strlit("close_to_tray");
    reveal_strlit("theme");
    reveal_strlit("auto_backup");
    reveal_strlit("hotkey_toggle");
    reveal_strlit("hotkey_quick");
    reveal_strlit("jira_enabled");
    reveal_strlit("jira_base_url");
    reveal_strlit("jira_email");
    reveal_strlit("jira_api_token");
    reveal_strlit("jira_account_id");
    reveal_strlit("jira_project");
    reveal_strlit("jira_categories");
    reveal_strlit("jira_my_issues_only");
    reveal_strlit("jira_poll_secs");
    reveal_strlit("jira_last_poll");
    reveal_strlit("jira_last_error");
    reveal_strlit("seed_holidays_2026");
    assert(rows[0].0.len() == 14 && rows[0].0[5] == 'y');
    assert(rows[1].0.len() == 11 && rows[1].0[5] == 'y');
    assert(rows[2].0.len() == 17 && rows[2].0[5] == 'y');
    assert(rows[3].0.len() == 13 && rows[3].0[5] == '_');
    assert(rows[4].0.len() == 5);
    assert(rows[5].0.len() == 11 && rows[5].0[5] == 'b');
    assert(rows[6].0.len() == 13 && rows[6].0[5] == 'y');
    assert(rows[7].0.len() == 12 && rows[7].0[5] == 'y');
    assert(rows[8].0.len() == 12 && rows[8].0[5] == 'e');
    assert(rows[9].0.len() == 13 && rows[9].0[5] == 'b');
    assert(rows[10].0.len() == 10 && rows[10].0[5] == 'e');
    assert(rows[11].0.len() == 14 && rows[11].0[5] == 'a');
    assert(rows[12].0.len() == 15 && rows[12].0[5] == 'a');
    assert(rows[13].0.len() == 12 && rows[13].0[5] == 'p');
    assert(rows[14].0.len() == 15 && rows[14].0[5] == 'c');
    assert(rows[15].0.len() == 19 && rows[15].0[5] == 'm');
    assert(rows[16].0.len() == 14 && rows[16].0[5] == 'p');
    assert(rows[17].0.len() == 14 && rows[17].0[5] == 'l');
    assert(rows[18].0.len() == 15 && rows[18].0[5] == 'l');
    assert(rows[19].0.len() == 18 && rows[19].0[5] == 'h');
}

/// A row whose key is not there is added with its value.
proof fn lemma_added_value(table: Map<Seq<char>, Seq<char>>, rows: Rows, i: int)
    requires
        distinct_keys(rows),
        0 <= i < rows.len(),
        !table.contains_key(rows[i].0),
    ensures
        with_rows(table, missing(rows, table.dom())).contains_pair(rows[i].0, rows[i].1),
    decreases rows.len(),
{
    let front = rows.drop_last();
    let added = missing(front, table.dom());
    assert(added.push(rows.last()).drop_last() == added);
    if i < front.len() {
        assert(front[i] == rows[i]);
        assert forall|a: int, b: int| 0 <= a < b < front.len() implies front[a].0
            != front[b].0 by {
            assert(rows[a].0 != rows[b].0);
        }
        lemma_added_value(table, front, i);
        assert(rows[i].0 != rows[rows.len() - 1].0);
    }
}

/// Settings that are there keep their value, and every setting that is not gets
/// the one at first; so does the flag.
pub proof fn law_seed_keeps_settings(settings: Map<Seq<char>, Seq<char>>)
    ensures
        ({
            let after = with_rows(settings, settings_to_add(settings.dom()));
            &&& forall|k: Seq<char>| #[trigger]
                settings.contains_key(k) ==> after.contains_key(k) && after[k] == settings[k]
            &&& forall|i: int|
                0 <= i < first_rows().len() && !settings.contains_key(
                    (#[trigger] first_rows()[i]).0,
                ) ==> after.contains_pair(first_rows()[i].0, first_rows()[i].1)
            &&& after.contains_key(SEED_FLAG@)
            &&& forall|k: Seq<char>| #[trigger]
                after.contains_key(k) && !settings.contains_key(k) ==> first_rows().contains(
                    (k, after[k]),
                )
        }),
{
    let rows = first_rows();
    let after = with_rows(settings, settings_to_add(settings.dom()));
    lemma_with_missing(settings, rows);
    lemma_first_rows();
    assert forall|i: int|
        0 <= i < rows.len() && !settings.contains_key(
            (#[trigger] rows[i]).0,
        ) implies after.contains_pair(rows[i].0, rows[i].1) by {
        lemma_added_value(settings, rows, i);
    }
    assert(rows[first_settings().len() as int] == (SEED_FLAG@, "1"@));
}

/// Holidays that are there stay as they are, and only those of 2026 are added;
/// none at all if the flag is set.
pub proof fn law_seed_keeps_holidays(
    keys: Set<Seq<char>>,
    holidays: Map<Seq<char>, Seq<char>>,
)
    ensures
        ({
            let after = with_rows(holidays, holidays_to_add(keys, holidays.dom()));
            &&& keys.contains(SEED_FLAG@) ==> after == holidays
            &&& forall|k: Seq<char>| #[trigger]
                holidays.contains_key(k) ==> after.contains_key(k) && after[k] == holidays[k]
            &&& !keys.contains(SEED_FLAG@) ==> forall|i: int|
                0 <= i < holidays_of_2026().len() ==> after.contains_key(
                    (#[trigger] holidays_of_2026()[i]).0,
                )
            &&& forall|k: Seq<char>| #[trigger]
                after.contains_key(k) && !holidays.contains_key(k) ==> holidays_of_2026().contains(
                    (k, after[k]),
                )
        }),
{
    lemma_with_missing(holidays, holidays_of_2026());
}

/// A second seeding adds nothing, whatever became of the holidays since: one that
/// was deleted does not come back. Nor does it after further settings were made.
pub proof fn law_seed_once(
    settings: Map<Seq<char>, Seq<char>>,
    later: Set<Seq<char>>,
    dates: Set<Seq<char>>,
)
    requires
        with_rows(settings, settings_to_add(settings.dom())).dom().subset_of(later),
    ensures
        settings_to_add(later) == Rows::empty(),
        holidays_to_add(later, dates) == Rows::empty(),
{
    let rows = first_rows();
    let after = with_rows(settings, settings_to_add(settings.dom()));
    lemma_with_missing(settings, rows);
    assert forall|i: int| 0 <= i < rows.len() implies later.contains((#[trigger] rows[i]).0) by {
        assert(after.dom().contains(rows[i].0));
    }
    lemma_nothing_missing(rows, later);
    assert(rows[first_settings().len() as int] == (SEED_FLAG@, "1"@));
}

} // verus!
