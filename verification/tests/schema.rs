//! The tables and their first contents.

use rusqlite::Connection;
use workcheck::schema;
use workcheck::schema::Migration;
use workcheck::text::TextSet;

fn migrate(conn: &Connection) {
    conn.execute_batch(schema::base_sql()).unwrap();
    let version: i64 = conn.query_row("PRAGMA user_version", [], |r| r.get(0)).unwrap();
    for step in schema::pending_migrations(version) {
        conn.execute_batch(step.sql()).unwrap();
    }
}

fn has_columns(conn: &Connection) -> (bool, bool, i64) {
    let mut has_status = false;
    let mut has_memo = false;
    let mut stmt = conn.prepare("PRAGMA table_info(CheckLog)").unwrap();
    let cols = stmt
        .query_map([], |r| r.get::<_, String>(1))
        .unwrap()
        .map(|c| c.unwrap())
        .collect::<Vec<_>>();
    for c in &cols {
        if c == "status" {
            has_status = true;
        }
        if c == "memo" {
            has_memo = true;
        }
    }
    let ver: i64 = conn.query_row("PRAGMA user_version", [], |r| r.get(0)).unwrap();
    (has_status, has_memo, ver)
}

fn has_task_columns(conn: &Connection) -> (bool, bool) {
    let mut has_notify = false;
    let mut has_remind = false;
    let mut stmt = conn.prepare("PRAGMA table_info(Task)").unwrap();
    let cols = stmt
        .query_map([], |r| r.get::<_, String>(1))
        .unwrap()
        .map(|c| c.unwrap())
        .collect::<Vec<_>>();
    for c in &cols {
        if c == "notify_time" {
            has_notify = true;
        }
        if c == "remind_before" {
            has_remind = true;
        }
    }
    (has_notify, has_remind)
}

fn has_priority_column(conn: &Connection) -> bool {
    let mut stmt = conn.prepare("PRAGMA table_info(Task)").unwrap();
    let cols = stmt
        .query_map([], |r| r.get::<_, String>(1))
        .unwrap()
        .map(|c| c.unwrap())
        .collect::<Vec<_>>();
    cols.iter().any(|c| c == "priority")
}

fn has_jira_table(conn: &Connection) -> bool {
    conn.query_row(
        "SELECT 1 FROM sqlite_master WHERE type='table' AND name='JiraNotification'",
        [],
        |_| Ok(true),
    )
    .unwrap_or(false)
}

#[test]
fn migrate_fresh_db_to_v5() {
    let conn = Connection::open_in_memory().unwrap();
    migrate(&conn);
    assert_eq!(has_columns(&conn), (true, true, 5));
    assert_eq!(has_task_columns(&conn), (true, true));
    assert!(has_priority_column(&conn));
    assert!(has_jira_table(&conn));
}

#[test]
fn migrate_v1_db_upgrades() {
    let conn = Connection::open_in_memory().unwrap();
    conn.execute_batch(
        r#"
        CREATE TABLE CheckLog (
            id          INTEGER PRIMARY KEY,
            task_id     INTEGER NOT NULL,
            due_date    TEXT NOT NULL,
            checked_at  TEXT NOT NULL,
            UNIQUE(task_id, due_date)
        );
        INSERT INTO CheckLog(task_id, due_date, checked_at) VALUES(1, '2026-07-01', '2026-07-01 09:00:00');
        "#,
    )
    .unwrap();
    migrate(&conn);
    assert_eq!(has_columns(&conn), (true, true, 5));
    assert_eq!(has_task_columns(&conn), (true, true));
    assert!(has_priority_column(&conn));
    assert!(has_jira_table(&conn));
    let status: String = conn
        .query_row("SELECT status FROM CheckLog WHERE task_id=1", [], |r| r.get(0))
        .unwrap();
    assert_eq!(status, "done");
}

#[test]
fn migrate_v2_db_upgrades_to_v5() {
    let conn = Connection::open_in_memory().unwrap();
    conn.execute_batch(
        r#"
        CREATE TABLE Task (
            id          INTEGER PRIMARY KEY,
            name        TEXT NOT NULL,
            recur_type  TEXT NOT NULL
        );
        CREATE TABLE CheckLog (
            id          INTEGER PRIMARY KEY,
            task_id     INTEGER NOT NULL,
            due_date    TEXT NOT NULL,
            checked_at  TEXT NOT NULL,
            status      TEXT NOT NULL DEFAULT 'done',
            memo        TEXT,
            UNIQUE(task_id, due_date)
        );
        PRAGMA user_version = 2;
        "#,
    )
    .unwrap();
    migrate(&conn);
    assert_eq!(has_columns(&conn), (true, true, 5));
    assert_eq!(has_task_columns(&conn), (true, true));
    assert!(has_priority_column(&conn));
    assert!(has_jira_table(&conn));
}

#[test]
fn migrate_v3_db_upgrades_to_v5() {
    let conn = Connection::open_in_memory().unwrap();
    conn.execute_batch(
        r#"
        CREATE TABLE Task (
            id            INTEGER PRIMARY KEY,
            name          TEXT NOT NULL,
            recur_type    TEXT NOT NULL,
            notify_time   TEXT,
            remind_before INTEGER
        );
        INSERT INTO Task(name, recur_type) VALUES('기존업무', 'daily');
        PRAGMA user_version = 3;
        "#,
    )
    .unwrap();
    migrate(&conn);
    let ver: i64 = conn.query_row("PRAGMA user_version", [], |r| r.get(0)).unwrap();
    assert_eq!(ver, 5);
    assert!(has_priority_column(&conn));
    assert!(has_jira_table(&conn));
    let priority: i64 = conn
        .query_row("SELECT priority FROM Task WHERE name='기존업무'", [], |r| r.get(0))
        .unwrap();
    assert_eq!(priority, 1);
}

#[test]
fn migrate_idempotent_on_v5() {
    let conn = Connection::open_in_memory().unwrap();
    migrate(&conn);
    migrate(&conn);
    assert_eq!(has_columns(&conn), (true, true, 5));
    assert_eq!(has_task_columns(&conn), (true, true));
    assert!(has_priority_column(&conn));
    assert!(has_jira_table(&conn));
}

#[test]
fn steps_by_version() {
    assert_eq!(
        schema::pending_migrations(0),
        vec![
            Migration::CheckStatus,
            Migration::TaskReminders,
            Migration::TaskPriority,
            Migration::JiraNotifications,
        ]
    );
    assert_eq!(schema::pending_migrations(3), vec![Migration::TaskPriority, Migration::JiraNotifications]);
    assert_eq!(schema::pending_migrations(5), vec![]);
    assert_eq!(schema::pending_migrations(6), vec![]);
    assert_eq!(Migration::CheckStatus.version(), 2);
    assert_eq!(Migration::JiraNotifications.version(), 5);
}

#[test]
fn first_settings_are_complete() {
    let settings = schema::default_settings();
    assert_eq!(settings.len(), 19);
    assert_eq!(settings[0].key, "notify_enabled");
    assert_eq!(settings[1].value, "09:00");
    assert_eq!(settings[14].key, "jira_categories");
    assert_eq!(settings[14].value, "created,assignee,comment,mention,assigned");
    assert_eq!(settings[18].key, "jira_last_error");
}

#[test]
fn holidays_are_entered_once() {
    let first = schema::seed_holidays(false);
    assert_eq!(first.len(), 20);
    assert_eq!(first[0].date, "2026-01-01");
    assert_eq!(first[0].name, "신정");
    assert_eq!(first[19].date, "2026-12-25");
    assert!(schema::seed_holidays(true).is_empty());
}

fn set(texts: &[&str]) -> TextSet {
    let mut out = TextSet::new();
    for t in texts {
        out.insert(t.to_string());
    }
    out
}

#[test]
fn seeding_adds_what_is_missing_once() {
    let rows = schema::seed(&set(&[]), &set(&[]));
    assert_eq!((rows.settings.len(), rows.holidays.len()), (20, 20));
    assert_eq!((rows.settings[6].key.as_str(), rows.settings[6].value.as_str()), ("hotkey_toggle", "Ctrl+Alt+W"));
    assert_eq!((rows.settings[19].key.as_str(), rows.settings[19].value.as_str()), ("seed_holidays_2026", "1"));

    let rows = schema::seed(&set(&["theme", "jira_project", "own"]), &set(&["2026-01-01", "2027-01-01"]));
    assert_eq!((rows.settings.len(), rows.holidays.len()), (18, 19));
    assert!(rows.settings.iter().all(|s| s.key != "theme" && s.key != "jira_project"));
    assert_eq!(rows.holidays[0].date, "2026-02-16");

    let all = schema::seed(&set(&[]), &set(&[]));
    let keys: Vec<&str> = all.settings.iter().map(|s| s.key.as_str()).collect();
    let again = schema::seed(&set(&keys), &set(&[]));
    assert!(again.settings.is_empty() && again.holidays.is_empty());

    let flagged = schema::seed(&set(&["seed_holidays_2026"]), &set(&[]));
    assert_eq!((flagged.settings.len(), flagged.holidays.len()), (19, 0));
}
