//! Notifications from the issue tracker.

use rusqlite::Connection;
use workcheck::jira::adf_text;
use workcheck::jira::classify_app_issue;
use workcheck::jira::classify_assigned_issue;
use workcheck::jira::classify_mention_issue;
use workcheck::jira::filter_enabled;
use workcheck::jira::Comment;
use workcheck::jira::NotifEvent;
use workcheck::json::parse_json;
use workcheck::json::Json;
use workcheck::moment::parse_time;
use workcheck::scan::last_updated_of;
use workcheck::scan::merge_watermarks;
use workcheck::schema;
use workcheck::text::truncate_chars;
use workcheck::text::TextSet;

const ME: &str = "712020:44cbc0f7-2605-435d-8d42-9c07e7ed9487";
const OTHER: &str = "557058:aaaa-bbbb";

fn filled(text: &str) -> String {
    text.replace("@ME@", ME).replace("@OTHER@", OTHER)
}

fn value(text: &str) -> Json {
    parse_json(&filled(text)).unwrap()
}

fn comment(text: &str) -> Comment {
    Comment::read(&filled(text))
}

fn migrate(conn: &Connection) {
    conn.execute_batch(schema::base_sql()).unwrap();
    for step in schema::pending_migrations(0) {
        conn.execute_batch(step.sql()).unwrap();
    }
}

fn insert_events(conn: &Connection, events: &Vec<NotifEvent>, fetched_at: &str) -> usize {
    let fetched_at = fetched_at.to_string();
    let mut n = 0;
    for e in events {
        n += conn
            .execute(
                schema::insert_event_sql(),
                [
                    &e.event_uid,
                    &e.issue_key,
                    &e.project_key,
                    &e.category,
                    &e.summary,
                    &e.detail,
                    &e.actor,
                    &e.event_at,
                    &fetched_at,
                ],
            )
            .unwrap();
    }
    n
}

fn unread_count(conn: &Connection) -> i64 {
    conn.query_row("SELECT COUNT(*) FROM JiraNotification WHERE read=0", [], |r| r.get(0)).unwrap()
}

fn since_all() -> i64 {
    parse_time("2000-01-01T00:00:00.000+0900").unwrap().timestamp()
}

fn app_issue() -> Json {
    value(r#"{
        "key": "APP-123",
        "fields": {
            "summary": "로그인 화면 개선",
            "created": "2026-07-21T09:00:00.000+0900",
            "creator": { "accountId": "@OTHER@", "displayName": "김창조" }
        }
    }"#)
}

fn status_history() -> Json {
    value(r#"{
        "id": "1001",
        "created": "2026-07-21T10:00:00.000+0900",
        "author": { "accountId": "@OTHER@", "displayName": "김창조" },
        "items": [{ "field": "status", "fromString": "할 일", "toString": "진행 중" }]
    }"#)
}

fn mention_comment() -> Comment {
    comment(r#"{
        "id": "5001",
        "created": "2026-07-21T11:00:00.000+0900",
        "author": { "accountId": "@OTHER@", "displayName": "김창조" },
        "body": {
            "type": "doc", "version": 1,
            "content": [{ "type": "paragraph", "content": [
                { "type": "mention", "attrs": { "id": "@ME@", "text": "@이지수" } },
                { "type": "text", "text": " 이 부분 확인 부탁드립니다 정말 감사합니다" }
            ]}]
        }
    }"#)
}

fn plain_comment() -> Comment {
    comment(r#"{
        "id": "5002",
        "created": "2026-07-21T12:00:00.000+0900",
        "author": { "accountId": "@OTHER@", "displayName": "박댓글" },
        "body": {
            "type": "doc", "version": 1,
            "content": [{ "type": "paragraph", "content": [
                { "type": "text", "text": "수정 완료했습니다" }
            ]}]
        }
    }"#)
}

#[test]
fn classify_created_status_comment() {
    let ev = classify_app_issue(
        &app_issue(),
        &vec![status_history()],
        &vec![plain_comment()],
        since_all(),
        ME,
        false,
    );
    assert_eq!(ev.len(), 3);
    assert_eq!(ev[0].category, "created");
    assert_eq!(ev[0].event_uid, "APP-123:created");
    assert_eq!(ev[1].category, "status");
    assert_eq!(ev[1].event_uid, "APP-123:cl:1001");
    assert_eq!(ev[1].detail, "할 일 → 진행 중");
    assert_eq!(ev[2].category, "comment");
    assert_eq!(ev[2].event_uid, "APP-123:cm:5002");
    assert_eq!(ev[2].project_key, "APP");
}

#[test]
fn app_comment_with_mention_is_mention_only() {
    let issue = value(r#"{
        "key": "APP-200",
        "fields": { "summary": "제목", "created": "2020-01-01T00:00:00.000+0900",
                    "creator": { "accountId": "@OTHER@", "displayName": "김창조" } }
    }"#);
    let ev = classify_app_issue(&issue, &vec![], &vec![mention_comment()], since_all(), ME, false);
    let cats: Vec<&str> = ev.iter().map(|e| e.category.as_str()).collect();
    assert!(cats.contains(&"mention"));
    assert!(!cats.contains(&"comment"));
    let m = ev.iter().find(|e| e.category == "mention").unwrap();
    assert_eq!(m.event_uid, "APP-200:cm:5001");
    assert!(m.detail.contains("@이지수"));
}

#[test]
fn other_project_only_mentions() {
    let issue = value(r#"{
        "key": "DEV-9",
        "fields": { "summary": "타프로젝트 이슈" }
    }"#);
    let ev = classify_mention_issue(&issue, &vec![mention_comment(), plain_comment()], since_all(), ME);
    assert_eq!(ev.len(), 1);
    assert_eq!(ev[0].category, "mention");
    assert_eq!(ev[0].project_key, "DEV");
    assert_eq!(ev[0].issue_key, "DEV-9");
}

#[test]
fn self_actor_excluded() {
    let issue = value(r#"{
        "key": "APP-1",
        "fields": { "summary": "s", "created": "2026-07-21T09:00:00.000+0900",
                    "creator": { "accountId": "@ME@", "displayName": "이지수" } }
    }"#);
    let my_hist = value(r#"{
        "id": "1", "created": "2026-07-21T10:00:00.000+0900",
        "author": { "accountId": "@ME@", "displayName": "이지수" },
        "items": [{ "field": "status", "fromString": "a", "toString": "b" }]
    }"#);
    let my_comment = comment(r#"{
        "id": "9", "created": "2026-07-21T11:00:00.000+0900",
        "author": { "accountId": "@ME@", "displayName": "이지수" },
        "body": { "type": "doc", "content": [] }
    }"#);
    let ev = classify_app_issue(&issue, &vec![my_hist], &vec![my_comment], since_all(), ME, false);
    assert!(ev.is_empty());
}

#[test]
fn changelog_category_priority() {
    let issue = app_issue();
    let assignee_h = value(r#"{
        "id": "2001", "created": "2026-07-21T10:00:00.000+0900",
        "author": { "accountId": "@OTHER@", "displayName": "김창조" },
        "items": [{ "field": "assignee", "fromString": "홍길동", "toString": "이지수" }]
    }"#);
    let field_h = value(r#"{
        "id": "2002", "created": "2026-07-21T10:05:00.000+0900",
        "author": { "accountId": "@OTHER@", "displayName": "김창조" },
        "items": [
            { "field": "priority", "fromString": "Medium", "toString": "High" },
            { "field": "labels", "fromString": "", "toString": "urgent" }
        ]
    }"#);
    let since = parse_time("2026-07-21T09:30:00.000+0900").unwrap().timestamp();
    let ev = classify_app_issue(&issue, &vec![assignee_h, field_h], &vec![], since, ME, false);
    assert_eq!(ev.len(), 2);
    assert_eq!(ev[0].category, "assignee");
    assert_eq!(ev[1].category, "field");
    assert_eq!(ev[1].detail, "변경: 우선순위, 라벨");
}

#[test]
fn since_filter_excludes_old() {
    let issue = app_issue();
    let since = parse_time("2026-07-21T09:30:00.000+0900").unwrap().timestamp();
    let ev = classify_app_issue(&issue, &vec![status_history()], &vec![], since, ME, false);
    assert_eq!(ev.len(), 1);
    assert_eq!(ev[0].category, "status");
}

#[test]
fn a_later_limit_restricts_the_earlier_result() {
    let odd = comment(
        r#"{"id":"9","created":"some day","author":{"accountId":"@OTHER@"},"body":{"type":"doc"}}"#,
    );
    let comments = vec![odd, mention_comment(), plain_comment()];
    let of = |since: i64| {
        classify_app_issue(&app_issue(), &vec![status_history()], &comments, since, ME, false)
    };
    let all = of(since_all());
    for t in [
        "2026-07-21T09:00:00+09:00", "2026-07-21T10:00:00+09:00", "2026-07-21T10:00:01+09:00",
        "2026-07-21T11:00:00+09:00", "2030-01-01T00:00:00Z",
    ] {
        let later = parse_time(t).unwrap().timestamp();
        let kept: Vec<NotifEvent> = all
            .iter()
            .filter(|e| parse_time(&e.event_at).map_or(true, |m| m.timestamp() >= later))
            .cloned()
            .collect();
        assert_eq!(of(later), kept);
        assert!(kept.iter().any(|e| e.event_at == "some day"));
    }
}

#[test]
fn dedup_insert_or_ignore() {
    let conn = Connection::open_in_memory().unwrap();
    migrate(&conn);
    let events = classify_app_issue(
        &app_issue(),
        &vec![status_history()],
        &vec![plain_comment()],
        since_all(),
        ME,
        false,
    );
    let first = insert_events(&conn, &events, "2026-07-21 12:00:00");
    let second = insert_events(&conn, &events, "2026-07-21 12:03:00");
    assert_eq!(first, 3);
    assert_eq!(second, 0);
    let total: i64 = conn
        .query_row("SELECT COUNT(*) FROM JiraNotification", [], |r| r.get(0))
        .unwrap();
    assert_eq!(total, 3);
    assert_eq!(unread_count(&conn), 3);
}

#[test]
fn watermark_last_updated_and_merge() {
    let issues = vec![
        value(r#"{ "key": "APP-1", "fields": { "updated": "2026-07-21T10:00:00.000+0900" } }"#),
        value(r#"{ "key": "APP-2", "fields": { "updated": "2026-07-21T11:00:00.000+0900" } }"#),
    ];
    let w = last_updated_of(&issues).unwrap();
    assert_eq!(w, parse_time("2026-07-21T11:00:00.000+0900").unwrap());
    assert!(last_updated_of(&vec![value(r#"{ "key": "X-1", "fields": {} }"#)]).is_none());
    assert!(last_updated_of(&vec![]).is_none());

    let early = parse_time("2026-07-21T09:00:00.000+0900");
    let late = parse_time("2026-07-21T11:00:00.000+0900");
    assert_eq!(merge_watermarks(early, late), early);
    assert_eq!(merge_watermarks(None, late), late);
    assert_eq!(merge_watermarks(None, None), None);
}

#[test]
fn adf_text_and_truncate() {
    let mut s = String::new();
    adf_text(mention_comment().json.at("body"), &mut s);
    assert!(s.contains("@이지수"));
    assert!(s.contains("확인 부탁드립니다"));
    assert_eq!(truncate_chars("가나다라마", 3), "가나다…");
    assert_eq!(truncate_chars("가나다", 3), "가나다");
}

#[test]
fn assignee_to_me_becomes_assigned() {
    let issue = app_issue();
    let since = parse_time("2026-07-21T09:30:00.000+0900").unwrap().timestamp();
    let to_me = value(r#"{
        "id": "3001", "created": "2026-07-21T10:00:00.000+0900",
        "author": { "accountId": "@OTHER@", "displayName": "김창조" },
        "items": [{ "field": "assignee", "from": null, "to": "@ME@",
                    "fromString": "없음", "toString": "이지수" }]
    }"#);
    let ev = classify_app_issue(&issue, &vec![to_me], &vec![], since, ME, false);
    assert_eq!(ev.len(), 1);
    assert_eq!(ev[0].category, "assigned");
    assert_eq!(ev[0].event_uid, "APP-123:cl:3001");
    assert_eq!(ev[0].detail, "담당자로 지정됨: 없음 → 이지수");
    let to_other = value(r#"{
        "id": "3002", "created": "2026-07-21T10:00:00.000+0900",
        "author": { "accountId": "@OTHER@", "displayName": "김창조" },
        "items": [{ "field": "assignee", "to": "@OTHER@",
                    "fromString": "없음", "toString": "박담당" }]
    }"#);
    let ev2 = classify_app_issue(&issue, &vec![to_other], &vec![], since, ME, false);
    assert_eq!(ev2.len(), 1);
    assert_eq!(ev2[0].category, "assignee");
}

#[test]
fn classify_assigned_only_to_me() {
    let issue = value(r#"{ "key": "DEV-5", "fields": { "summary": "타프로젝트 이슈" } }"#);
    let to_me = value(r#"{
        "id": "4001", "created": "2026-07-21T10:00:00.000+0900",
        "author": { "accountId": "@OTHER@", "displayName": "김창조" },
        "items": [{ "field": "assignee", "to": "@ME@", "fromString": "없음", "toString": "이지수" }]
    }"#);
    let to_other = value(r#"{
        "id": "4002", "created": "2026-07-21T10:00:00.000+0900",
        "author": { "accountId": "@OTHER@", "displayName": "김창조" },
        "items": [{ "field": "assignee", "to": "@OTHER@", "fromString": "없음", "toString": "박담당" }]
    }"#);
    let by_me = value(r#"{
        "id": "4003", "created": "2026-07-21T10:00:00.000+0900",
        "author": { "accountId": "@ME@", "displayName": "이지수" },
        "items": [{ "field": "assignee", "to": "@ME@", "fromString": "없음", "toString": "이지수" }]
    }"#);
    let old = value(r#"{
        "id": "4004", "created": "2026-07-21T08:00:00.000+0900",
        "author": { "accountId": "@OTHER@", "displayName": "김창조" },
        "items": [{ "field": "assignee", "to": "@ME@", "fromString": "없음", "toString": "이지수" }]
    }"#);
    let since = parse_time("2026-07-21T09:30:00.000+0900").unwrap().timestamp();
    let ev = classify_assigned_issue(&issue, &vec![to_me, to_other, by_me, old], since, ME);
    assert_eq!(ev.len(), 1);
    assert_eq!(ev[0].category, "assigned");
    assert_eq!(ev[0].event_uid, "DEV-5:cl:4001");
    assert_eq!(ev[0].project_key, "DEV");
}

#[test]
fn filter_enabled_drops_disabled_categories() {
    let mk = |cat: &str| NotifEvent {
        event_uid: format!("X-1:{}", cat),
        issue_key: "X-1".to_string(),
        project_key: "X".to_string(),
        category: cat.to_string(),
        summary: "s".to_string(),
        detail: "d".to_string(),
        actor: "a".to_string(),
        event_at: "2026-07-21T10:00:00+09:00".to_string(),
    };
    let events = vec![mk("created"), mk("status"), mk("comment")];
    let mut set = TextSet::new();
    set.insert("created".to_string());
    set.insert("comment".to_string());
    let out = filter_enabled(events.clone(), &set);
    let cats: Vec<&str> = out.iter().map(|e| e.category.as_str()).collect();
    assert_eq!(cats, vec!["created", "comment"]);
    assert_eq!(filter_enabled(events, &TextSet::new()).len(), 3);
}

#[test]
fn my_issues_only_other_assignee_skips_owned_cats() {
    let issue = value(r#"{
        "key": "APP-500",
        "fields": {
            "summary": "제목",
            "created": "2026-07-21T09:00:00.000+0900",
            "creator": { "accountId": "@OTHER@", "displayName": "김창조" },
            "assignee": { "accountId": "@OTHER@", "displayName": "박담당" }
        }
    }"#);
    let status_h = value(r#"{
        "id": "6001", "created": "2026-07-21T10:00:00.000+0900",
        "author": { "accountId": "@OTHER@", "displayName": "김창조" },
        "items": [{ "field": "status", "fromString": "할 일", "toString": "진행 중" }]
    }"#);
    let assignee_h = value(r#"{
        "id": "6002", "created": "2026-07-21T10:05:00.000+0900",
        "author": { "accountId": "@OTHER@", "displayName": "김창조" },
        "items": [{ "field": "assignee", "to": "@OTHER@", "fromString": "없음", "toString": "박담당" }]
    }"#);
    let field_h = value(r#"{
        "id": "6003", "created": "2026-07-21T10:10:00.000+0900",
        "author": { "accountId": "@OTHER@", "displayName": "김창조" },
        "items": [{ "field": "priority", "fromString": "Medium", "toString": "High" }]
    }"#);
    let ev = classify_app_issue(
        &issue,
        &vec![status_h, assignee_h, field_h],
        &vec![plain_comment()],
        since_all(),
        ME,
        true,
    );
    let cats: Vec<&str> = ev.iter().map(|e| e.category.as_str()).collect();
    assert!(!cats.contains(&"created"));
    assert!(!cats.contains(&"status"));
    assert!(!cats.contains(&"field"));
    assert!(cats.contains(&"assignee"));
    assert!(cats.contains(&"comment"));
    assert_eq!(ev.len(), 2);
}

#[test]
fn my_issues_only_my_assignee_keeps_owned_cats() {
    let issue = value(r#"{
        "key": "APP-501",
        "fields": {
            "summary": "제목",
            "created": "2026-07-21T09:00:00.000+0900",
            "creator": { "accountId": "@OTHER@", "displayName": "김창조" },
            "assignee": { "accountId": "@ME@", "displayName": "이지수" }
        }
    }"#);
    let status_h = value(r#"{
        "id": "7001", "created": "2026-07-21T10:00:00.000+0900",
        "author": { "accountId": "@OTHER@", "displayName": "김창조" },
        "items": [{ "field": "status", "fromString": "할 일", "toString": "진행 중" }]
    }"#);
    let field_h = value(r#"{
        "id": "7002", "created": "2026-07-21T10:10:00.000+0900",
        "author": { "accountId": "@OTHER@", "displayName": "김창조" },
        "items": [{ "field": "priority", "fromString": "Medium", "toString": "High" }]
    }"#);
    let ev = classify_app_issue(&issue, &vec![status_h, field_h], &vec![], since_all(), ME, true);
    let cats: Vec<&str> = ev.iter().map(|e| e.category.as_str()).collect();
    assert_eq!(ev.len(), 3);
    assert!(cats.contains(&"created"));
    assert!(cats.contains(&"status"));
    assert!(cats.contains(&"field"));
}
