//! Asking the issue tracker.

use workcheck::jira;
use workcheck::model::JiraUser;
use workcheck::model::Setting;
use workcheck::jira::Comment;
use workcheck::json::Doc;
use workcheck::moment::parse_time;
use workcheck::moment::Moment;
use workcheck::poll;
use workcheck::poll::Search;
use workcheck::scan;
use workcheck::scan::Found;
use workcheck::scan::IssueData;
use workcheck::scan::ScanState;
use workcheck::scan::Scan;
use workcheck::scan::TickAction;

fn setting(key: &str, value: &str) -> Setting {
    Setting { key: key.to_string(), value: value.to_string() }
}

fn complete_settings() -> Vec<Setting> {
    vec![
        setting("jira_base_url", "https://x.example//"),
        setting("jira_email", "me@x.example"),
        setting("jira_api_token", "SECRET-REDACTED"),
        setting("jira_enabled", "1"),
    ]
}

fn at(s: &str) -> Moment {
    parse_time(s).unwrap()
}

fn doc(text: &str) -> Doc {
    Doc::parse(text).unwrap()
}

fn written(docs: Vec<Doc>) -> Vec<String> {
    docs.iter().map(|d| d.write()).collect()
}

#[test]
fn configuration() {
    let c = poll::load_config(&complete_settings()).unwrap();
    assert!(c.enabled);
    assert_eq!(c.base_url, "https://x.example");
    assert_eq!(c.account_id, "");
    assert_eq!(c.project, "APP");
    assert_eq!(c.poll_secs, 180);
    assert!(c.categories.is_empty());
    assert!(!c.my_issues_only);

    let mut s = complete_settings();
    s.push(setting("jira_project", "DEV"));
    s.push(setting("jira_poll_secs", "5"));
    s.push(setting("jira_categories", " created, ,comment,"));
    s.push(setting("jira_my_issues_only", "1"));
    let c = poll::load_config(&s).unwrap();
    assert_eq!(c.project, "DEV");
    assert_eq!(c.poll_secs, 60);
    assert!(c.my_issues_only);
    assert!(c.categories.has("created") && c.categories.has("comment"));
    assert!(!c.categories.has("") && !c.categories.has("status"));

    for missing in 0..3 {
        let mut s = complete_settings();
        s[missing].value = String::new();
        assert!(poll::load_config(&s).is_none());
    }
    let mut s = complete_settings();
    s[0].value = "///".to_string();
    assert!(poll::load_config(&s).is_none());
}

#[test]
fn connection() {
    let login = match poll::connection_request(" https://x.example/ ", " me ", " t ") {
        Ok(l) => l,
        Err(_) => panic!(),
    };
    assert_eq!(login.url, "https://x.example/rest/api/3/myself");
    assert_eq!((login.email.as_str(), login.token.as_str()), ("me", "t"));
    let reply = Ok(r#"{"accountId":"1:2","displayName":"이지수"}"#.to_string());
    let user = poll::test_connection("https://x.example", "me", "t", reply).unwrap();
    assert_eq!(user.account_id, "1:2");
    assert_eq!(user.display_name, "이지수");
    let user = poll::test_connection("https://x.example", "me", "t", Ok("{}".to_string())).unwrap();
    assert_eq!(user.account_id, "");
    assert_eq!(
        poll::test_connection("https://x.example", "me", "t", Err("down".to_string())).unwrap_err(),
        "연결 실패: down"
    );
    for body in ["", "<html></html>", "{\"accountId\":"] {
        let reply = Ok(body.to_string());
        assert_eq!(
            poll::test_connection("https://x.example", "me", "t", reply).unwrap_err(),
            "연결 실패: error decoding response body"
        );
    }
    for (u, e, t) in [("/", "me", "t"), ("u", " ", "t"), ("u", "me", "")] {
        let missing = "URL·이메일·토큰을 모두 입력하세요";
        assert!(poll::connection_request(u, e, t).is_err());
        assert_eq!(poll::test_connection(u, e, t, Ok("{}".to_string())).unwrap_err(), missing);
        assert_eq!(poll::test_connection(u, e, t, Err("x".to_string())).unwrap_err(), missing);
    }
}

#[test]
fn account_is_taken_over_once() {
    let user = |id: &str| Ok(JiraUser { account_id: id.to_string(), display_name: String::new() });
    assert_eq!(poll::ensure_account_id("", &user("7")), Some("7".to_string()));
    assert_eq!(poll::ensure_account_id("5", &user("7")), None);
    assert_eq!(poll::ensure_account_id("", &user("")), None);
    assert_eq!(poll::ensure_account_id("", &Err("down".to_string())), None);
}

#[test]
fn replies_by_status() {
    assert_eq!(poll::reply_error(200, "u"), None);
    assert_eq!(poll::reply_error(299, "u"), None);
    assert_eq!(poll::reply_error(404, "u"), Some("HTTP 404 (u)".to_string()));
    assert_eq!(poll::reply_error(199, "u"), Some("HTTP 199 (u)".to_string()));
}

#[test]
fn window_of_a_poll() {
    let now = at("2026-07-21T12:00:00+09:00");
    let since = poll::compute_since("2026-07-21T10:30:00+09:00", 180, &now).unwrap();
    assert_eq!(since.to_rfc3339(), "2026-07-21T10:25:00+09:00");
    assert_eq!(poll::jql_time_str(&since), "2026/07/21 10:25");
    let since = poll::compute_since("", 180, &now).unwrap();
    assert_eq!(since.to_rfc3339(), "2026-07-21T11:57:00+09:00");
    assert_eq!(poll::compute_since("", i64::MAX, &now), None);
}

#[test]
fn queries() {
    assert_eq!(
        poll::jql_app("APP", "2026/07/21 10:25"),
        "project = \"APP\" AND updated >= \"2026/07/21 10:25\" ORDER BY updated ASC"
    );
    assert_eq!(
        poll::jql_mention("APP", "2026/07/21 10:25"),
        "project != \"APP\" AND updated >= \"2026/07/21 10:25\" ORDER BY updated ASC"
    );
    assert_eq!(
        poll::jql_assigned("2026/07/21 10:25"),
        "assignee CHANGED TO currentUser() AFTER \"2026/07/21 10:25\" ORDER BY updated ASC"
    );
    let r = poll::ask_issue("https://x", "APP-1");
    assert_eq!(r.url, "https://x/rest/api/3/issue/APP-1");
    assert_eq!(r.query[0], ("expand".to_string(), "changelog".to_string()));
    let r = poll::ask_changes("https://x", "APP-1", 37);
    assert_eq!(r.url, "https://x/rest/api/3/issue/APP-1/changelog");
    assert_eq!(r.query[0], ("startAt".to_string(), "37".to_string()));
    assert_eq!(r.query[1], ("maxResults".to_string(), "100".to_string()));
    let r = poll::ask_comments("https://x", "APP-1");
    assert_eq!(r.url, "https://x/rest/api/3/issue/APP-1/comment");
    assert_eq!(r.query[1], ("maxResults".to_string(), "50".to_string()));
}

#[test]
fn searches_go_page_by_page() {
    let mut s = Search::new();
    let r = s.request("https://x", "q");
    assert_eq!(r.url, "https://x/rest/api/3/search/jql");
    assert_eq!(r.query.len(), 3);
    assert_eq!(r.query[2], ("maxResults".to_string(), "50".to_string()));
    s.take_page(r#"{"issues":[{"key":"A-1"},{"key":"A-2"}],"nextPageToken":"t1"}"#).unwrap();
    assert!(!s.done);
    assert_eq!(s.issues.len(), 2);
    assert_eq!(s.request("https://x", "q").query[3], ("nextPageToken".to_string(), "t1".to_string()));
    s.take_page(r#"{"issues":[{"key":"A-3"}],"nextPageToken":""}"#).unwrap();
    assert!(s.done && !s.truncated);
    assert_eq!(poll::issue_key(&s.issues[2]), "A-3");

    let mut s = Search::new();
    s.take_page("{}").unwrap();
    assert!(s.done && s.issues.is_empty());

    let mut s = Search::new();
    s.take_page(r#"{"issues":[{"key":"A-1"}],"nextPageToken":"t1"}"#).unwrap();
    assert_eq!(s.take_page("<html>").unwrap_err(), "error decoding response body");
    assert!(!s.done && !s.truncated);
    assert_eq!((s.issues.len(), s.next), (1, Some("t1".to_string())));

    let mut s = Search::new();
    s.add_page((0..499).map(|i| doc(&i.to_string())).collect(), Some("t".to_string()));
    assert!(!s.done);
    s.add_page(vec![doc("1")], Some("t".to_string()));
    assert!(s.done && s.truncated);
    let mut s = Search::new();
    s.add_page((0..600).map(|i| doc(&i.to_string())).collect(), None);
    assert!(s.done && !s.truncated);
}

#[test]
fn latest_changes_are_asked_for() {
    assert_eq!(poll::later_changes(r#"{"changelog":{"total":101}}"#), Some(1));
    assert_eq!(poll::later_changes(r#"{"changelog":{"total":100}}"#), None);
    assert_eq!(poll::later_changes("{}"), None);
    assert_eq!(poll::latest_start(Some(250)), Some(150));
    let few = Some(r#"{"changelog":{"total":1,"histories":[{"id":"1"}]}}"#.to_string());
    let many = Some(r#"{"changelog":{"total":150,"histories":[{"id":"1"}]}}"#.to_string());
    let later = Some(r#"{"values":[{"id":"149"},{"id":"150"}]}"#.to_string());
    assert_eq!(written(poll::pick_changes(&few, &None)), vec![r#"{"id":"1"}"#]);
    assert_eq!(written(poll::pick_changes(&few, &later)), vec![r#"{"id":"1"}"#]);
    assert_eq!(written(poll::pick_changes(&many, &later)), vec![r#"{"id":"149"}"#, r#"{"id":"150"}"#]);
    assert_eq!(written(poll::pick_changes(&many, &None)), vec![r#"{"id":"1"}"#]);
    assert_eq!(written(poll::pick_changes(&many, &Some("{}".to_string()))), vec![r#"{"id":"1"}"#]);
    assert!(poll::pick_changes(&None, &later).is_empty());
}

#[test]
fn missing_comments_are_asked_for() {
    let issue = |total: &str| {
        doc(&format!("{{\"key\":\"A-1\",\"fields\":{{\"comment\":{{\"comments\":[{{\"id\":\"1\"}}]{}}}}}}}", total))
    };
    assert!(!poll::needs_comments(&issue("")));
    assert!(!poll::needs_comments(&issue(",\"total\":1")));
    assert!(poll::needs_comments(&issue(",\"total\":2")));
    assert!(poll::needs_comments(&issue(",\"total\":-1")));
    assert!(!poll::needs_comments(&doc(r#"{"fields":{"comment":{"total":5}}}"#)));
    assert!(poll::states_more(Some(1), 0));
    let reply = Some(r#"{"comments":[{"id":"2"},{"id":"3"}]}"#.to_string());
    assert_eq!(written(poll::pick_comments(&issue(",\"total\":2"), &reply)), vec![r#"{"id":"2"}"#, r#"{"id":"3"}"#]);
    assert_eq!(written(poll::pick_comments(&issue(",\"total\":1"), &reply)), vec![r#"{"id":"1"}"#]);
    assert_eq!(written(poll::pick_comments(&issue(",\"total\":2"), &None)), vec![r#"{"id":"1"}"#]);
    assert_eq!(written(poll::pick_comments(&issue(",\"total\":2"), &Some("{}".to_string()))), vec![r#"{"id":"1"}"#]);
}

fn found(truncated: bool, key: &str, updated: &str) -> Found {
    Found {
        issues: vec![IssueData {
            issue: doc(&format!(
                "{{\"key\":\"{}\",\"fields\":{{\"summary\":\"s\",\"created\":\"{}\",\"updated\":\"{}\",\"creator\":{{\"accountId\":\"o\"}}}}}}",
                key, updated, updated
            )),
            changes: vec![doc(&format!(
                "{{\"id\":\"9\",\"created\":\"{}\",\"author\":{{\"accountId\":\"o\"}},\"items\":[{{\"field\":\"assignee\",\"to\":\"me\"}}]}}",
                updated
            ))],
            comments: vec![doc(&format!(
                "{{\"id\":\"8\",\"created\":\"{}\",\"author\":{{\"accountId\":\"o\"}},\"body\":{{\"type\":\"mention\",\"attrs\":{{\"id\":\"me\",\"text\":\"@me\"}}}}}}",
                updated
            ))],
        }],
        truncated,
    }
}

#[test]
fn a_whole_poll() {
    let scan = Scan {
        app: found(true, "APP-1", "2026-07-21T10:00:00.000+0900"),
        mentions: found(true, "DEV-1", "2026-07-21T09:00:00.000+0900"),
        assigned: found(false, "APP-1", "2026-07-21T08:00:00.000+0900"),
    };
    let mut s = complete_settings();
    s.push(setting("jira_account_id", "me"));
    let since = at("2026-07-21T07:00:00+09:00").timestamp();
    let cfg = poll::load_config(&s).unwrap();
    let (events, baseline) = scan::finish_poll(&scan, &cfg, since);
    let got: Vec<(&str, &str)> = events.iter().map(|e| (e.category.as_str(), e.event_uid.as_str())).collect();
    assert_eq!(
        got,
        vec![
            ("created", "APP-1:created"),
            ("assigned", "APP-1:cl:9"),
            ("mention", "APP-1:cm:8"),
            ("mention", "DEV-1:cm:8"),
            ("assigned", "APP-1:cl:9"),
        ]
    );
    assert_eq!(events[1].detail, "담당자로 지정됨: 없음 → 없음");
    assert_eq!(events[2].detail, "댓글: @me");
    assert_eq!(events[0].event_at, "2026-07-21T10:00:00+09:00");
    assert_eq!(baseline, Some(at("2026-07-21T09:00:00+09:00")));

    s.push(setting("jira_categories", "mention"));
    let cfg = poll::load_config(&s).unwrap();
    assert_eq!(scan::finish_poll(&scan, &cfg, since).0.len(), 2);
    let late = at("2026-07-21T09:00:00+09:00").timestamp();
    assert_eq!(scan::finish_poll(&scan, &cfg, late).1, None);
}

#[test]
fn after_a_poll() {
    let w = scan::record_poll(&Ok("now".to_string()));
    assert_eq!((w[0].key.as_str(), w[0].value.as_str()), ("jira_last_poll", "now"));
    assert_eq!((w[1].key.as_str(), w[1].value.as_str()), ("jira_last_error", ""));
    let w = scan::record_poll(&Err("down".to_string()));
    assert_eq!(w.len(), 1);
    assert_eq!((w[0].key.as_str(), w[0].value.as_str()), ("jira_last_error", "down"));
    let r = scan::poll_result(Ok(3));
    assert_eq!((r.new_count, r.error), (3, None));
    let r = scan::poll_result(Err("down".to_string()));
    assert_eq!((r.new_count, r.error), (0, Some("down".to_string())));
    assert_eq!(
        scan::retention_cutoff(&at("2026-07-21T12:00:00+09:00"), 32400),
        Some("2026-04-22T12:00:00+09:00".to_string())
    );
    assert_eq!(
        scan::retention_cutoff(&at("2026-05-01T12:00:00+02:00"), 3600),
        Some("2026-01-31T11:00:00+01:00".to_string())
    );
    assert_eq!(scan::retention_cutoff(&at("2026-05-01T12:00:00+02:00"), 86400), None);
}

#[test]
fn when_to_poll() {
    let cfg = poll::load_config(&complete_settings());
    let now = at("2026-07-21T12:00:00+09:00");
    assert_eq!(scan::poll_tick(&cfg, "", &now), TickAction::SetBaseline);
    assert_eq!(scan::poll_tick(&cfg, "2026-07-21T11:57:00+09:00", &now), TickAction::Poll);
    assert_eq!(scan::poll_tick(&cfg, "2026-07-21T11:57:01+09:00", &now), TickAction::Idle);
    assert_eq!(scan::poll_tick(&cfg, "2026-07-21T02:57:00.000Z", &now), TickAction::Poll);
    assert_eq!(scan::poll_tick(&cfg, "garbled", &now), TickAction::Poll);
    assert_eq!(scan::poll_tick(&None, "garbled", &now), TickAction::Idle);
    let mut s = complete_settings();
    s[3].value = "0".to_string();
    let off = poll::load_config(&s);
    assert_eq!(scan::poll_tick(&off, "", &now), TickAction::Idle);
    assert!(scan::poll_now(&cfg).is_none());
    assert_eq!(scan::poll_now(&off).unwrap().error, Some("Jira 연동이 비활성화되어 있습니다".to_string()));
    let r = scan::poll_now(&None).unwrap();
    assert_eq!((r.new_count, r.error), (0, Some("Jira URL·이메일·토큰을 먼저 설정하세요".to_string())));
}

#[test]
fn names_and_times() {
    assert_eq!(jira::project_of("APP-123"), "APP");
    assert_eq!(jira::project_of("APP"), "APP");
    for (field, name) in [
        ("priority", "우선순위"), ("labels", "라벨"), ("summary", "제목"), ("description", "설명"), ("duedate", "기한"),
        ("resolution", "해결"), ("fixVersion", "수정버전"), ("Component", "컴포넌트"), ("components", "컴포넌트"),
        ("issuetype", "유형"), ("Sprint", "스프린트"), ("Epic Link", "에픽"), ("reporter", "보고자"), ("Rank", "순위"),
        ("timeestimate", "예상시간"), ("timeoriginalestimate", "예상시간"), ("other", "other"),
    ] {
        assert_eq!(jira::field_label(field), name);
    }
    assert_eq!(jira::norm_event_at("2026-07-21T10:30:00.000+0900"), "2026-07-21T10:30:00+09:00");
    assert_eq!(jira::norm_event_at("soon"), "soon");
    assert!(jira::ge_since("soon", i64::MAX));
    assert!(jira::ge_since("1970-01-01T00:00:10Z", 10));
    assert!(!jira::ge_since("1970-01-01T00:00:10Z", 11));
    assert!(jira::body_mentions_me("{\"id\":\"me\"}", "me"));
    assert!(!jira::body_mentions_me("{\"id\":\"me\"}", ""));
    assert!(!jira::body_mentions_me("{}", "me"));
}

#[test]
fn bodies_are_written_as_they_were_read() {
    let mut bodies = Vec::new();
    let mut x: u64 = 88172645463325252;
    for _ in 0..3000 {
        x ^= x << 13;
        x ^= x >> 7;
        x ^= x << 17;
        bodies.push(format!(
            "{{\"id\":\"1\",\"body\":{{\"type\":\"doc\",\"n\":[0.{:017},{}.{:09}e-{}]}}}}",
            x % 100_000_000_000_000_000,
            x % 97,
            x % 1_000_000_007,
            x % 200
        ));
    }
    bodies.push("{\"body\":{\"n\":1.7976931348623157e308}}".to_string());
    bodies.push("{\"body\":{\"n\":179769313486231570000e288}}".to_string());
    let bodies: Vec<String> = bodies
        .into_iter()
        .filter(|b| serde_json::from_str::<serde_json::Value>(b).is_ok())
        .collect();
    assert!(bodies.len() >= 3000);
    let list = bodies.join(",");
    let page = format!(
        "{{\"issues\":[{{\"key\":\"A-1\",\"fields\":{{\"comment\":{{\"comments\":[{}]}}}}}}]}}",
        list
    );
    let theirs = serde_json::from_str::<serde_json::Value>(&page).unwrap();
    let theirs = theirs["issues"][0]["fields"]["comment"]["comments"].as_array().unwrap().clone();
    let mut s = Search::new();
    s.take_page(&page).unwrap();
    let ours = poll::pick_comments(&s.issues[0], &None);
    assert_eq!(ours.len(), theirs.len());
    for (a, b) in ours.iter().zip(theirs.iter()) {
        assert_eq!(Comment::of(a).body, serde_json::to_string(&b["body"]).unwrap());
    }
    let issue = doc("{\"key\":\"A-1\",\"fields\":{\"comment\":{\"comments\":[],\"total\":1}}}");
    let reply = format!("{{\"comments\":[{}]}}", list);
    let ours = poll::pick_comments(&issue, &Some(reply));
    assert_eq!(ours.len(), theirs.len());
    for (a, b) in ours.iter().zip(theirs.iter()) {
        assert_eq!(Comment::of(a).body, serde_json::to_string(&b["body"]).unwrap());
    }
}

#[test]
fn the_first_failing_search_is_reported() {
    let none = || Found { issues: vec![], truncated: false };
    let failed = |e: &str| Err(e.to_string());
    let run = |a: Result<Found, String>, b: Result<Found, String>, c: Result<Found, String>| {
        match ScanState::App.advance(a).advance(b).advance(c) {
            ScanState::Done(_) => Ok(()),
            ScanState::Failed(e) => Err(e),
            _ => panic!(),
        }
    };
    assert_eq!(run(failed("a"), failed("b"), failed("c")), Err("a".to_string()));
    assert_eq!(run(Ok(none()), failed("b"), failed("c")), Err("b".to_string()));
    assert_eq!(run(Ok(none()), Ok(none()), failed("c")), Err("c".to_string()));
    assert_eq!(run(Ok(none()), Ok(none()), Ok(none())), Ok(()));

    let state = ScanState::App;
    let plan = state.plan("APP", "t").unwrap();
    assert_eq!((plan.jql, plan.changes, plan.comments), (poll::jql_app("APP", "t"), true, true));
    let state = state.advance(Ok(found(true, "APP-1", "x")));
    let plan = state.plan("APP", "t").unwrap();
    assert_eq!((plan.jql, plan.changes, plan.comments), (poll::jql_mention("APP", "t"), false, true));
    let state = state.advance(Ok(none()));
    let plan = state.plan("APP", "t").unwrap();
    assert_eq!((plan.jql, plan.changes, plan.comments), (poll::jql_assigned("t"), true, false));
    let state = state.advance(Ok(found(false, "DEV-1", "x")));
    assert!(state.plan("APP", "t").is_none());
    match state {
        ScanState::Done(scan) => {
            assert!(scan.app.truncated && !scan.mentions.truncated);
            assert_eq!(poll::issue_key(&scan.app.issues[0].issue), "APP-1");
            assert_eq!(poll::issue_key(&scan.assigned.issues[0].issue), "DEV-1");
        }
        _ => panic!(),
    }
}

#[test]
fn the_next_poll_begins_at_the_mark_or_now() {
    let mark = at("2026-07-21T09:00:00+09:00");
    let now = at("2026-07-21T12:00:00+09:00");
    assert_eq!(scan::baseline_or_now(Some(mark), now), mark);
    assert_eq!(scan::baseline_or_now(None, now), now);
}
