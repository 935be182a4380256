//! A poll of the issue tracker: when it is due, what it found, and from when on
//! the next one looks.

use vstd::prelude::*;

use crate::jira;
use crate::jira::Comment;
use crate::jira::CommentView;
use crate::jira::EventView;
use crate::jira::NotifEvent;
use crate::json;
use crate::json::Doc;
use crate::json::Json;
use crate::json::JsonView;
use crate::model;
use crate::model::PollResult;
use crate::model::Setting;
use crate::moment;
use crate::moment::Moment;
use crate::moment::MomentView;
use crate::poll;
use crate::poll::ConfigView;
use crate::poll::JiraConfig;
use crate::text;

verus! {

/// For how long notifications that were read are kept, in seconds.
pub const RETENTION_SECS: i64 = 7776000;

// ── What was found ──────────────────────────────────────

/// An issue with its changes and comments, as they are written.
pub struct IssueDataView {
    pub issue: Seq<char>,
    pub changes: Seq<Seq<char>>,
    pub comments: Seq<Seq<char>>,
}

/// An issue with its changes and comments, as the tracker reports them.
#[derive(Debug)]
pub struct IssueData {
    pub issue: Doc,
    pub changes: Vec<Doc>,
    pub comments: Vec<Doc>,
}

impl IssueData {
    pub open spec fn view(&self) -> IssueDataView {
        IssueDataView {
            issue: self.issue@,
            changes: json::doc_texts(self.changes@),
            comments: json::doc_texts(self.comments@),
        }
    }
}

/// The views of a list of issues.
pub open spec fn issue_views(v: Seq<IssueData>) -> Seq<IssueDataView> {
    Seq::new(v.len(), |i: int| v[i].view())
}

/// What a search found, and whether it was cut off.
#[derive(Debug)]
pub struct Found {
    pub issues: Vec<IssueData>,
    pub truncated: bool,
}

/// The values of some documents.
pub open spec fn doc_values(docs: Seq<Seq<char>>) -> Seq<JsonView> {
    Seq::new(docs.len(), |i: int| json::value_of(docs[i]))
}

/// The comments that some documents report.
pub open spec fn doc_comments(docs: Seq<Seq<char>>) -> Seq<CommentView> {
    Seq::new(docs.len(), |i: int| jira::comment_of(docs[i]))
}

/// The notifications of the issues of the watched project.
pub open spec fn app_scan(
    issues: Seq<IssueDataView>,
    since: int,
    my_id: Seq<char>,
    my_issues_only: bool,
) -> Seq<EventView>
    decreases issues.len(),
{
    if issues.len() == 0 {
        Seq::empty()
    } else {
        app_scan(issues.drop_last(), since, my_id, my_issues_only) + jira::app_events(
            json::value_of(issues.last().issue),
            doc_values(issues.last().changes),
            doc_comments(issues.last().comments),
            since,
            my_id,
            my_issues_only,
        )
    }
}

/// The notifications of the issues of other projects.
pub open spec fn mention_scan(issues: Seq<IssueDataView>, since: int, my_id: Seq<char>) -> Seq<
    EventView,
>
    decreases issues.len(),
{
    if issues.len() == 0 {
        Seq::empty()
    } else {
        mention_scan(issues.drop_last(), since, my_id) + jira::mention_events(
            json::value_of(issues.last().issue),
            doc_comments(issues.last().comments),
            since,
            my_id,
        )
    }
}

/// The notifications of the issues that were assigned to me.
pub open spec fn assigned_scan(issues: Seq<IssueDataView>, since: int, my_id: Seq<char>) -> Seq<
    EventView,
>
    decreases issues.len(),
{
    if issues.len() == 0 {
        Seq::empty()
    } else {
        assigned_scan(issues.drop_last(), since, my_id) + jira::assignment_events(
            json::value_of(issues.last().issue),
            doc_values(issues.last().changes),
            since,
            my_id,
        )
    }
}

/// The values of some documents.
fn read_values(docs: &Vec<Doc>) -> (r: Vec<Json>)
    ensures
        json::values(r@) == doc_values(json::doc_texts(docs@)),
{
    let mut out: Vec<Json> = Vec::new();
    let mut i: usize = 0;
    while i < docs.len()
        invariant
            i <= docs.len(),
            out.len() == i,
            forall|k: int|
                0 <= k < i ==> (#[trigger] out@[k]).view() == json::value_of(docs@[k]@),
        decreases docs.len() - i,
    {
        out.push(docs[i].json());
        i += 1;
    }
    assert(json::values(out@) =~= doc_values(json::doc_texts(docs@)));
    out
}

/// The comments that some documents report.
fn read_comments(docs: &Vec<Doc>) -> (r: Vec<Comment>)
    ensures
        jira::comment_views(r@) == doc_comments(json::doc_texts(docs@)),
{
    let mut out: Vec<Comment> = Vec::new();
    let mut i: usize = 0;
    while i < docs.len()
        invariant
            i <= docs.len(),
            out.len() == i,
            forall|k: int|
                0 <= k < i ==> (#[trigger] out@[k]).view() == jira::comment_of(docs@[k]@),
        decreases docs.len() - i,
    {
        out.push(Comment::of(&docs[i]));
        i += 1;
    }
    assert(jira::comment_views(out@) =~= doc_comments(json::doc_texts(docs@)));
    out
}

/// Adds the notifications of the issues of the watched project.
fn scan_app(
    issues: &Vec<IssueData>,
    since_ts: i64,
    my_id: &str,
    my_issues_only: bool,
    out: &mut Vec<NotifEvent>,
)
    ensures
        jira::event_views(final(out)@) == jira::event_views(old(out)@) + app_scan(
            issue_views(issues@),
            since_ts as int,
            my_id@,
            my_issues_only,
        ),
{
    let ghost all = issue_views(issues@);
    let ghost before = jira::event_views(out@);
    let mut i: usize = 0;
    while i < issues.len()
        invariant
            all == issue_views(issues@),
            i <= issues.len(),
            jira::event_views(out@) == before + app_scan(
                all.take(i as int),
                since_ts as int,
                my_id@,
                my_issues_only,
            ),
        decreases issues.len() - i,
    {
        assert(all.take(i + 1).drop_last() == all.take(i as int));
        assert(all.take(i + 1).last() == issues@[i as int].view());
        let issue = issues[i].issue.json();
        let changes = read_values(&issues[i].changes);
        let comments = read_comments(&issues[i].comments);
        let mut found = jira::classify_app_issue(
            &issue,
            &changes,
            &comments,
            since_ts,
            my_id,
            my_issues_only,
        );
        append_events(out, &mut found);
        i += 1;
        assert(jira::event_views(out@) =~= before + app_scan(
            all.take(i as int),
            since_ts as int,
            my_id@,
            my_issues_only,
        ));
    }
    assert(all.take(i as int) == all);
}

/// Moves notifications to the end of a list.
fn append_events(out: &mut Vec<NotifEvent>, found: &mut Vec<NotifEvent>)
    ensures
        jira::event_views(final(out)@) == jira::event_views(old(out)@) + jira::event_views(
            old(found)@,
        ),
{
    out.append(found);
    assert(jira::event_views(out@) =~= jira::event_views(old(out)@) + jira::event_views(
        old(found)@,
    ));
}

/// Adds the notifications of the issues of other projects.
fn scan_mentions(issues: &Vec<IssueData>, since_ts: i64, my_id: &str, out: &mut Vec<NotifEvent>)
    ensures
        jira::event_views(final(out)@) == jira::event_views(old(out)@) + mention_scan(
            issue_views(issues@),
            since_ts as int,
            my_id@,
        ),
{
    let ghost all = issue_views(issues@);
    let ghost before = jira::event_views(out@);
    let mut i: usize = 0;
    while i < issues.len()
        invariant
            all == issue_views(issues@),
            i <= issues.len(),
            jira::event_views(out@) == before + mention_scan(
                all.take(i as int),
                since_ts as int,
                my_id@,
            ),
        decreases issues.len() - i,
    {
        assert(all.take(i + 1).drop_last() == all.take(i as int));
        assert(all.take(i + 1).last() == issues@[i as int].view());
        let issue = issues[i].issue.json();
        let comments = read_comments(&issues[i].comments);
        let mut found = jira::classify_mention_issue(&issue, &comments, since_ts, my_id);
        append_events(out, &mut found);
        i += 1;
        assert(jira::event_views(out@) =~= before + mention_scan(
            all.take(i as int),
            since_ts as int,
            my_id@,
        ));
    }
    assert(all.take(i as int) == all);
}

/// Adds the notifications of the issues that were assigned to me.
fn scan_assigned(issues: &Vec<IssueData>, since_ts: i64, my_id: &str, out: &mut Vec<NotifEvent>)
    ensures
        jira::event_views(final(out)@) == jira::event_views(old(out)@) + assigned_scan(
            issue_views(issues@),
            since_ts as int,
            my_id@,
        ),
{
    let ghost all = issue_views(issues@);
    let ghost before = jira::event_views(out@);
    let mut i: usize = 0;
    while i < issues.len()
        invariant
            all == issue_views(issues@),
            i <= issues.len(),
            jira::event_views(out@) == before + assigned_scan(
                all.take(i as int),
                since_ts as int,
                my_id@,
            ),
        decreases issues.len() - i,
    {
        assert(all.take(i + 1).drop_last() == all.take(i as int));
        assert(all.take(i + 1).last() == issues@[i as int].view());
        let issue = issues[i].issue.json();
        let changes = read_values(&issues[i].changes);
        let mut found = jira::classify_assigned_issue(&issue, &changes, since_ts, my_id);
        append_events(out, &mut found);
        i += 1;
        assert(jira::event_views(out@) =~= before + assigned_scan(
            all.take(i as int),
            since_ts as int,
            my_id@,
        ));
    }
    assert(all.take(i as int) == all);
}

// ── Watermarks ──────────────────────────────────────────

/// When the last of some issues was updated.
pub open spec fn last_updated(issues: Seq<JsonView>) -> Option<MomentView> {
    if issues.len() == 0 {
        None
    } else {
        match issues.last().at("fields"@).at("updated"@).as_text() {
            Some(s) => moment::parsed_time(s),
            None => None,
        }
    }
}

/// When the last of some issues was updated.
pub fn last_updated_of(issues: &Vec<Json>) -> (r: Option<Moment>)
    ensures
        moment::opt_moment(r) == last_updated(json::values(issues@)),
{
    if issues.len() == 0 {
        return None;
    }
    let last = &issues[issues.len() - 1];
    assert(json::values(issues@).last() == last.view());
    match last.at("fields").text_at("updated") {
        Some(s) => moment::parse_time(s.as_str()),
        None => None,
    }
}

/// The earlier of two instants, or the one that is there.
pub open spec fn merged(a: Option<MomentView>, b: Option<MomentView>) -> Option<MomentView> {
    match (a, b) {
        (Some(x), Some(y)) => if moment::earlier(y, x) {
            Some(y)
        } else {
            Some(x)
        },
        (Some(x), None) => Some(x),
        (None, y) => y,
    }
}

/// The earlier of two instants, or the one that is there.
pub fn merge_watermarks(a: Option<Moment>, b: Option<Moment>) -> (r: Option<Moment>)
    ensures
        moment::opt_moment(r) == merged(moment::opt_moment(a), moment::opt_moment(b)),
{
    match (a, b) {
        (Some(x), Some(y)) => if y.is_before(&x) {
            Some(y)
        } else {
            Some(x)
        },
        (Some(x), None) => Some(x),
        (None, y) => y,
    }
}

/// The issues themselves.
pub open spec fn issue_texts(issues: Seq<IssueDataView>) -> Seq<Seq<char>> {
    Seq::new(issues.len(), |i: int| issues[i].issue)
}

/// Up to when a search got that was cut off.
pub open spec fn mark_of(found: Found) -> Option<MomentView> {
    if found.truncated {
        last_updated(doc_values(issue_texts(issue_views(found.issues@))))
    } else {
        None
    }
}

/// Up to when a search got that was cut off.
fn read_mark(found: &Found) -> (r: Option<Moment>)
    ensures
        moment::opt_moment(r) == mark_of(*found),
{
    if !found.truncated || found.issues.len() == 0 {
        return None;
    }
    let mut last: Vec<Json> = Vec::new();
    last.push(found.issues[found.issues.len() - 1].issue.json());
    proof {
        let all = doc_values(issue_texts(issue_views(found.issues@)));
        assert(json::values(last@).last() == all.last());
    }
    last_updated_of(&last)
}

// ── A poll ──────────────────────────────────────────────

/// All that was found, by search: in the watched project, in other projects,
/// and what was assigned to me.
#[derive(Debug)]
pub struct Scan {
    pub app: Found,
    pub mentions: Found,
    pub assigned: Found,
}

/// What is searched for, and what is asked for of each issue that is found.
#[derive(Debug)]
pub struct Plan {
    pub jql: String,
    pub changes: bool,
    pub comments: bool,
}

/// How far the searches of a scan have come: which one is next.
#[derive(Debug)]
pub enum ScanState {
    /// The watched project.
    App,
    /// The other projects; the watched one was searched.
    Mentions(Found),
    /// What was assigned to me; the projects were searched.
    Assigned(Found, Found),
    /// None: all was found.
    Done(Scan),
    /// None: a search failed.
    Failed(String),
}

/// What is searched for next, and whether the changes and the comments of the
/// issues count; nothing if the searches are over.
pub open spec fn plan_of(state: ScanState, project: Seq<char>, time: Seq<char>) -> Option<
    (Seq<char>, bool, bool),
> {
    match state {
        ScanState::App => Some((poll::app_query(project, time), true, true)),
        ScanState::Mentions(_) => Some((poll::mention_query(project, time), false, true)),
        ScanState::Assigned(_, _) => Some((poll::assigned_query(time), true, false)),
        _ => None,
    }
}

/// How far the searches have come after one more. The first that fails ends them.
pub open spec fn next_state(state: ScanState, found: Result<Found, String>) -> ScanState {
    match (state, found) {
        (ScanState::Done(scan), _) => ScanState::Done(scan),
        (ScanState::Failed(e), _) => ScanState::Failed(e),
        (_, Err(e)) => ScanState::Failed(e),
        (ScanState::App, Ok(f)) => ScanState::Mentions(f),
        (ScanState::Mentions(app), Ok(f)) => ScanState::Assigned(app, f),
        (ScanState::Assigned(app, mentions), Ok(f)) => ScanState::Done(
            Scan { app, mentions, assigned: f },
        ),
    }
}

impl ScanState {
    /// What is searched for next.
    pub fn plan(&self, project: &str, time: &str) -> (r: Option<Plan>)
        ensures
            (match r {
                Some(p) => Some((p.jql@, p.changes, p.comments)),
                None => None,
            }) == plan_of(*self, project@, time@),
    {
        match self {
            ScanState::App => Some(
                Plan { jql: poll::jql_app(project, time), changes: true, comments: true },
            ),
            ScanState::Mentions(_) => Some(
                Plan { jql: poll::jql_mention(project, time), changes: false, comments: true },
            ),
            ScanState::Assigned(_, _) => Some(
                Plan { jql: poll::jql_assigned(time), changes: true, comments: false },
            ),
            _ => None,
        }
    }

    /// Goes on after a search.
    pub fn advance(self, found: Result<Found, String>) -> (r: ScanState)
        ensures
            r == next_state(self, found),
    {
        match (self, found) {
            (ScanState::Done(scan), _) => ScanState::Done(scan),
            (ScanState::Failed(e), _) => ScanState::Failed(e),
            (_, Err(e)) => ScanState::Failed(e),
            (ScanState::App, Ok(f)) => ScanState::Mentions(f),
            (ScanState::Mentions(app), Ok(f)) => ScanState::Assigned(app, f),
            (ScanState::Assigned(app, mentions), Ok(f)) => ScanState::Done(
                Scan { app, mentions, assigned: f },
            ),
        }
    }
}

/// The notifications of a scan.
pub open spec fn scan_events(
    scan: Scan,
    since: int,
    my_id: Seq<char>,
    my_issues_only: bool,
) -> Seq<EventView> {
    app_scan(issue_views(scan.app.issues@), since, my_id, my_issues_only) + mention_scan(
        issue_views(scan.mentions.issues@),
        since,
        my_id,
    ) + assigned_scan(issue_views(scan.assigned.issues@), since, my_id)
}

/// Up to when a scan got whose searches were cut off: the earliest of them.
pub open spec fn scan_mark(scan: Scan) -> Option<MomentView> {
    merged(merged(mark_of(scan.app), mark_of(scan.mentions)), mark_of(scan.assigned))
}

/// The notifications of a scan, and up to when it got if it was cut off.
pub fn classify_scan(scan: &Scan, since_ts: i64, my_id: &str, my_issues_only: bool) -> (r: (
    Vec<NotifEvent>,
    Option<Moment>,
))
    ensures
        jira::event_views(r.0@) == scan_events(*scan, since_ts as int, my_id@, my_issues_only),
        moment::opt_moment(r.1) == scan_mark(*scan),
{
    let mut events: Vec<NotifEvent> = Vec::new();
    scan_app(&scan.app.issues, since_ts, my_id, my_issues_only, &mut events);
    scan_mentions(&scan.mentions.issues, since_ts, my_id, &mut events);
    scan_assigned(&scan.assigned.issues, since_ts, my_id, &mut events);
    assert(jira::event_views(events@) =~= scan_events(
        *scan,
        since_ts as int,
        my_id@,
        my_issues_only,
    ));
    let first = merge_watermarks(read_mark(&scan.app), read_mark(&scan.mentions));
    let mark = merge_watermarks(first, read_mark(&scan.assigned));
    (events, mark)
}

/// From when on the next poll looks, if not from now on: where this one was cut
/// off, unless that would be no progress.
pub open spec fn baseline_of(mark: Option<MomentView>, since: int) -> Option<MomentView> {
    match mark {
        Some(w) => if w.secs > since {
            Some(w)
        } else {
            None
        },
        None => None,
    }
}

/// From when on the next poll looks, if not from now on.
pub fn next_baseline(mark: Option<Moment>, since_ts: i64) -> (r: Option<Moment>)
    ensures
        moment::opt_moment(r) == baseline_of(moment::opt_moment(mark), since_ts as int),
{
    match mark {
        Some(w) => if w.timestamp() > since_ts {
            Some(w)
        } else {
            None
        },
        None => None,
    }
}

/// From when on the next poll looks: from where this one was cut off, or from now
/// on.
pub fn baseline_or_now(mark: Option<Moment>, now: Moment) -> (r: Moment)
    ensures
        r@ == match mark {
            Some(m) => m@,
            None => now@,
        },
{
    match mark {
        Some(m) => m,
        None => now,
    }
}

/// What a poll makes of a scan: the notifications to store, and from when on the
/// next poll looks, if not from now on.
pub fn finish_poll(scan: &Scan, cfg: &JiraConfig, since_ts: i64) -> (r: (
    Vec<NotifEvent>,
    Option<Moment>,
))
    ensures
        jira::event_views(r.0@) == jira::kept_events(
            scan_events(*scan, since_ts as int, cfg.account_id@, cfg.my_issues_only),
            cfg.categories@,
        ),
        moment::opt_moment(r.1) == baseline_of(scan_mark(*scan), since_ts as int),
{
    let (events, mark) = classify_scan(
        scan,
        since_ts,
        cfg.account_id.as_str(),
        cfg.my_issues_only,
    );
    (jira::filter_enabled(events, &cfg.categories), next_baseline(mark, since_ts))
}

/// What is stored after a poll: from when on the next one looks and that there
/// was no error, or else the error alone.
pub open spec fn stored_after(outcome: Result<Seq<char>, Seq<char>>) -> Seq<(Seq<char>, Seq<char>)> {
    match outcome {
        Ok(baseline) => seq![
            ("jira_last_poll"@, baseline),
            ("jira_last_error"@, Seq::<char>::empty()),
        ],
        Err(e) => seq![("jira_last_error"@, e)],
    }
}

/// The texts of an outcome.
pub open spec fn outcome_view(outcome: Result<String, String>) -> Result<Seq<char>, Seq<char>> {
    match outcome {
        Ok(s) => Ok(s@),
        Err(e) => Err(e@),
    }
}

/// What is stored after a poll: `outcome` is from when on the next one looks, or
/// why this one failed.
pub fn record_poll(outcome: &Result<String, String>) -> (r: Vec<Setting>)
    ensures
        model::setting_pairs(r@) == stored_after(outcome_view(*outcome)),
{
    let mut out: Vec<Setting> = Vec::new();
    match outcome {
        Ok(baseline) => {
            out.push(Setting { key: "jira_last_poll".to_owned(), value: baseline.clone() });
            out.push(Setting { key: "jira_last_error".to_owned(), value: String::new() });
        },
        Err(e) => {
            out.push(Setting { key: "jira_last_error".to_owned(), value: e.clone() });
        },
    }
    assert(model::setting_pairs(out@) =~= stored_after(outcome_view(*outcome)));
    out
}

/// What a poll answers: how many notifications were new, or why it failed.
pub fn poll_result(outcome: Result<i64, String>) -> (r: PollResult)
    ensures
        match outcome {
            Ok(n) => r.new_count == n && r.error is None,
            Err(e) => r.new_count == 0 && text::opt_text(r.error) == Some(e@),
        },
{
    match outcome {
        Ok(n) => PollResult { new_count: n, error: None },
        Err(e) => PollResult { new_count: 0, error: Some(e) },
    }
}

/// The instant before which a notification was made that is no longer kept once
/// it was read, with the offset to UTC of that time.
pub open spec fn cutoff_of(now: MomentView, offset: int) -> MomentView {
    MomentView { offset, ..moment::before(now, RETENTION_SECS as int) }
}

/// Before when a notification was made that is no longer kept once it was read.
/// `offset` is the offset to UTC that held then, which need not be that of now.
/// Nothing if the calendar has no such time.
pub fn retention_cutoff(now: &Moment, offset: i32) -> (r: Option<String>)
    ensures
        text::opt_text(r) == if moment::valid(cutoff_of(now@, offset as int)) {
            Some(moment::rfc3339_text(cutoff_of(now@, offset as int)))
        } else {
            None
        },
{
    match now.seconds_before(RETENTION_SECS) {
        Some(m) => match m.at_offset(offset) {
            Some(c) => Some(c.to_rfc3339()),
            None => None,
        },
        None => None,
    }
}

// ── When to poll ────────────────────────────────────────

/// What to do when the clock ticks.
#[derive(Debug, Clone, Copy, PartialEq, Eq, Structural)]
pub enum TickAction {
    /// Nothing.
    Idle,
    /// Note the time, so that the next poll does not find all that ever was.
    SetBaseline,
    /// Poll.
    Poll,
}

/// What to do when the clock ticks, `elapsed` seconds after the last poll. If it
/// is not known when that was, a poll is due.
pub open spec fn tick_after(
    enabled: bool,
    polled: bool,
    elapsed: Option<int>,
    poll_secs: int,
) -> TickAction {
    if !enabled {
        TickAction::Idle
    } else if !polled {
        TickAction::SetBaseline
    } else {
        match elapsed {
            Some(n) => if n < poll_secs {
                TickAction::Idle
            } else {
                TickAction::Poll
            },
            None => TickAction::Poll,
        }
    }
}

/// What to do when the clock ticks: poll if that is enabled and the last poll is
/// long enough ago.
pub open spec fn tick_of(cfg: Option<ConfigView>, last_poll: Seq<char>, now: MomentView) -> TickAction {
    match cfg {
        Some(c) => tick_after(
            c.enabled,
            last_poll.len() > 0,
            match moment::parsed_time(last_poll) {
                Some(t) => Some(moment::seconds_between(now, t)),
                None => None,
            },
            c.poll_secs,
        ),
        None => TickAction::Idle,
    }
}

/// An optional configuration.
pub open spec fn opt_config(cfg: Option<JiraConfig>) -> Option<ConfigView> {
    match cfg {
        Some(c) => Some(c.view()),
        None => None,
    }
}

/// What to do when the clock ticks, `elapsed` seconds after the last poll.
pub fn tick_action(enabled: bool, polled: bool, elapsed: Option<i64>, poll_secs: i64) -> (r:
    TickAction)
    ensures
        r == tick_after(
            enabled,
            polled,
            match elapsed {
                Some(n) => Some(n as int),
                None => None,
            },
            poll_secs as int,
        ),
{
    if !enabled {
        return TickAction::Idle;
    }
    if !polled {
        return TickAction::SetBaseline;
    }
    match elapsed {
        Some(n) => if n < poll_secs {
            TickAction::Idle
        } else {
            TickAction::Poll
        },
        None => TickAction::Poll,
    }
}

/// What to do when the clock ticks.
pub fn poll_tick(cfg: &Option<JiraConfig>, last_poll: &str, now: &Moment) -> (r: TickAction)
    ensures
        r == tick_of(opt_config(*cfg), last_poll@, now@),
{
    match cfg {
        Some(c) => {
            let elapsed: Option<i64> = match moment::parse_time(last_poll) {
                Some(t) => Some(now.seconds_since(&t)),
                None => None,
            };
            tick_action(c.enabled, !last_poll.is_empty(), elapsed, c.poll_secs)
        },
        None => TickAction::Idle,
    }
}

/// Why a poll that was asked for is refused, if it is.
pub open spec fn refusal_of(cfg: Option<ConfigView>) -> Option<Seq<char>> {
    match cfg {
        Some(c) => if c.enabled {
            None
        } else {
            Some("Jira 연동이 비활성화되어 있습니다"@)
        },
        None => Some("Jira URL·이메일·토큰을 먼저 설정하세요"@),
    }
}

/// The answer to a poll that was asked for and is refused.
pub fn poll_now(cfg: &Option<JiraConfig>) -> (r: Option<PollResult>)
    ensures
        r is Some <==> refusal_of(opt_config(*cfg)) is Some,
        r matches Some(answer) ==> answer.new_count == 0 && text::opt_text(answer.error)
            == refusal_of(opt_config(*cfg)),
{
    match cfg {
        Some(c) => if c.enabled {
            None
        } else {
            Some(
                PollResult {
                    new_count: 0,
                    error: Some("Jira 연동이 비활성화되어 있습니다".to_owned()),
                },
            )
        },
        None => Some(
            PollResult {
                new_count: 0,
                error: Some("Jira URL·이메일·토큰을 먼저 설정하세요".to_owned()),
            },
        ),
    }
}

// ── Laws ────────────────────────────────────────────────

/// Three searches make a scan of what they found, or end with the error of the
/// first that fails: in the watched project, in other projects, and for what was
/// assigned to me.
pub proof fn law_three_searches(
    app: Result<Found, String>,
    mentions: Result<Found, String>,
    assigned: Result<Found, String>,
)
    ensures
        next_state(next_state(next_state(ScanState::App, app), mentions), assigned) == match (
            app,
            mentions,
            assigned,
        ) {
            (Err(e), _, _) => ScanState::Failed(e),
            (_, Err(e), _) => ScanState::Failed(e),
            (_, _, Err(e)) => ScanState::Failed(e),
            (Ok(a), Ok(m), Ok(f)) => ScanState::Done(Scan { app: a, mentions: m, assigned: f }),
        },
{
}

/// The next poll begins no later than any search of this one was cut off, unless
/// it begins now.
pub proof fn law_nothing_between_polls(scan: Scan, since: int)
    ensures
        baseline_of(scan_mark(scan), since) matches Some(w) ==> {
            &&& w.secs > since
            &&& mark_of(scan.app) matches Some(m) ==> !moment::earlier(m, w)
            &&& mark_of(scan.mentions) matches Some(m) ==> !moment::earlier(m, w)
            &&& mark_of(scan.assigned) matches Some(m) ==> !moment::earlier(m, w)
        },
{
}

/// It does not matter in which order watermarks are merged.
pub proof fn law_merge(a: Option<MomentView>, b: Option<MomentView>, c: Option<MomentView>)
    ensures
        merged(merged(a, b), c) == merged(a, merged(b, c)),
        merged(a, None) == a,
        merged(None, a) == a,
        merged(a, a) == a,
{
}

/// A poll on tick never runs where one that is asked for would be refused.
pub proof fn law_tick_polls_only_when_enabled(
    cfg: Option<ConfigView>,
    last_poll: Seq<char>,
    now: MomentView,
)
    ensures
        !(tick_of(cfg, last_poll, now) is Idle) ==> refusal_of(cfg) is None,
{
}

} // verus!
