//! What holds of all polls of the issue tracker.

use vstd::prelude::*;

use crate::jira;
use crate::jira::EventView;
use crate::json;
use crate::model::Setting;
use crate::moment;
use crate::moment::MomentView;
use crate::poll;
use crate::poll::ConfigView;
use crate::poll::SearchView;
use crate::scan;
use crate::scan::Found;
use crate::scan::IssueDataView;
use crate::scan::Scan;
use crate::scan::ScanState;
use crate::scan::TickAction;
use crate::settings;
use crate::text;

verus! {

// ── Configuration ───────────────────────────────────────

/// The value that a setting has; empty if it is not set.
pub open spec fn set_to(s: Seq<Setting>, key: Seq<char>) -> Seq<char> {
    match settings::value_of(s, key) {
        Some(v) => v,
        None => Seq::empty(),
    }
}

/// The tracker is configured exactly if the address, slashes at its end aside,
/// the e-mail address and the token are set. Without a project the watched one
/// is `APP`; polls are at least a minute apart, and three if nothing readable is
/// set; switches are off unless they are set to `1`.
pub proof fn law_config(s: Seq<Setting>)
    ensures
        poll::config_of(s) is Some <==> {
            &&& text::without_trailing(set_to(s, "jira_base_url"@), '/').len() > 0
            &&& set_to(s, "jira_email"@).len() > 0
            &&& set_to(s, "jira_api_token"@).len() > 0
        },
        poll::config_of(s) matches Some(c) ==> {
            &&& c.base_url == text::without_trailing(set_to(s, "jira_base_url"@), '/')
            &&& c.email == set_to(s, "jira_email"@)
            &&& c.token == set_to(s, "jira_api_token"@)
            &&& c.account_id == set_to(s, "jira_account_id"@)
            &&& c.enabled <==> settings::value_of(s, "jira_enabled"@) == Some("1"@)
            &&& c.my_issues_only <==> settings::value_of(s, "jira_my_issues_only"@) == Some("1"@)
            &&& set_to(s, "jira_project"@).len() > 0 ==> c.project == set_to(s, "jira_project"@)
            &&& set_to(s, "jira_project"@).len() == 0 ==> c.project == "APP"@
            &&& match text::i64_value(set_to(s, "jira_poll_secs"@)) {
                Some(n) => if n >= 60 {
                    c.poll_secs == n
                } else {
                    c.poll_secs == 60
                },
                None => c.poll_secs == 180,
            }
            &&& forall|category: Seq<char>| #[trigger]
                c.categories.contains(category) <==> category.len() > 0 && exists|i: int|
                    0 <= i < text::pieces(set_to(s, "jira_categories"@), ',').len()
                        && text::trimmed(
                        #[trigger] text::pieces(set_to(s, "jira_categories"@), ',')[i],
                    ) == category
        },
{
    if let Some(c) = poll::config_of(s) {
        let pieces = text::pieces(set_to(s, "jira_categories"@), ',');
        assert forall|category: Seq<char>| #[trigger]
            c.categories.contains(category) <==> category.len() > 0 && exists|i: int|
                0 <= i < pieces.len() && text::trimmed(#[trigger] pieces[i]) == category by {
            if exists|i: int| 0 <= i < pieces.len() && text::trimmed(#[trigger] pieces[i])
                == category {
                let i = choose|i: int|
                    0 <= i < pieces.len() && text::trimmed(#[trigger] pieces[i]) == category;
                assert(poll::piece_is(pieces, i, category));
            }
            if poll::listed(set_to(s, "jira_categories"@), category) {
                let i = choose|i: int| #[trigger] poll::piece_is(pieces, i, category);
                assert(text::trimmed(pieces[i]) == category);
            }
        }
    }
}

// ── When to poll, and from when on ──────────────────────

/// On a tick there is a poll exactly if the tracker is configured and enabled,
/// there was one before, and it cannot be read when, or it is long enough ago.
/// Before the first one only the time is noted.
pub proof fn law_tick(cfg: Option<ConfigView>, last_poll: Seq<char>, now: MomentView)
    ensures
        scan::tick_of(cfg, last_poll, now) is Poll <==> {
            &&& cfg matches Some(c) && c.enabled
            &&& last_poll.len() > 0
            &&& moment::parsed_time(last_poll) matches Some(t) ==> moment::seconds_between(now, t)
                >= cfg.unwrap().poll_secs
        },
        scan::tick_of(cfg, last_poll, now) is SetBaseline <==> {
            &&& cfg matches Some(c) && c.enabled
            &&& last_poll.len() == 0
        },
{
}

/// A poll looks back five minutes before the last one; if it cannot be read when
/// that was, as far back as polls are apart. Leap seconds aside.
pub proof fn law_since(last_poll: Seq<char>, poll_secs: int, now: MomentView)
    requires
        0 <= poll_secs,
        now.nanos < moment::BILLION,
        moment::parsed_time(last_poll) matches Some(t) ==> t.nanos < moment::BILLION && t.secs - 300
            >= moment::MIN_SECS,
        now.secs - poll_secs >= moment::MIN_SECS,
    ensures
        poll::since_of(last_poll, poll_secs, now) == match moment::parsed_time(last_poll) {
            Some(t) => Some(MomentView { secs: t.secs - 300, ..t }),
            None => Some(MomentView { secs: now.secs - poll_secs, ..now }),
        },
{
}

/// When the last issue of a search that was cut off was updated.
pub open spec fn cut_at(found: Found) -> Option<MomentView> {
    let issues = scan::issue_views(found.issues@);
    if found.truncated && issues.len() > 0 {
        match json::value_of(issues[issues.len() - 1].issue).at("fields"@).at("updated"@) {
            json::JsonView::Text(s) => moment::parsed_time(s),
            _ => None,
        }
    } else {
        None
    }
}

/// A scan got as far as the earliest of its searches that were cut off; if none
/// was, it is complete.
pub proof fn law_scan_mark(s: Scan)
    ensures
        scan::scan_mark(s) is None <==> cut_at(s.app) is None && cut_at(s.mentions) is None
            && cut_at(s.assigned) is None,
        scan::scan_mark(s) matches Some(w) ==> {
            &&& cut_at(s.app) == Some(w) || cut_at(s.mentions) == Some(w) || cut_at(s.assigned)
                == Some(w)
            &&& cut_at(s.app) matches Some(m) ==> !moment::earlier(m, w)
            &&& cut_at(s.mentions) matches Some(m) ==> !moment::earlier(m, w)
            &&& cut_at(s.assigned) matches Some(m) ==> !moment::earlier(m, w)
        },
{
    lemma_cut_at(s.app);
    lemma_cut_at(s.mentions);
    lemma_cut_at(s.assigned);
}

proof fn lemma_cut_at(found: Found)
    ensures
        scan::mark_of(found) == cut_at(found),
{
    let issues = scan::issue_views(found.issues@);
    let values = scan::doc_values(scan::issue_texts(issues));
    if issues.len() > 0 {
        assert(values.last() == json::value_of(issues[issues.len() - 1].issue));
    }
}

/// The next poll begins where this one was cut off exactly if that is later than
/// where it began; else from now on.
pub proof fn law_baseline(mark: Option<MomentView>, since: int)
    ensures
        mark matches Some(w) && w.secs > since ==> scan::baseline_of(mark, since) == mark,
        (mark matches Some(w) ==> w.secs <= since) ==> scan::baseline_of(mark, since) is None,
{
}

/// Notifications that were read are kept for 90 days. Leap seconds aside.
pub proof fn law_retention(now: MomentView, offset: int)
    requires
        now.nanos < moment::BILLION,
    ensures
        scan::cutoff_of(now, offset) == (MomentView { secs: now.secs - 90 * 86400, offset, ..now }),
{
}

/// A poll that succeeded stores from when on the next one looks, and clears the
/// error; one that failed stores only why.
pub proof fn law_stored(outcome: Result<Seq<char>, Seq<char>>)
    ensures
        outcome matches Ok(time) ==> scan::stored_after(outcome) == seq![
            ("jira_last_poll"@, time),
            ("jira_last_error"@, ""@),
        ],
        outcome matches Err(e) ==> scan::stored_after(outcome) == seq![("jira_last_error"@, e)],
{
    reveal_strlit("");
    assert(""@ =~= Seq::<char>::empty());
}

// ── Pages ───────────────────────────────────────────────

/// A page adds its issues behind those that came. The search goes on exactly if
/// the page names a next one and fewer than 500 issues came; it was cut off
/// exactly if the page names a next one and 500 or more came.
pub proof fn law_page(s: SearchView, found: Seq<Seq<char>>, token: Option<Seq<char>>)
    requires
        !s.done,
        !s.truncated,
    ensures
        ({
            let r = poll::with_page(s, found, token);
            let more = token matches Some(t) && t.len() > 0;
            &&& r.issues == s.issues + found
            &&& r.done <==> !more || s.issues.len() + found.len() >= 500
            &&& r.truncated <==> more && s.issues.len() + found.len() >= 500
            &&& !r.done ==> r.next == token
        }),
{
}

/// The latest changes of an issue are asked for exactly if it has more than 100,
/// the last 100 of them. They are taken if they came, else those that came with
/// the issue.
pub proof fn law_changes(first: Seq<char>, later: Option<Seq<char>>)
    ensures
        ({
            let start = poll::late_changes_start(first);
            let latest = poll::items_of(poll::part_of(poll::came_back(later), "values"@));
            &&& match poll::reply_value(first).at("changelog"@).at("total"@) {
                json::JsonView::Number(Some(n), _) => if n > 100 {
                    start == Some(n - 100)
                } else {
                    start is None
                },
                _ => start is None,
            }
            &&& start is Some && latest is Some ==> poll::changes_of(Some(first), later)
                == latest.unwrap()
            &&& start is None || latest is None ==> poll::changes_of(Some(first), later)
                == poll::items_or_none(
                poll::part_of(
                    poll::part_of(json::read_json(first), "changelog"@),
                    "histories"@,
                ),
            )
        }),
        poll::changes_of(None, later) == Seq::<Seq<char>>::empty(),
{
}

/// The comments of an issue are asked for exactly if it has a key and states
/// more than came with it. They are taken if they came, else those that came with
/// the issue.
pub proof fn law_comments(issue: Seq<char>, reply: Option<Seq<char>>)
    ensures
        ({
            let came = poll::inline_comments(issue);
            let asked = poll::items_of(poll::part_of(poll::came_back(reply), "comments"@));
            &&& poll::comments_missing(issue) <==> {
                &&& json::value_of(issue).at("key"@) matches json::JsonView::Text(k) && k.len() > 0
                &&& json::value_of(issue).at("fields"@).at("comment"@).at(
                    "total"@,
                ) matches json::JsonView::Number(Some(n), _) && (n < 0 || n > came.len())
            }
            &&& poll::comments_missing(issue) && asked is Some ==> poll::comments_of(issue, reply)
                == asked.unwrap()
            &&& !poll::comments_missing(issue) || asked is None ==> poll::comments_of(issue, reply)
                == came
        }),
{
}

/// In the watched project the changes and the comments of an issue are looked
/// at, in others only the comments, and of what was assigned to me only the
/// changes. The queries differ accordingly, and take what was updated first.
pub proof fn law_plans(state: ScanState, project: Seq<char>, time: Seq<char>)
    ensures
        state is App ==> scan::plan_of(state, project, time) == Some(
            (
                "project = \""@ + project + "\" AND updated >= \""@ + time
                    + "\" ORDER BY updated ASC"@,
                true,
                true,
            ),
        ),
        state is Mentions ==> scan::plan_of(state, project, time) == Some(
            (
                "project != \""@ + project + "\" AND updated >= \""@ + time
                    + "\" ORDER BY updated ASC"@,
                false,
                true,
            ),
        ),
        state is Assigned ==> scan::plan_of(state, project, time) == Some(
            (
                "assignee CHANGED TO currentUser() AFTER \""@ + time + "\" ORDER BY updated ASC"@,
                true,
                false,
            ),
        ),
        state is Done || state is Failed ==> scan::plan_of(state, project, time) is None,
{
}

/// A page is asked for by its query, and by its mark from the second on; pages
/// hold 50 issues, changes come 100 at a time, comments 50, the latest first.
pub proof fn law_requests(
    s: SearchView,
    base_url: Seq<char>,
    jql: Seq<char>,
    key: Seq<char>,
    start: int,
)
    ensures
        ({
            let page = poll::page_request(s, base_url, jql).query;
            let changes = poll::changes_request(base_url, key, start).query;
            let comments = poll::comments_request(base_url, key).query;
            &&& page.contains(("jql"@, jql))
            &&& page.contains(("maxResults"@, text::decimal(50)))
            &&& s.next matches Some(t) ==> page.len() == 4 && page.contains(("nextPageToken"@, t))
            &&& s.next is None ==> page.len() == 3
            &&& changes == seq![
                ("startAt"@, text::signed_decimal(start)),
                ("maxResults"@, text::decimal(100)),
            ]
            &&& comments == seq![
                ("orderBy"@, "-created"@),
                ("maxResults"@, text::decimal(50)),
            ]
        }),
{
    let page = poll::page_request(s, base_url, jql).query;
    assert(page[0] == ("jql"@, jql));
    assert(page[2] == ("maxResults"@, text::decimal(50)));
    if let Some(t) = s.next {
        assert(page[3] == ("nextPageToken"@, t));
    }
}

// ── Scans ───────────────────────────────────────────────

/// The notifications of two groups of issues are those of the first, then those
/// of the second.
pub proof fn law_scans_join(
    a: Seq<IssueDataView>,
    b: Seq<IssueDataView>,
    since: int,
    my_id: Seq<char>,
    my_issues_only: bool,
)
    ensures
        scan::app_scan(a + b, since, my_id, my_issues_only) == scan::app_scan(
            a,
            since,
            my_id,
            my_issues_only,
        ) + scan::app_scan(b, since, my_id, my_issues_only),
        scan::mention_scan(a + b, since, my_id) == scan::mention_scan(a, since, my_id)
            + scan::mention_scan(b, since, my_id),
        scan::assigned_scan(a + b, since, my_id) == scan::assigned_scan(a, since, my_id)
            + scan::assigned_scan(b, since, my_id),
    decreases b.len(),
{
    if b.len() == 0 {
        assert(a + b =~= a);
    } else {
        let last = b.last();
        assert((a + b).drop_last() =~= a + b.drop_last());
        assert((a + b).last() == last);
        law_scans_join(a, b.drop_last(), since, my_id, my_issues_only);
    }
    assert(scan::app_scan(a + b, since, my_id, my_issues_only) =~= scan::app_scan(
        a,
        since,
        my_id,
        my_issues_only,
    ) + scan::app_scan(b, since, my_id, my_issues_only));
    assert(scan::mention_scan(a + b, since, my_id) =~= scan::mention_scan(a, since, my_id)
        + scan::mention_scan(b, since, my_id));
    assert(scan::assigned_scan(a + b, since, my_id) =~= scan::assigned_scan(a, since, my_id)
        + scan::assigned_scan(b, since, my_id));
}

/// One issue makes the notifications of its kind, from its changes and comments.
pub proof fn law_scan_of_one(
    d: IssueDataView,
    since: int,
    my_id: Seq<char>,
    my_issues_only: bool,
)
    ensures
        ({
            let issue = json::value_of(d.issue);
            let changes = Seq::new(d.changes.len(), |i: int| json::value_of(d.changes[i]));
            let comments = Seq::new(d.comments.len(), |i: int| jira::comment_of(d.comments[i]));
            &&& scan::app_scan(seq![d], since, my_id, my_issues_only) == jira::app_events(
                issue,
                changes,
                comments,
                since,
                my_id,
                my_issues_only,
            )
            &&& scan::mention_scan(seq![d], since, my_id) == jira::mention_events(
                issue,
                comments,
                since,
                my_id,
            )
            &&& scan::assigned_scan(seq![d], since, my_id) == jira::assignment_events(
                issue,
                changes,
                since,
                my_id,
            )
        }),
{
    let issue = json::value_of(d.issue);
    let changes = scan::doc_values(d.changes);
    let comments = scan::doc_comments(d.comments);
    let one = seq![d];
    assert(one.drop_last() =~= Seq::<IssueDataView>::empty());
    assert(one.last() == d);
    reveal_with_fuel(scan::app_scan, 2);
    reveal_with_fuel(scan::mention_scan, 2);
    reveal_with_fuel(scan::assigned_scan, 2);
    assert(changes =~= Seq::new(d.changes.len(), |i: int| json::value_of(d.changes[i])));
    assert(comments =~= Seq::new(d.comments.len(), |i: int| jira::comment_of(d.comments[i])));
    let none = Seq::<EventView>::empty();
    let app = jira::app_events(issue, changes, comments, since, my_id, my_issues_only);
    let mentioned = jira::mention_events(issue, comments, since, my_id);
    let assigned = jira::assignment_events(issue, changes, since, my_id);
    assert(none + app =~= app);
    assert(none + mentioned =~= mentioned);
    assert(none + assigned =~= assigned);
}

} // verus!
