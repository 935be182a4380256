//! Asking the issue tracker: what is sent, and what is made of the replies.

use vstd::prelude::*;

use crate::json;
use crate::json::Doc;
use crate::json::Json;
use crate::json::JsonView;
use crate::model::JiraUser;
use crate::model::Setting;
use crate::moment;
use crate::moment::Moment;
use crate::moment::MomentView;
use crate::settings;
use crate::text;
use crate::text::TextSet;

verus! {

/// How far a poll reaches back before the last one, in seconds.
pub const OVERLAP_SECS: i64 = 300;

/// Issues per page of a search.
pub const PAGE_SIZE: u64 = 50;

/// How many issues are taken from one search before it is cut off.
pub const MAX_ISSUES: usize = 500;

/// How many changes of an issue are looked at.
pub const MAX_CHANGES: i64 = 100;

/// How many comments of an issue are asked for.
pub const MAX_COMMENTS: u64 = 50;

/// Seconds between two polls if the setting cannot be read.
pub const DEFAULT_POLL_SECS: i64 = 180;

/// The words for a reply that is not JSON.
pub const NOT_JSON: &'static str = "error decoding response body";

/// Seconds between two polls at least.
pub const MIN_POLL_SECS: i64 = 60;

// ── Configuration ───────────────────────────────────────

/// The configuration of the issue tracker.
pub struct ConfigView {
    pub enabled: bool,
    pub base_url: Seq<char>,
    pub email: Seq<char>,
    pub token: Seq<char>,
    pub account_id: Seq<char>,
    pub project: Seq<char>,
    pub poll_secs: int,
    pub categories: Set<Seq<char>>,
    pub my_issues_only: bool,
}

/// The configuration of the issue tracker.
pub struct JiraConfig {
    pub enabled: bool,
    pub base_url: String,
    pub email: String,
    pub token: String,
    pub account_id: String,
    pub project: String,
    pub poll_secs: i64,
    /// The categories to be notified of; all if there is none.
    pub categories: TextSet,
    /// Whether the creation and the changes of the status and of other fields
    /// count only for my issues.
    pub my_issues_only: bool,
}

impl JiraConfig {
    pub open spec fn view(&self) -> ConfigView {
        ConfigView {
            enabled: self.enabled,
            base_url: self.base_url@,
            email: self.email@,
            token: self.token@,
            account_id: self.account_id@,
            project: self.project@,
            poll_secs: self.poll_secs as int,
            categories: self.categories@,
            my_issues_only: self.my_issues_only,
        }
    }
}

/// Whether a category stands in a comma-separated list.
pub open spec fn listed(list: Seq<char>, category: Seq<char>) -> bool {
    category.len() > 0 && exists|i: int| #[trigger] piece_is(text::pieces(list, ','), i, category)
}

/// Whether a piece of a list is a category, white space aside.
pub open spec fn piece_is(pieces: Seq<Seq<char>>, i: int, category: Seq<char>) -> bool {
    0 <= i < pieces.len() && text::trimmed(pieces[i]) == category
}

/// The categories of a comma-separated list.
pub open spec fn category_set(list: Seq<char>) -> Set<Seq<char>> {
    Set::new(|c: Seq<char>| listed(list, c))
}

/// The seconds between two polls that a text sets.
pub open spec fn poll_secs_of(s: Seq<char>) -> int {
    let n = match text::i64_value(s) {
        Some(n) => n,
        None => DEFAULT_POLL_SECS as int,
    };
    if n < MIN_POLL_SECS {
        MIN_POLL_SECS as int
    } else {
        n
    }
}

/// The configuration that some settings state; nothing without an address, an
/// e-mail address and a token.
pub open spec fn config_of(s: Seq<Setting>) -> Option<ConfigView> {
    let base_url = text::without_trailing(settings::value_or_empty(s, "jira_base_url"@), '/');
    let email = settings::value_or_empty(s, "jira_email"@);
    let token = settings::value_or_empty(s, "jira_api_token"@);
    let project = settings::value_or_empty(s, "jira_project"@);
    if base_url.len() == 0 || email.len() == 0 || token.len() == 0 {
        None
    } else {
        Some(
            ConfigView {
                enabled: settings::is_on(s, "jira_enabled"@, false),
                base_url,
                email,
                token,
                account_id: settings::value_or_empty(s, "jira_account_id"@),
                project: if project.len() == 0 {
                    "APP"@
                } else {
                    project
                },
                poll_secs: poll_secs_of(settings::value_or_empty(s, "jira_poll_secs"@)),
                categories: category_set(settings::value_or_empty(s, "jira_categories"@)),
                my_issues_only: settings::is_on(s, "jira_my_issues_only"@, false),
            },
        )
    }
}

/// The categories of a comma-separated list.
fn read_categories(list: &str) -> (r: TextSet)
    ensures
        r@ == category_set(list@),
{
    let parts = text::split_text(list, ',');
    let ghost all = text::texts(parts@);
    let mut out = TextSet::new();
    let mut i: usize = 0;
    while i < parts.len()
        invariant
            all == text::texts(parts@),
            i <= parts.len(),
            forall|c: Seq<char>|
                #[trigger] out@.contains(c) <==> c.len() > 0 && exists|k: int|
                    k < i && #[trigger] piece_is(all, k, c),
        decreases parts.len() - i,
    {
        let part = text::trim_text(parts[i].as_str());
        let ghost added = part@;
        let ghost before = out@;
        let empty = part.as_str().is_empty();
        if !empty {
            out.insert(part);
        }
        proof {
            assert(piece_is(all, i as int, added));
            assert forall|c: Seq<char>| #[trigger]
                out@.contains(c) <==> c.len() > 0 && exists|k: int|
                    k < i + 1 && #[trigger] piece_is(all, k, c) by {
                if out@.contains(c) {
                    if before.contains(c) {
                        let k = choose|k: int| k < i && #[trigger] piece_is(all, k, c);
                        assert(k < i + 1 && piece_is(all, k, c));
                    } else {
                        assert(piece_is(all, i as int, c));
                    }
                }
                if c.len() > 0 && exists|k: int| k < i + 1 && #[trigger] piece_is(all, k, c) {
                    let k = choose|k: int| k < i + 1 && #[trigger] piece_is(all, k, c);
                    if k < i {
                        assert(before.contains(c));
                    }
                }
            }
        }
        i += 1;
    }
    assert(out@ =~= category_set(list@));
    out
}

/// The configuration that some settings state.
pub fn load_config(s: &Vec<Setting>) -> (r: Option<JiraConfig>)
    ensures
        (match r {
            Some(c) => Some(c.view()),
            None => None::<ConfigView>,
        }) == config_of(s@),
        r matches Some(c) ==> c.poll_secs >= MIN_POLL_SECS,
{
    let base_url = text::trim_end_of(settings::setting_str(s, "jira_base_url").as_str(), '/');
    let email = settings::setting_str(s, "jira_email");
    let token = settings::setting_str(s, "jira_api_token");
    if base_url.as_str().is_empty() || email.as_str().is_empty() || token.as_str().is_empty() {
        return None;
    }
    let project = settings::setting_str(s, "jira_project");
    let poll_secs: i64 = match text::parse_i64(
        settings::setting_str(s, "jira_poll_secs").as_str(),
    ) {
        Some(n) => n,
        None => DEFAULT_POLL_SECS,
    };
    Some(
        JiraConfig {
            enabled: settings::setting_bool(s, "jira_enabled", false),
            base_url,
            email,
            token,
            account_id: settings::setting_str(s, "jira_account_id"),
            project: if project.as_str().is_empty() {
                "APP".to_owned()
            } else {
                project
            },
            poll_secs: if poll_secs < MIN_POLL_SECS {
                MIN_POLL_SECS
            } else {
                poll_secs
            },
            categories: read_categories(settings::setting_str(s, "jira_categories").as_str()),
            my_issues_only: settings::setting_bool(s, "jira_my_issues_only", false),
        },
    )
}

// ── Requests ────────────────────────────────────────────

/// A request to the tracker.
#[verifier::ext_equal]
pub struct RequestView {
    pub url: Seq<char>,
    pub query: Seq<(Seq<char>, Seq<char>)>,
}

/// A request to the tracker.
#[derive(Debug)]
pub struct Request {
    pub url: String,
    pub query: Vec<(String, String)>,
}

impl Request {
    pub open spec fn view(&self) -> RequestView {
        RequestView {
            url: self.url@,
            query: Seq::new(
                self.query@.len(),
                |i: int| (self.query@[i].0@, self.query@[i].1@),
            ),
        }
    }

    /// A request without a query.
    fn to(url: String) -> (r: Request)
        ensures
            r.view() == (RequestView { url: url@, query: Seq::empty() }),
    {
        let r = Request { url, query: Vec::new() };
        assert(r.view().query =~= Seq::empty());
        r
    }

    /// The request with one more part of its query.
    fn with(self, name: &str, value: &str) -> (r: Request)
        ensures
            r.view() == (RequestView {
                url: self.view().url,
                query: self.view().query.push((name@, value@)),
            }),
    {
        let Request { url, query } = self;
        let mut query = query;
        let ghost before = self.view().query;
        query.push((name.to_owned(), value.to_owned()));
        let r = Request { url, query };
        assert(r.view().query =~= before.push((name@, value@)));
        r
    }
}

/// What is wrong with a reply, by its status; nothing if it is a success.
pub open spec fn status_error(status: u16, url: Seq<char>) -> Option<Seq<char>> {
    if 200 <= status < 300 {
        None
    } else {
        Some("HTTP "@ + text::decimal(status as nat) + " ("@ + url + ")"@)
    }
}

/// What is wrong with a reply, by its status; nothing if it is a success.
pub fn reply_error(status: u16, url: &str) -> (r: Option<String>)
    ensures
        text::opt_text(r) == status_error(status, url@),
{
    if 200 <= status && status < 300 {
        return None;
    }
    let mut out = text::concat3("HTTP ", text::decimal_text(status as u64).as_str(), " (");
    out.append(url);
    out.append(")");
    Some(out)
}

// ── Connection test ─────────────────────────────────────

/// The address of the tracker as it was entered, brought into shape.
pub open spec fn shaped_url(url: Seq<char>) -> Seq<char> {
    text::without_trailing(text::trimmed(url), '/')
}

/// Whether a connection can be tried: nothing was left empty.
pub open spec fn complete(url: Seq<char>, email: Seq<char>, token: Seq<char>) -> bool {
    shaped_url(url).len() > 0 && text::trimmed(email).len() > 0 && text::trimmed(token).len() > 0
}

/// What is sent to try a connection.
pub struct Login {
    pub url: String,
    pub email: String,
    pub token: String,
}

/// What is sent to try a connection; an error if something was left empty.
pub fn connection_request(url: &str, email: &str, token: &str) -> (r: Result<Login, String>)
    ensures
        r is Ok <==> complete(url@, email@, token@),
        r matches Ok(login) ==> {
            &&& login.url@ == shaped_url(url@) + "/rest/api/3/myself"@
            &&& login.email@ == text::trimmed(email@)
            &&& login.token@ == text::trimmed(token@)
        },
        r matches Err(e) ==> e@ == "URL·이메일·토큰을 모두 입력하세요"@,
{
    let trimmed = text::trim_text(url);
    let base = text::trim_end_of(trimmed.as_str(), '/');
    let email = text::trim_text(email);
    let token = text::trim_text(token);
    if base.as_str().is_empty() || email.as_str().is_empty() || token.as_str().is_empty() {
        return Err("URL·이메일·토큰을 모두 입력하세요".to_owned());
    }
    Ok(Login { url: text::concat2(base.as_str(), "/rest/api/3/myself"), email, token })
}

/// The value written in a reply; null if it is not JSON.
pub open spec fn reply_value(reply: Seq<char>) -> JsonView {
    match json::parsed_json(reply) {
        Some(v) => v,
        None => JsonView::Null,
    }
}

/// The value written in a reply; null if it is not JSON.
pub fn read_reply(reply: &str) -> (r: Json)
    ensures
        r.view() == reply_value(reply@),
{
    match json::parse_json(reply) {
        Some(v) => v,
        None => Json::Null,
    }
}

/// What is wrong with a reply: why nothing came back, or that what came back is
/// not JSON.
pub open spec fn reply_fault(reply: Result<Seq<char>, Seq<char>>) -> Option<Seq<char>> {
    match reply {
        Ok(body) => if json::parsed_json(body) is Some {
            None
        } else {
            Some(NOT_JSON@)
        },
        Err(e) => Some(e),
    }
}

/// The texts of a reply.
pub open spec fn reply_texts(reply: Result<String, String>) -> Result<Seq<char>, Seq<char>> {
    match reply {
        Ok(body) => Ok(body@),
        Err(e) => Err(e@),
    }
}

/// The account that a reply reports.
pub fn read_user(value: &Json) -> (r: JiraUser)
    ensures
        r.account_id@ == value.view().at("accountId"@).text_or_empty(),
        r.display_name@ == value.view().at("displayName"@).text_or_empty(),
{
    JiraUser {
        account_id: value.text_or_empty_at("accountId"),
        display_name: value.text_or_empty_at("displayName"),
    }
}

/// The account that a connection was tried with: `reply` is what came back for
/// `connection_request`, or why nothing did.
pub fn test_connection(
    url: &str,
    email: &str,
    token: &str,
    reply: Result<String, String>,
) -> (r: Result<JiraUser, String>)
    ensures
        r is Ok <==> complete(url@, email@, token@) && reply is Ok && json::parsed_json(
            reply->Ok_0@,
        ) is Some,
        r matches Ok(user) ==> {
            let value = json::parsed_json(reply->Ok_0@).unwrap();
            &&& user.account_id@ == value.at("accountId"@).text_or_empty()
            &&& user.display_name@ == value.at("displayName"@).text_or_empty()
        },
        r matches Err(e) ==> e@ == if complete(url@, email@, token@) {
            "연결 실패: "@ + reply_fault(reply_texts(reply)).unwrap()
        } else {
            "URL·이메일·토큰을 모두 입력하세요"@
        },
{
    match connection_request(url, email, token) {
        Ok(_) => match reply {
            Ok(body) => match json::parse_json(body.as_str()) {
                Some(v) => Ok(read_user(&v)),
                None => Err(text::concat2("연결 실패: ", NOT_JSON)),
            },
            Err(e) => Err(text::concat2("연결 실패: ", e.as_str())),
        },
        Err(e) => Err(e),
    }
}

/// The account id to take over, where the configuration has none and a
/// connection gave one.
pub fn ensure_account_id(account_id: &str, user: &Result<JiraUser, String>) -> (r: Option<String>)
    ensures
        text::opt_text(r) == match user {
            Ok(u) => if account_id@.len() == 0 && u.account_id@.len() > 0 {
                Some(u.account_id@)
            } else {
                None
            },
            Err(_) => None,
        },
{
    match user {
        Ok(u) => if account_id.is_empty() && !u.account_id.as_str().is_empty() {
            Some(u.account_id.clone())
        } else {
            None
        },
        Err(_) => None,
    }
}

// ── Time window ─────────────────────────────────────────

/// The instant from which on a poll looks: a little before the last poll, or as
/// long ago as polls are apart if there was none. Nothing if that is before the
/// calendar begins.
pub open spec fn since_of(last_poll: Seq<char>, poll_secs: int, now: MomentView) -> Option<
    MomentView,
> {
    let since = match moment::parsed_time(last_poll) {
        Some(t) => moment::before(t, OVERLAP_SECS as int),
        None => moment::before(now, poll_secs),
    };
    if moment::MIN_SECS <= since.secs {
        Some(since)
    } else {
        None
    }
}

/// The instant from which on a poll looks.
pub fn compute_since(last_poll: &str, poll_secs: i64, now: &Moment) -> (r: Option<Moment>)
    requires
        0 <= poll_secs,
    ensures
        moment::opt_moment(r) == since_of(last_poll@, poll_secs as int, now@),
{
    match moment::parse_time(last_poll) {
        Some(t) => t.seconds_before(OVERLAP_SECS),
        None => now.seconds_before(poll_secs),
    }
}

/// An instant as a query writes it: the time in Korea, to the minute.
pub fn jql_time_str(since: &Moment) -> (r: String)
    ensures
        r@ == moment::minute_text((MomentView { offset: moment::KST_OFFSET as int, ..since@ })),
{
    since.minute_in_korea()
}

// ── Searches ────────────────────────────────────────────

/// The query for the issues of the watched project.
pub open spec fn app_query(project: Seq<char>, time: Seq<char>) -> Seq<char> {
    "project = \""@ + project + "\" AND updated >= \""@ + time + "\" ORDER BY updated ASC"@
}

/// The query for the issues of other projects.
pub open spec fn mention_query(project: Seq<char>, time: Seq<char>) -> Seq<char> {
    "project != \""@ + project + "\" AND updated >= \""@ + time + "\" ORDER BY updated ASC"@
}

/// The query for the issues that were assigned to me.
pub open spec fn assigned_query(time: Seq<char>) -> Seq<char> {
    "assignee CHANGED TO currentUser() AFTER \""@ + time + "\" ORDER BY updated ASC"@
}

/// The query for the issues of the watched project.
pub fn jql_app(project: &str, time: &str) -> (r: String)
    ensures
        r@ == app_query(project@, time@),
{
    let mut out = text::concat3("project = \"", project, "\" AND updated >= \"");
    out.append(time);
    out.append("\" ORDER BY updated ASC");
    out
}

/// The query for the issues of other projects.
pub fn jql_mention(project: &str, time: &str) -> (r: String)
    ensures
        r@ == mention_query(project@, time@),
{
    let mut out = text::concat3("project != \"", project, "\" AND updated >= \"");
    out.append(time);
    out.append("\" ORDER BY updated ASC");
    out
}

/// The query for the issues that were assigned to me.
pub fn jql_assigned(time: &str) -> (r: String)
    ensures
        r@ == assigned_query(time@),
{
    text::concat3(
        "assignee CHANGED TO currentUser() AFTER \"",
        time,
        "\" ORDER BY updated ASC",
    )
}

/// A search that goes on page by page.
#[verifier::ext_equal]
pub struct SearchView {
    /// The issues found so far, as they are written.
    pub issues: Seq<Seq<char>>,
    /// The mark of the next page.
    pub next: Option<Seq<char>>,
    pub done: bool,
    /// Whether the search was cut off.
    pub truncated: bool,
}

/// A search that goes on page by page.
#[derive(Debug)]
pub struct Search {
    pub issues: Vec<Doc>,
    pub next: Option<String>,
    pub done: bool,
    pub truncated: bool,
}

impl Search {
    pub open spec fn view(&self) -> SearchView {
        SearchView {
            issues: json::doc_texts(self.issues@),
            next: text::opt_text(self.next),
            done: self.done,
            truncated: self.truncated,
        }
    }
}

/// A search of which no page has come yet.
pub open spec fn search_begin() -> SearchView {
    SearchView { issues: Seq::empty(), next: None, done: false, truncated: false }
}

/// The request for the next page of a search.
pub open spec fn page_request(s: SearchView, base_url: Seq<char>, jql: Seq<char>) -> RequestView {
    let first = seq![
        ("jql"@, jql),
        ("fields"@, "summary,status,assignee,creator,reporter,created,updated,comment"@),
        ("maxResults"@, text::decimal(PAGE_SIZE as nat)),
    ];
    RequestView {
        url: base_url + "/rest/api/3/search/jql"@,
        query: match s.next {
            Some(t) => first.push(("nextPageToken"@, t)),
            None => first,
        },
    }
}

/// A member of a document, if both are there.
pub open spec fn part_of(doc: Option<Seq<char>>, key: Seq<char>) -> Option<Seq<char>> {
    match doc {
        Some(d) => json::member_of(d, key),
        None => None,
    }
}

/// The elements of a document, if it is there and an array.
pub open spec fn items_of(doc: Option<Seq<char>>) -> Option<Seq<Seq<char>>> {
    match doc {
        Some(d) => json::elements_of(d),
        None => None,
    }
}

/// The elements of a document; none of anything but an array.
pub open spec fn items_or_none(doc: Option<Seq<char>>) -> Seq<Seq<char>> {
    match items_of(doc) {
        Some(items) => items,
        None => Seq::empty(),
    }
}

/// A search after a page with some issues came, and the mark of the next page.
pub open spec fn with_page(s: SearchView, found: Seq<Seq<char>>, token: Option<Seq<char>>) -> SearchView {
    let issues = s.issues + found;
    match token {
        Some(t) => if t.len() == 0 {
            SearchView { issues, done: true, ..s }
        } else if issues.len() >= MAX_ISSUES {
            SearchView { issues, done: true, truncated: true, ..s }
        } else {
            SearchView { issues, next: Some(t), ..s }
        },
        None => SearchView { issues, done: true, ..s },
    }
}

/// A search after a page came that is JSON.
pub open spec fn after_page(s: SearchView, reply: Seq<char>) -> SearchView {
    with_page(
        s,
        items_or_none(part_of(json::read_json(reply), "issues"@)),
        reply_value(reply).at("nextPageToken"@).as_text(),
    )
}

/// A member of a document, if both are there.
fn part(doc: Option<Doc>, key: &str) -> (r: Option<Doc>)
    ensures
        json::opt_doc(r) == part_of(json::opt_doc(doc), key@),
{
    match doc {
        Some(d) => d.into_member(key),
        None => None,
    }
}

/// The elements of a document, if it is there and an array.
fn items(doc: Option<Doc>) -> (r: Option<Vec<Doc>>)
    ensures
        r is Some <==> items_of(json::opt_doc(doc)) is Some,
        r matches Some(v) ==> items_of(json::opt_doc(doc)) == Some(json::doc_texts(v@)),
{
    match doc {
        Some(d) => d.into_elements(),
        None => None,
    }
}

/// The elements of a document; none of anything but an array.
fn items_or_empty(doc: Option<Doc>) -> (r: Vec<Doc>)
    ensures
        json::doc_texts(r@) == items_or_none(json::opt_doc(doc)),
{
    match items(doc) {
        Some(v) => v,
        None => no_docs(),
    }
}

fn no_docs() -> (r: Vec<Doc>)
    ensures
        json::doc_texts(r@) == Seq::<Seq<char>>::empty(),
{
    let none: Vec<Doc> = Vec::new();
    assert(json::doc_texts(none@) =~= Seq::empty());
    none
}

impl Search {
    /// A search of which no page has come yet.
    pub fn new() -> (r: Search)
        ensures
            r.view() == search_begin(),
    {
        let r = Search { issues: Vec::new(), next: None, done: false, truncated: false };
        assert(r.view().issues =~= Seq::empty());
        r
    }

    /// The request for the next page.
    pub fn request(&self, base_url: &str, jql: &str) -> (r: Request)
        ensures
            r.view() == page_request(self.view(), base_url@, jql@),
    {
        let first = Request::to(text::concat2(base_url, "/rest/api/3/search/jql")).with(
            "jql",
            jql,
        ).with("fields", "summary,status,assignee,creator,reporter,created,updated,comment").with(
            "maxResults",
            text::decimal_text(PAGE_SIZE).as_str(),
        );
        let r = match &self.next {
            Some(t) => first.with("nextPageToken", t.as_str()),
            None => first,
        };
        assert(r.view() =~= page_request(self.view(), base_url@, jql@));
        r
    }

    /// Takes a page in; an error, and nothing else, if it is not JSON.
    pub fn take_page(&mut self, reply: &str) -> (r: Result<(), String>)
        ensures
            r is Ok <==> json::parsed_json(reply@) is Some,
            r is Ok ==> final(self).view() == after_page(old(self).view(), reply@),
            r matches Err(e) ==> e@ == NOT_JSON@ && *final(self) == *old(self),
    {
        match Doc::parse(reply) {
            Some(page) => {
                let token = page.json().text_at("nextPageToken");
                let found = items_or_empty(part(Some(page), "issues"));
                self.add_page(found, token);
                Ok(())
            },
            None => Err(NOT_JSON.to_owned()),
        }
    }

    /// Takes the issues of a page in, and the mark of the next page.
    pub fn add_page(&mut self, found: Vec<Doc>, token: Option<String>)
        ensures
            final(self).view() == with_page(
                old(self).view(),
                json::doc_texts(found@),
                text::opt_text(token),
            ),
    {
        let ghost before = json::doc_texts(self.issues@);
        let ghost new = json::doc_texts(found@);
        let mut found = found;
        self.issues.append(&mut found);
        assert(json::doc_texts(self.issues@) =~= before + new);
        match token {
            Some(t) => {
                if t.as_str().is_empty() {
                    self.done = true;
                } else if self.issues.len() >= MAX_ISSUES {
                    self.done = true;
                    self.truncated = true;
                } else {
                    self.next = Some(t);
                }
            },
            None => {
                self.done = true;
            },
        }
    }
}

/// A search is cut off only when enough issues were found and more were to
/// come; and then it is over.
pub proof fn law_search(s: SearchView, reply: Seq<char>)
    requires
        !s.done,
        !s.truncated,
    ensures
        ({
            let after = after_page(s, reply);
            &&& after.truncated ==> after.done && after.issues.len() >= MAX_ISSUES
            &&& !after.done ==> after.issues.len() < MAX_ISSUES && after.next is Some
            &&& after.issues.len() >= s.issues.len()
            &&& after.issues.take(s.issues.len() as int) == s.issues
        }),
{
    let after = after_page(s, reply);
    assert(after.issues.take(s.issues.len() as int) =~= s.issues);
}

// ── Changes and comments ────────────────────────────────

/// The request for an issue with its changes.
pub open spec fn issue_request(base_url: Seq<char>, key: Seq<char>) -> RequestView {
    RequestView {
        url: base_url + "/rest/api/3/issue/"@ + key,
        query: seq![("expand"@, "changelog"@), ("fields"@, "summary"@)],
    }
}

/// The request for the changes of an issue from `start` on.
pub open spec fn changes_request(base_url: Seq<char>, key: Seq<char>, start: int) -> RequestView {
    RequestView {
        url: base_url + "/rest/api/3/issue/"@ + key + "/changelog"@,
        query: seq![
            ("startAt"@, text::signed_decimal(start)),
            ("maxResults"@, text::signed_decimal(MAX_CHANGES as int)),
        ],
    }
}

/// The request for the latest comments of an issue.
pub open spec fn comments_request(base_url: Seq<char>, key: Seq<char>) -> RequestView {
    RequestView {
        url: base_url + "/rest/api/3/issue/"@ + key + "/comment"@,
        query: seq![
            ("orderBy"@, "-created"@),
            ("maxResults"@, text::decimal(MAX_COMMENTS as nat)),
        ],
    }
}

/// The request for an issue with its changes.
pub fn ask_issue(base_url: &str, key: &str) -> (r: Request)
    ensures
        r.view() == issue_request(base_url@, key@),
{
    let r = Request::to(text::concat3(base_url, "/rest/api/3/issue/", key)).with(
        "expand",
        "changelog",
    ).with("fields", "summary");
    assert(r.view() =~= issue_request(base_url@, key@));
    r
}

/// The request for the changes of an issue from `start` on.
pub fn ask_changes(base_url: &str, key: &str, start: i64) -> (r: Request)
    ensures
        r.view() == changes_request(base_url@, key@, start as int),
{
    let mut url = text::concat3(base_url, "/rest/api/3/issue/", key);
    url.append("/changelog");
    let r = Request::to(url).with("startAt", text::signed_text(start).as_str()).with(
        "maxResults",
        text::signed_text(MAX_CHANGES).as_str(),
    );
    assert(r.view() =~= changes_request(base_url@, key@, start as int));
    r
}

/// The request for the latest comments of an issue.
pub fn ask_comments(base_url: &str, key: &str) -> (r: Request)
    ensures
        r.view() == comments_request(base_url@, key@),
{
    let mut url = text::concat3(base_url, "/rest/api/3/issue/", key);
    url.append("/comment");
    let r = Request::to(url).with("orderBy", "-created").with(
        "maxResults",
        text::decimal_text(MAX_COMMENTS).as_str(),
    );
    assert(r.view() =~= comments_request(base_url@, key@));
    r
}

/// Where the latest changes begin, if there are more than a reply holds.
pub open spec fn start_of_latest(total: Option<i64>) -> Option<int> {
    match total {
        Some(n) => if n > MAX_CHANGES {
            Some(n - MAX_CHANGES)
        } else {
            None
        },
        None => None,
    }
}

/// Where the latest changes begin, if the reply for an issue does not hold them:
/// it has the oldest ones.
pub open spec fn late_changes_start(reply: Seq<char>) -> Option<int> {
    start_of_latest(reply_value(reply).at("changelog"@).at("total"@).as_i64())
}

/// Where the latest changes begin, if there are more than a reply holds.
pub fn latest_start(total: Option<i64>) -> (r: Option<i64>)
    ensures
        r is Some <==> start_of_latest(total) is Some,
        r matches Some(n) ==> start_of_latest(total) == Some(n as int),
{
    match total {
        Some(n) => if n > MAX_CHANGES {
            Some(n - MAX_CHANGES)
        } else {
            None
        },
        None => None,
    }
}

/// Where the latest changes begin, if the reply for an issue does not hold them.
pub fn later_changes(reply: &str) -> (r: Option<i64>)
    ensures
        r is Some <==> late_changes_start(reply@) is Some,
        r matches Some(n) ==> late_changes_start(reply@) == Some(n as int),
{
    latest_start(read_reply(reply).at("changelog").i64_at("total"))
}

/// The document that came back, if anything did and it is JSON.
pub open spec fn came_back(reply: Option<Seq<char>>) -> Option<Seq<char>> {
    match reply {
        Some(body) => json::read_json(body),
        None => None,
    }
}

/// The changes of an issue: the latest ones if they were asked for and came,
/// else those of the first reply; none if that did not come.
pub open spec fn changes_of(first: Option<Seq<char>>, later: Option<Seq<char>>) -> Seq<Seq<char>> {
    let latest = items_of(part_of(came_back(later), "values"@));
    if first is Some && late_changes_start(first.unwrap()) is Some && latest is Some {
        latest.unwrap()
    } else {
        items_or_none(part_of(part_of(came_back(first), "changelog"@), "histories"@))
    }
}

/// The document that came back, if anything did and it is JSON.
fn reply_doc(reply: &Option<String>) -> (r: Option<Doc>)
    ensures
        json::opt_doc(r) == came_back(text::opt_text(*reply)),
{
    match reply {
        Some(body) => Doc::parse(body.as_str()),
        None => None,
    }
}

/// The changes of an issue, from the replies for it.
pub fn pick_changes(first: &Option<String>, later: &Option<String>) -> (r: Vec<Doc>)
    ensures
        json::doc_texts(r@) == changes_of(text::opt_text(*first), text::opt_text(*later)),
{
    if let Some(reply) = first {
        if later_changes(reply.as_str()).is_some() {
            if let Some(latest) = items(part(reply_doc(later), "values")) {
                return latest;
            }
        }
    }
    items_or_empty(part(part(reply_doc(first), "changelog"), "histories"))
}

/// The comments that came with an issue.
pub open spec fn inline_comments(issue: Seq<char>) -> Seq<Seq<char>> {
    items_or_none(
        part_of(part_of(json::member_of(issue, "fields"@), "comment"@), "comments"@),
    )
}

/// The key of an issue.
pub open spec fn key_of(issue: Seq<char>) -> Seq<char> {
    json::value_of(issue).at("key"@).text_or_empty()
}

/// Whether more comments are stated than came. A total below zero counts as
/// many.
pub open spec fn more_stated(total: Option<i64>, came: nat) -> bool {
    match total {
        Some(n) => n < 0 || n > came,
        None => false,
    }
}

/// Whether an issue has other comments than those that came with it.
pub open spec fn comments_missing(issue: Seq<char>) -> bool {
    key_of(issue).len() > 0 && more_stated(
        json::value_of(issue).at("fields"@).at("comment"@).at("total"@).as_i64(),
        inline_comments(issue).len(),
    )
}

/// Whether more comments are stated than came.
pub fn states_more(total: Option<i64>, came: usize) -> (b: bool)
    ensures
        b == more_stated(total, came as nat),
{
    match total {
        Some(n) => n < 0 || n as u64 > came as u64,
        None => false,
    }
}

/// The key of an issue.
pub fn issue_key(issue: &Doc) -> (r: String)
    ensures
        r@ == key_of(issue@),
{
    issue.json().text_or_empty_at("key")
}

/// The comments that came with an issue.
fn came_with(issue: &Doc) -> (r: Vec<Doc>)
    ensures
        json::doc_texts(r@) == inline_comments(issue@),
{
    let fields = issue.copy().into_member("fields");
    items_or_empty(part(part(fields, "comment"), "comments"))
}

/// Whether the comments of an issue have to be asked for.
pub fn needs_comments(issue: &Doc) -> (b: bool)
    ensures
        b == comments_missing(issue@),
{
    let inline = came_with(issue);
    assert(json::doc_texts(inline@).len() == inline.len());
    let value = issue.json();
    if value.text_or_empty_at("key").as_str().is_empty() {
        return false;
    }
    states_more(value.at("fields").at("comment").i64_at("total"), inline.len())
}

/// The comments of an issue: those that were asked for, if they had to be and
/// came, else those that came with it.
pub open spec fn comments_of(issue: Seq<char>, reply: Option<Seq<char>>) -> Seq<Seq<char>> {
    let asked = items_of(part_of(came_back(reply), "comments"@));
    if comments_missing(issue) && asked is Some {
        asked.unwrap()
    } else {
        inline_comments(issue)
    }
}

/// The comments of an issue, from the issue and the reply for its comments.
pub fn pick_comments(issue: &Doc, reply: &Option<String>) -> (r: Vec<Doc>)
    ensures
        json::doc_texts(r@) == comments_of(issue@, text::opt_text(*reply)),
{
    if needs_comments(issue) {
        if let Some(asked) = items(part(reply_doc(reply), "comments")) {
            return asked;
        }
    }
    came_with(issue)
}

} // verus!
