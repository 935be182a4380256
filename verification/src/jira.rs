//! Notifications from an issue tracker: what happened to an issue, told from
//! the JSON that the tracker reports.
//!
//! Categories:
//! - `created`: an issue of the watched project was created
//! - `status`: its status changed
//! - `assignee`: its assignee changed
//! - `assigned`: in any project, I became the assignee
//! - `field`: other fields changed
//! - `comment`: a comment on an issue of the watched project
//! - `mention`: in any project, a comment mentions me
//!
//! One entry of the change log makes at most one notification, `status` before
//! `assignee` before `field`. A comment that mentions me is no `comment`. What I
//! did myself is left out.

use vstd::prelude::*;

use crate::json;
use crate::json::Doc;
use crate::json::Json;
use crate::json::JsonView;
use crate::moment;
use crate::moment::Moment;
use crate::moment::MomentView;
use crate::text;
use crate::text::TextSet;

verus! {

/// How many characters of a comment a notification shows.
pub const SNIPPET_CHARS: usize = 80;

// ── Times and names: model ──────────────────────────────

/// Whether an instant is not before `since`. An unknown one counts.
pub open spec fn not_earlier(time: Option<MomentView>, since: int) -> bool {
    match time {
        Some(m) => m.secs >= since,
        None => true,
    }
}

/// Whether a time is not before `since`. One that cannot be read counts.
pub open spec fn at_or_after(time: Seq<char>, since: int) -> bool {
    not_earlier(moment::parsed_time(time), since)
}

/// An instant in the notation in which it is stored; an unknown one as it was
/// written.
pub open spec fn stored_time(time: Option<MomentView>, written: Seq<char>) -> Seq<char> {
    match time {
        Some(m) => moment::rfc3339_text(m),
        None => written,
    }
}

/// A time in the notation in which it is stored; left as it is if it cannot be
/// read.
pub open spec fn event_time(time: Seq<char>) -> Seq<char> {
    stored_time(moment::parsed_time(time), time)
}

/// Whether a time, once stored, reads back as the same time.
pub open spec fn reads_back(time: Seq<char>) -> bool {
    moment::parsed_time(event_time(time)) == moment::parsed_time(time)
}

/// The project of an issue key.
pub open spec fn project_key(issue_key: Seq<char>) -> Seq<char> {
    text::before_first(issue_key, '-')
}

/// The name under which a changed field is shown.
pub open spec fn field_name(field: Seq<char>) -> Seq<char> {
    if field == "priority"@ {
        "우선순위"@
    } else if field == "labels"@ {
        "라벨"@
    } else if field == "summary"@ {
        "제목"@
    } else if field == "description"@ {
        "설명"@
    } else if field == "duedate"@ {
        "기한"@
    } else if field == "resolution"@ {
        "해결"@
    } else if field == "fixVersion"@ {
        "수정버전"@
    } else if field == "Component"@ || field == "components"@ {
        "컴포넌트"@
    } else if field == "issuetype"@ {
        "유형"@
    } else if field == "Sprint"@ {
        "스프린트"@
    } else if field == "Epic Link"@ {
        "에픽"@
    } else if field == "reporter"@ {
        "보고자"@
    } else if field == "Rank"@ {
        "순위"@
    } else if field == "timeestimate"@ || field == "timeoriginalestimate"@ {
        "예상시간"@
    } else {
        field
    }
}

// ── Times and names ─────────────────────────────────────

/// Whether an instant is not before `since_ts`, a Unix time. An unknown one
/// counts.
pub fn time_counts(time: &Option<Moment>, since_ts: i64) -> (b: bool)
    ensures
        b == not_earlier(moment::opt_moment(*time), since_ts as int),
{
    match time {
        Some(t) => t.timestamp() >= since_ts,
        None => true,
    }
}

/// Whether a time is not before `since_ts`, a Unix time. One that cannot be
/// read counts, so that nothing is missed.
pub fn ge_since(time_str: &str, since_ts: i64) -> (b: bool)
    ensures
        b == at_or_after(time_str@, since_ts as int),
{
    time_counts(&moment::parse_time(time_str), since_ts)
}

/// A time in the notation in which it is stored. It reads back as the same time,
/// so that storing it again changes nothing.
pub fn norm_event_at(s: &str) -> (r: String)
    ensures
        r@ == event_time(s@),
        reads_back(s@),
        event_time(r@) == r@,
{
    time_to_store(&moment::parse_time(s), s)
}

/// An instant in the notation in which it is stored; an unknown one as it was
/// written.
pub fn time_to_store(time: &Option<Moment>, written: &str) -> (r: String)
    ensures
        r@ == stored_time(moment::opt_moment(*time), written@),
        moment::opt_moment(*time) matches Some(m) ==> moment::writable(m) ==> moment::parsed_time(
            r@,
        ) == Some(m),
{
    match time {
        Some(t) => t.to_rfc3339(),
        None => written.to_owned(),
    }
}

/// The project of an issue key: what stands before the first hyphen.
pub fn project_of(issue_key: &str) -> (r: String)
    ensures
        r@ == project_key(issue_key@),
{
    text::text_before(issue_key, '-')
}

/// The name under which a changed field is shown.
pub fn field_label(field: &str) -> (r: String)
    ensures
        r@ == field_name(field@),
{
    if field.eq("priority") {
        "우선순위".to_owned()
    } else if field.eq("labels") {
        "라벨".to_owned()
    } else if field.eq("summary") {
        "제목".to_owned()
    } else if field.eq("description") {
        "설명".to_owned()
    } else if field.eq("duedate") {
        "기한".to_owned()
    } else if field.eq("resolution") {
        "해결".to_owned()
    } else if field.eq("fixVersion") {
        "수정버전".to_owned()
    } else if field.eq("Component") || field.eq("components") {
        "컴포넌트".to_owned()
    } else if field.eq("issuetype") {
        "유형".to_owned()
    } else if field.eq("Sprint") {
        "스프린트".to_owned()
    } else if field.eq("Epic Link") {
        "에픽".to_owned()
    } else if field.eq("reporter") {
        "보고자".to_owned()
    } else if field.eq("Rank") {
        "순위".to_owned()
    } else if field.eq("timeestimate") || field.eq("timeoriginalestimate") {
        "예상시간".to_owned()
    } else {
        field.to_owned()
    }
}

// ── Document trees ──────────────────────────────────────

/// The text of a document node itself. A mention shows its name and a space.
pub open spec fn node_text(node: JsonView) -> Seq<char> {
    if node.at("type"@).as_text() == Some("mention"@) {
        match node.at("attrs"@).at("text"@).as_text() {
            Some(t) => t + seq![' '],
            None => Seq::empty(),
        }
    } else {
        node.at("text"@).text_or_empty()
    }
}

/// The text of a document tree: of its root, then of each part of its content.
pub open spec fn document_text(node: JsonView) -> Seq<char>
    decreases node,
{
    proof {
        json::lemma_elements_smaller(node, "content"@);
    }
    match node.at("content"@).as_array() {
        Some(items) => node_text(node) + content_text(items),
        None => node_text(node),
    }
}

/// The text of some document trees in a row.
pub open spec fn content_text(items: Seq<JsonView>) -> Seq<char>
    decreases items,
{
    if items.len() == 0 {
        Seq::empty()
    } else {
        content_text(items.drop_last()) + document_text(items.last())
    }
}

/// Appends the text of a document tree.
pub fn adf_text(node: &Json, out: &mut String)
    ensures
        final(out)@ == old(out)@ + document_text(node.view()),
    decreases node.view(),
{
    let is_mention = match node.text_at("type") {
        Some(t) => t.as_str().eq("mention"),
        None => false,
    };
    if is_mention {
        if let Some(t) = node.at("attrs").text_at("text") {
            out.append(t.as_str());
            out.push(' ');
        }
    } else {
        out.append(node.text_or_empty_at("text").as_str());
    }
    assert(out@ == old(out)@ + node_text(node.view()));
    proof {
        json::lemma_elements_smaller(node.view(), "content"@);
    }
    if let Some(content) = node.array_at("content") {
        let ghost items = json::values(content@);
        let ghost before = out@;
        let mut i: usize = 0;
        assert(out@ == before + content_text(items.take(0)));
        while i < content.len()
            invariant
                items == json::values(content@),
                decreases_to!(node.view() => items),
                i <= content.len(),
                out@ == before + content_text(items.take(i as int)),
            decreases content.len() - i,
        {
            assert(items.take(i + 1).drop_last() == items.take(i as int));
            assert(items.take(i + 1).last() == content@[i as int].view());
            assert(decreases_to!(items => items[i as int]));
            adf_text(&content[i], out);
            i += 1;
            assert(out@ == before + content_text(items.take(i as int)));
        }
        assert(items.take(i as int) == items);
    }
}

// ── Comments ────────────────────────────────────────────

/// A comment as the tracker reports it, and the text of its body.
pub struct CommentView {
    pub json: JsonView,
    pub body: Seq<char>,
}

/// A comment as the tracker reports it, and the text of its body.
pub struct Comment {
    pub json: Json,
    pub body: String,
}

impl Comment {
    pub open spec fn view(&self) -> CommentView {
        CommentView { json: self.json.view(), body: self.body@ }
    }

    /// The comment that a document reports.
    pub fn of(doc: &Doc) -> (r: Comment)
        ensures
            r.view() == comment_of(doc@),
    {
        let body = match doc.copy().into_member("body") {
            Some(b) => b.write(),
            None => "null".to_owned(),
        };
        Comment { json: doc.json(), body }
    }

    /// Reads a comment; one that is not JSON is null.
    pub fn read(text: &str) -> (r: Comment)
        ensures
            r.view() == comment_read(text@),
    {
        match Doc::parse(text) {
            Some(doc) => Comment::of(&doc),
            None => Comment { json: Json::Null, body: "null".to_owned() },
        }
    }
}

/// The comment that a document reports; without a body, the body is null. The
/// body is taken as it is written.
pub open spec fn comment_of(text: Seq<char>) -> CommentView {
    CommentView {
        json: json::value_of(text),
        body: match json::member_of(text, "body"@) {
            Some(s) => s,
            None => "null"@,
        },
    }
}

/// The comment that is read from a text.
pub open spec fn comment_read(text: Seq<char>) -> CommentView {
    match json::read_json(text) {
        Some(w) => comment_of(w),
        None => CommentView { json: JsonView::Null, body: "null"@ },
    }
}

/// The views of a list of comments.
pub open spec fn comment_views(comments: Seq<Comment>) -> Seq<CommentView> {
    Seq::new(comments.len(), |i: int| comments[i].view())
}

/// Whether the body of a comment mentions an account: its text names it.
pub open spec fn mentions(body: Seq<char>, my_id: Seq<char>) -> bool {
    my_id.len() > 0 && text::has_run(body, my_id)
}

/// Whether the body of a comment mentions me.
pub fn body_mentions_me(body: &str, my_id: &str) -> (b: bool)
    ensures
        b == mentions(body@, my_id@),
{
    !my_id.is_empty() && text::contains_text(body, my_id)
}

// ── Events ──────────────────────────────────────────────

/// What a notification is about.
#[derive(Debug, Clone, Copy, PartialEq, Eq, Structural)]
pub enum Category {
    Created,
    Status,
    Assignee,
    Assigned,
    Field,
    Comment,
    Mention,
}

impl Category {
    pub open spec fn text(self) -> Seq<char> {
        match self {
            Category::Created => "created"@,
            Category::Status => "status"@,
            Category::Assignee => "assignee"@,
            Category::Assigned => "assigned"@,
            Category::Field => "field"@,
            Category::Comment => "comment"@,
            Category::Mention => "mention"@,
        }
    }

    /// The name of the category.
    pub fn name(self) -> (r: &'static str)
        ensures
            r@ == self.text(),
    {
        match self {
            Category::Created => "created",
            Category::Status => "status",
            Category::Assignee => "assignee",
            Category::Assigned => "assigned",
            Category::Field => "field",
            Category::Comment => "comment",
            Category::Mention => "mention",
        }
    }
}

/// A notification.
#[verifier::ext_equal]
pub struct EventView {
    pub event_uid: Seq<char>,
    pub issue_key: Seq<char>,
    pub project_key: Seq<char>,
    pub category: Seq<char>,
    pub summary: Seq<char>,
    pub detail: Seq<char>,
    pub actor: Seq<char>,
    pub event_at: Seq<char>,
}

/// A notification.
#[derive(Debug, Clone, PartialEq)]
pub struct NotifEvent {
    pub event_uid: String,
    pub issue_key: String,
    pub project_key: String,
    pub category: String,
    pub summary: String,
    pub detail: String,
    pub actor: String,
    pub event_at: String,
}

impl NotifEvent {
    pub open spec fn view(&self) -> EventView {
        EventView {
            event_uid: self.event_uid@,
            issue_key: self.issue_key@,
            project_key: self.project_key@,
            category: self.category@,
            summary: self.summary@,
            detail: self.detail@,
            actor: self.actor@,
            event_at: self.event_at@,
        }
    }
}

/// The views of a list of notifications.
pub open spec fn event_views(events: Seq<NotifEvent>) -> Seq<EventView> {
    Seq::new(events.len(), |i: int| events[i].view())
}

/// An optional notification.
pub open spec fn opt_event(event: Option<NotifEvent>) -> Option<EventView> {
    match event {
        Some(e) => Some(e.view()),
        None => None,
    }
}

/// A list of the notification, if there is one.
pub open spec fn if_any(event: Option<EventView>) -> Seq<EventView> {
    match event {
        Some(e) => seq![e],
        None => Seq::empty(),
    }
}

// ── Classification: model ───────────────────────────────

/// What the notifications of one issue have in common.
pub struct IssueView {
    pub key: Seq<char>,
    pub summary: Seq<char>,
}

/// The key and summary of an issue.
pub open spec fn issue_of(issue: JsonView) -> IssueView {
    IssueView {
        key: issue.at("key"@).text_or_empty(),
        summary: issue.at("fields"@).at("summary"@).text_or_empty(),
    }
}

/// A notification about an issue. `mark` tells it from others about the same
/// issue.
pub open spec fn event_of(
    issue: IssueView,
    mark: Seq<char>,
    category: Category,
    detail: Seq<char>,
    actor: JsonView,
    time: Seq<char>,
) -> EventView {
    EventView {
        event_uid: issue.key + mark,
        issue_key: issue.key,
        project_key: project_key(issue.key),
        category: category.text(),
        summary: issue.summary,
        detail,
        actor: actor.at("displayName"@).text_or_empty(),
        event_at: event_time(time),
    }
}

/// The account of a person.
pub open spec fn account_of(person: JsonView) -> Seq<char> {
    person.at("accountId"@).text_or_empty()
}

/// When an issue, a change or a comment was made.
pub open spec fn created_of(v: JsonView) -> Seq<char> {
    v.at("created"@).text_or_empty()
}

/// Whether something was made since `since`, and not by me.
pub open spec fn is_news(time: Seq<char>, person: JsonView, since: int, my_id: Seq<char>) -> bool {
    time.len() > 0 && at_or_after(time, since) && account_of(person) != my_id
}

/// Whether an issue is assigned to me.
pub open spec fn is_mine(issue: JsonView, my_id: Seq<char>) -> bool {
    my_id.len() > 0 && issue.at("fields"@).at("assignee"@).at("accountId"@).as_text() == Some(
        my_id,
    )
}

/// The notification that an issue was created.
pub open spec fn created_event(
    issue: JsonView,
    since: int,
    my_id: Seq<char>,
    skip: bool,
) -> Option<EventView> {
    let fields = issue.at("fields"@);
    if !skip && is_news(created_of(fields), fields.at("creator"@), since, my_id) {
        Some(
            event_of(
                issue_of(issue),
                ":created"@,
                Category::Created,
                "이슈 생성"@,
                fields.at("creator"@),
                created_of(fields),
            ),
        )
    } else {
        None
    }
}

/// The first changed item of a field.
pub open spec fn change_in(items: Seq<JsonView>, field: Seq<char>) -> Option<JsonView>
    decreases items.len(),
{
    if items.len() == 0 {
        None
    } else if items[0].at("field"@).as_text() == Some(field) {
        Some(items[0])
    } else {
        change_in(items.drop_first(), field)
    }
}

/// The names of the fields of some changed items.
pub open spec fn changed_names(items: Seq<JsonView>) -> Seq<Seq<char>>
    decreases items.len(),
{
    if items.len() == 0 {
        Seq::empty()
    } else {
        match items.last().at("field"@).as_text() {
            Some(f) => changed_names(items.drop_last()).push(field_name(f)),
            None => changed_names(items.drop_last()),
        }
    }
}

/// A text member, or `missing` without it.
pub open spec fn text_or(v: JsonView, key: Seq<char>, missing: Seq<char>) -> Seq<char> {
    match v.at(key).as_text() {
        Some(s) => s,
        None => missing,
    }
}

/// What an item changed from and to.
pub open spec fn from_to(item: JsonView, missing: Seq<char>) -> Seq<char> {
    text_or(item, "fromString"@, missing) + " → "@ + text_or(item, "toString"@, missing)
}

/// Whether an item makes me the assignee.
pub open spec fn assigns_me(item: JsonView, my_id: Seq<char>) -> bool {
    my_id.len() > 0 && item.at("to"@).as_text() == Some(my_id)
}

/// The category and wording of a change.
pub open spec fn change_of(items: Seq<JsonView>, my_id: Seq<char>) -> (Category, Seq<char>) {
    match change_in(items, "status"@) {
        Some(item) => (Category::Status, from_to(item, "-"@)),
        None => match change_in(items, "assignee"@) {
            Some(item) => if assigns_me(item, my_id) {
                (Category::Assigned, "담당자로 지정됨: "@ + from_to(item, "없음"@))
            } else {
                (Category::Assignee, "담당자: "@ + from_to(item, "없음"@))
            },
            None => (Category::Field, "변경: "@ + text::joined(changed_names(items), ", "@)),
        },
    }
}

/// The mark of a change.
pub open spec fn change_mark(h: JsonView) -> Seq<char> {
    ":cl:"@ + h.at("id"@).text_or_empty()
}

/// The notification of a change. With `skip`, changes of the status and of
/// other fields are left out.
pub open spec fn history_event(
    issue: IssueView,
    h: JsonView,
    since: int,
    my_id: Seq<char>,
    skip: bool,
) -> Option<EventView> {
    match h.at("items"@).as_array() {
        Some(items) => {
            let (category, detail) = change_of(items, my_id);
            if items.len() == 0 || !is_news(created_of(h), h.at("author"@), since, my_id) || (skip
                && (category is Status || category is Field)) {
                None
            } else {
                Some(
                    event_of(
                        issue,
                        change_mark(h),
                        category,
                        detail,
                        h.at("author"@),
                        created_of(h),
                    ),
                )
            }
        },
        None => None,
    }
}

/// The notifications of some changes, in their order.
pub open spec fn history_events(
    issue: IssueView,
    histories: Seq<JsonView>,
    since: int,
    my_id: Seq<char>,
    skip: bool,
) -> Seq<EventView>
    decreases histories.len(),
{
    if histories.len() == 0 {
        Seq::empty()
    } else {
        history_events(issue, histories.drop_last(), since, my_id, skip) + if_any(
            history_event(issue, histories.last(), since, my_id, skip),
        )
    }
}

/// The notification that a change made me the assignee.
pub open spec fn assigned_event(
    issue: IssueView,
    h: JsonView,
    since: int,
    my_id: Seq<char>,
) -> Option<EventView> {
    match h.at("items"@).as_array() {
        Some(items) => match change_in(items, "assignee"@) {
            Some(item) => if is_news(created_of(h), h.at("author"@), since, my_id) && assigns_me(
                item,
                my_id,
            ) {
                Some(
                    event_of(
                        issue,
                        change_mark(h),
                        Category::Assigned,
                        "담당자로 지정됨: "@ + from_to(item, "없음"@),
                        h.at("author"@),
                        created_of(h),
                    ),
                )
            } else {
                None
            },
            None => None,
        },
        None => None,
    }
}

/// The notifications that some changes made me the assignee, in their order.
pub open spec fn assigned_events(
    issue: IssueView,
    histories: Seq<JsonView>,
    since: int,
    my_id: Seq<char>,
) -> Seq<EventView>
    decreases histories.len(),
{
    if histories.len() == 0 {
        Seq::empty()
    } else {
        assigned_events(issue, histories.drop_last(), since, my_id) + if_any(
            assigned_event(issue, histories.last(), since, my_id),
        )
    }
}

/// The beginning of the text of a comment.
pub open spec fn snippet(c: CommentView) -> Seq<char> {
    text::shortened(text::trimmed(document_text(c.json.at("body"@))), SNIPPET_CHARS as nat)
}

/// The notification of a comment. Outside the watched project only mentions
/// count.
pub open spec fn comment_event(
    issue: IssueView,
    c: CommentView,
    since: int,
    my_id: Seq<char>,
    watched: bool,
) -> Option<EventView> {
    let mentioned = mentions(c.body, my_id);
    if is_news(created_of(c.json), c.json.at("author"@), since, my_id) && (mentioned || watched) {
        Some(
            event_of(
                issue,
                ":cm:"@ + c.json.at("id"@).text_or_empty(),
                if mentioned {
                    Category::Mention
                } else {
                    Category::Comment
                },
                "댓글: "@ + snippet(c),
                c.json.at("author"@),
                created_of(c.json),
            ),
        )
    } else {
        None
    }
}

/// The notifications of some comments, in their order.
pub open spec fn comment_events(
    issue: IssueView,
    comments: Seq<CommentView>,
    since: int,
    my_id: Seq<char>,
    watched: bool,
) -> Seq<EventView>
    decreases comments.len(),
{
    if comments.len() == 0 {
        Seq::empty()
    } else {
        comment_events(issue, comments.drop_last(), since, my_id, watched) + if_any(
            comment_event(issue, comments.last(), since, my_id, watched),
        )
    }
}

/// The notifications about an issue of the watched project: its creation, then
/// its changes, then its comments. An issue without a key has none.
pub open spec fn app_events(
    issue: JsonView,
    histories: Seq<JsonView>,
    comments: Seq<CommentView>,
    since: int,
    my_id: Seq<char>,
    my_issues_only: bool,
) -> Seq<EventView> {
    let head = issue_of(issue);
    let skip = my_issues_only && !is_mine(issue, my_id);
    if head.key.len() == 0 {
        Seq::empty()
    } else {
        if_any(created_event(issue, since, my_id, skip)) + history_events(
            head,
            histories,
            since,
            my_id,
            skip,
        ) + comment_events(head, comments, since, my_id, true)
    }
}

/// The notifications about an issue of another project.
pub open spec fn mention_events(
    issue: JsonView,
    comments: Seq<CommentView>,
    since: int,
    my_id: Seq<char>,
) -> Seq<EventView> {
    if issue_of(issue).key.len() == 0 {
        Seq::empty()
    } else {
        comment_events(issue_of(issue), comments, since, my_id, false)
    }
}

/// The notifications that an issue was assigned to me.
pub open spec fn assignment_events(
    issue: JsonView,
    histories: Seq<JsonView>,
    since: int,
    my_id: Seq<char>,
) -> Seq<EventView> {
    if my_id.len() == 0 || issue_of(issue).key.len() == 0 {
        Seq::empty()
    } else {
        assigned_events(issue_of(issue), histories, since, my_id)
    }
}

/// The notifications that are stored with a time not before `since`, or with one
/// that cannot be read, in their order.
pub open spec fn since_events(events: Seq<EventView>, since: int) -> Seq<EventView>
    decreases events.len(),
{
    if events.len() == 0 {
        events
    } else if at_or_after(events.last().event_at, since) {
        since_events(events.drop_last(), since).push(events.last())
    } else {
        since_events(events.drop_last(), since)
    }
}

// ── Later limits ────────────────────────────────────────

/// Whether the times of the changes that make notifications read back.
spec fn histories_read_back(
    issue: IssueView,
    histories: Seq<JsonView>,
    since: int,
    my_id: Seq<char>,
    skip: bool,
) -> bool {
    forall|i: int|
        0 <= i < histories.len() && history_event(
            issue,
            #[trigger] histories[i],
            since,
            my_id,
            skip,
        ) is Some ==> reads_back(created_of(histories[i]))
}

/// Whether the times of the changes that made me the assignee read back.
spec fn assignments_read_back(
    issue: IssueView,
    histories: Seq<JsonView>,
    since: int,
    my_id: Seq<char>,
) -> bool {
    forall|i: int|
        0 <= i < histories.len() && assigned_event(
            issue,
            #[trigger] histories[i],
            since,
            my_id,
        ) is Some ==> reads_back(created_of(histories[i]))
}

/// Whether the times of the comments that make notifications read back.
spec fn comments_read_back(
    issue: IssueView,
    comments: Seq<CommentView>,
    since: int,
    my_id: Seq<char>,
    watched: bool,
) -> bool {
    forall|i: int|
        0 <= i < comments.len() && comment_event(
            issue,
            #[trigger] comments[i],
            since,
            my_id,
            watched,
        ) is Some ==> reads_back(created_of(comments[i].json))
}

proof fn lemma_since_append(a: Seq<EventView>, b: Seq<EventView>, since: int)
    ensures
        since_events(a + b, since) == since_events(a, since) + since_events(b, since),
    decreases b.len(),
{
    if b.len() == 0 {
        assert(a + b == a);
        assert(since_events(a, since) + since_events(b, since) == since_events(a, since));
    } else {
        lemma_since_append(a, b.drop_last(), since);
        assert((a + b).drop_last() == a + b.drop_last());
        assert(since_events(a + b, since) =~= since_events(a, since) + since_events(b, since));
    }
}

/// A later limit drops a single notification or leaves it as it is.
proof fn lemma_since_any(event: Option<EventView>, since: int)
    ensures
        since_events(if_any(event), since) == match event {
            Some(e) => if at_or_after(e.event_at, since) {
                seq![e]
            } else {
                Seq::empty()
            },
            None => Seq::<EventView>::empty(),
        },
{
    if let Some(e) = event {
        assert(seq![e].drop_last() == Seq::<EventView>::empty());
        reveal_with_fuel(since_events, 2);
        assert(since_events(seq![e], since) =~= if at_or_after(e.event_at, since) {
            seq![e]
        } else {
            Seq::empty()
        });
    }
}

proof fn lemma_later_histories(
    issue: IssueView,
    histories: Seq<JsonView>,
    since: int,
    later: int,
    my_id: Seq<char>,
    skip: bool,
)
    requires
        since <= later,
        histories_read_back(issue, histories, since, my_id, skip),
    ensures
        since_events(history_events(issue, histories, since, my_id, skip), later)
            == history_events(issue, histories, later, my_id, skip),
    decreases histories.len(),
{
    if histories.len() > 0 {
        let front = histories.drop_last();
        let h = histories.last();
        assert forall|i: int|
            0 <= i < front.len() && history_event(
                issue,
                #[trigger] front[i],
                since,
                my_id,
                skip,
            ) is Some implies reads_back(created_of(front[i])) by {
            assert(front[i] == histories[i]);
        }
        lemma_later_histories(issue, front, since, later, my_id, skip);
        assert(h == histories[histories.len() - 1]);
        let event = history_event(issue, h, since, my_id, skip);
        lemma_since_append(
            history_events(issue, front, since, my_id, skip),
            if_any(event),
            later,
        );
        lemma_since_any(event, later);
    }
}

proof fn lemma_later_assignments(
    issue: IssueView,
    histories: Seq<JsonView>,
    since: int,
    later: int,
    my_id: Seq<char>,
)
    requires
        since <= later,
        assignments_read_back(issue, histories, since, my_id),
    ensures
        since_events(assigned_events(issue, histories, since, my_id), later) == assigned_events(
            issue,
            histories,
            later,
            my_id,
        ),
    decreases histories.len(),
{
    if histories.len() > 0 {
        let front = histories.drop_last();
        let h = histories.last();
        assert forall|i: int|
            0 <= i < front.len() && assigned_event(
                issue,
                #[trigger] front[i],
                since,
                my_id,
            ) is Some implies reads_back(created_of(front[i])) by {
            assert(front[i] == histories[i]);
        }
        lemma_later_assignments(issue, front, since, later, my_id);
        assert(h == histories[histories.len() - 1]);
        let event = assigned_event(issue, h, since, my_id);
        lemma_since_append(assigned_events(issue, front, since, my_id), if_any(event), later);
        lemma_since_any(event, later);
    }
}

proof fn lemma_later_comments(
    issue: IssueView,
    comments: Seq<CommentView>,
    since: int,
    later: int,
    my_id: Seq<char>,
    watched: bool,
)
    requires
        since <= later,
        comments_read_back(issue, comments, since, my_id, watched),
    ensures
        since_events(comment_events(issue, comments, since, my_id, watched), later)
            == comment_events(issue, comments, later, my_id, watched),
    decreases comments.len(),
{
    if comments.len() > 0 {
        let front = comments.drop_last();
        let c = comments.last();
        assert forall|i: int|
            0 <= i < front.len() && comment_event(
                issue,
                #[trigger] front[i],
                since,
                my_id,
                watched,
            ) is Some implies reads_back(created_of(front[i].json)) by {
            assert(front[i] == comments[i]);
        }
        lemma_later_comments(issue, front, since, later, my_id, watched);
        assert(c == comments[comments.len() - 1]);
        let event = comment_event(issue, c, since, my_id, watched);
        lemma_since_append(
            comment_events(issue, front, since, my_id, watched),
            if_any(event),
            later,
        );
        lemma_since_any(event, later);
    }
}

proof fn lemma_later_app(
    issue: JsonView,
    histories: Seq<JsonView>,
    comments: Seq<CommentView>,
    since: int,
    later: int,
    my_id: Seq<char>,
    my_issues_only: bool,
)
    requires
        since <= later,
        ({
            let skip = my_issues_only && !is_mine(issue, my_id);
            &&& created_event(issue, since, my_id, skip) is Some ==> reads_back(
                created_of(issue.at("fields"@)),
            )
            &&& histories_read_back(issue_of(issue), histories, since, my_id, skip)
            &&& comments_read_back(issue_of(issue), comments, since, my_id, true)
        }),
    ensures
        since_events(app_events(issue, histories, comments, since, my_id, my_issues_only), later)
            == app_events(issue, histories, comments, later, my_id, my_issues_only),
{
    let head = issue_of(issue);
    let skip = my_issues_only && !is_mine(issue, my_id);
    let created = created_event(issue, since, my_id, skip);
    let changes = history_events(head, histories, since, my_id, skip);
    lemma_since_append(
        if_any(created) + changes,
        comment_events(head, comments, since, my_id, true),
        later,
    );
    lemma_since_append(if_any(created), changes, later);
    lemma_since_any(created, later);
    lemma_later_histories(head, histories, since, later, my_id, skip);
    lemma_later_comments(head, comments, since, later, my_id, true);
}

// ── Classification ──────────────────────────────────────

/// What the notifications of one issue have in common.
struct Issue {
    key: String,
    summary: String,
}

impl Issue {
    spec fn view(&self) -> IssueView {
        IssueView { key: self.key@, summary: self.summary@ }
    }
}

/// The key and summary of an issue.
fn read_issue(issue: &Json) -> (r: Issue)
    ensures
        r.view() == issue_of(issue.view()),
{
    Issue {
        key: issue.text_or_empty_at("key"),
        summary: issue.at("fields").text_or_empty_at("summary"),
    }
}

/// A notification about an issue.
fn make_event(
    issue: &Issue,
    mark: &str,
    category: Category,
    detail: String,
    actor: &Json,
    time: &str,
) -> (r: NotifEvent)
    ensures
        r.view() == event_of(issue.view(), mark@, category, detail@, actor.view(), time@),
        reads_back(time@),
{
    NotifEvent {
        event_uid: text::concat2(issue.key.as_str(), mark),
        issue_key: issue.key.clone(),
        project_key: project_of(issue.key.as_str()),
        category: category.name().to_owned(),
        summary: issue.summary.clone(),
        detail,
        actor: actor.text_or_empty_at("displayName"),
        event_at: norm_event_at(time),
    }
}

/// Whether something was made since `since_ts`, and not by me.
fn news(time: &str, person: &Json, since_ts: i64, my_id: &str) -> (b: bool)
    ensures
        b == is_news(time@, person.view(), since_ts as int, my_id@),
{
    !time.is_empty() && ge_since(time, since_ts) && !person.text_or_empty_at(
        "accountId",
    ).as_str().eq(my_id)
}

/// Whether an issue is assigned to me.
fn mine(issue: &Json, my_id: &str) -> (b: bool)
    ensures
        b == is_mine(issue.view(), my_id@),
{
    if my_id.is_empty() {
        return false;
    }
    match issue.at("fields").at("assignee").text_at("accountId") {
        Some(id) => id.as_str().eq(my_id),
        None => false,
    }
}

/// The notification that an issue was created.
fn classify_created(issue: &Json, head: &Issue, since_ts: i64, my_id: &str, skip: bool) -> (r:
    Option<NotifEvent>)
    requires
        head.view() == issue_of(issue.view()),
    ensures
        opt_event(r) == created_event(issue.view(), since_ts as int, my_id@, skip),
        r is Some ==> reads_back(created_of(issue.view().at("fields"@))),
{
    let fields = issue.at("fields");
    let created = fields.text_or_empty_at("created");
    let creator = fields.at("creator");
    if !skip && news(created.as_str(), creator, since_ts, my_id) {
        Some(
            make_event(
                head,
                ":created",
                Category::Created,
                "이슈 생성".to_owned(),
                creator,
                created.as_str(),
            ),
        )
    } else {
        None
    }
}

/// The first changed item of a field.
fn find_change<'a>(items: &'a Vec<Json>, field: &str) -> (r: Option<&'a Json>)
    ensures
        r is Some <==> change_in(json::values(items@), field@) is Some,
        r matches Some(item) ==> change_in(json::values(items@), field@) == Some(item.view()),
{
    let ghost all = json::values(items@);
    let mut i: usize = 0;
    assert(all.skip(0) == all);
    while i < items.len()
        invariant
            all == json::values(items@),
            i <= items.len(),
            change_in(all, field@) == change_in(all.skip(i as int), field@),
        decreases items.len() - i,
    {
        assert(all.skip(i as int).drop_first() == all.skip(i + 1));
        assert(all.skip(i as int)[0] == items@[i as int].view());
        if let Some(name) = items[i].text_at("field") {
            if name.as_str().eq(field) {
                return Some(&items[i]);
            }
        }
        i += 1;
    }
    None
}

/// The names of the fields of some changed items.
fn change_names(items: &Vec<Json>) -> (r: Vec<String>)
    ensures
        text::texts(r@) == changed_names(json::values(items@)),
{
    let ghost all = json::values(items@);
    let mut out: Vec<String> = Vec::new();
    let mut i: usize = 0;
    assert(text::texts(out@) == changed_names(all.take(0)));
    while i < items.len()
        invariant
            all == json::values(items@),
            i <= items.len(),
            text::texts(out@) == changed_names(all.take(i as int)),
        decreases items.len() - i,
    {
        let ghost before = text::texts(out@);
        assert(all.take(i + 1).drop_last() == all.take(i as int));
        assert(all.take(i + 1).last() == items@[i as int].view());
        if let Some(name) = items[i].text_at("field") {
            out.push(field_label(name.as_str()));
            assert(text::texts(out@) == before.push(field_name(name@)));
        }
        i += 1;
    }
    assert(all.take(i as int) == all);
    out
}

/// What an item changed from and to.
fn from_to_label(item: &Json, missing: &str) -> (r: String)
    ensures
        r@ == from_to(item.view(), missing@),
{
    let from = match item.text_at("fromString") {
        Some(s) => s,
        None => missing.to_owned(),
    };
    let to = match item.text_at("toString") {
        Some(s) => s,
        None => missing.to_owned(),
    };
    text::concat3(from.as_str(), " → ", to.as_str())
}

/// Whether an item makes me the assignee.
fn makes_me_assignee(item: &Json, my_id: &str) -> (b: bool)
    ensures
        b == assigns_me(item.view(), my_id@),
{
    if my_id.is_empty() {
        return false;
    }
    match item.text_at("to") {
        Some(id) => id.as_str().eq(my_id),
        None => false,
    }
}

/// The category and wording of a change.
pub fn classify_change(items: &Vec<Json>, my_id: &str) -> (r: (Category, String))
    ensures
        (r.0, r.1@) == change_of(json::values(items@), my_id@),
{
    if let Some(item) = find_change(items, "status") {
        return (Category::Status, from_to_label(item, "-"));
    }
    if let Some(item) = find_change(items, "assignee") {
        let change = from_to_label(item, "없음");
        return if makes_me_assignee(item, my_id) {
            (Category::Assigned, text::concat2("담당자로 지정됨: ", change.as_str()))
        } else {
            (Category::Assignee, text::concat2("담당자: ", change.as_str()))
        };
    }
    let names = change_names(items);
    let listed = text::join_texts(&names, ", ");
    (Category::Field, text::concat2("변경: ", listed.as_str()))
}

/// The mark of a change.
fn mark_of_change(h: &Json) -> (r: String)
    ensures
        r@ == change_mark(h.view()),
{
    text::concat2(":cl:", h.text_or_empty_at("id").as_str())
}

/// The notification of a change.
fn classify_history(issue: &Issue, h: &Json, since_ts: i64, my_id: &str, skip: bool) -> (r: Option<
    NotifEvent,
>)
    ensures
        opt_event(r) == history_event(issue.view(), h.view(), since_ts as int, my_id@, skip),
        r is Some ==> reads_back(created_of(h.view())),
{
    let created = h.text_or_empty_at("created");
    let author = h.at("author");
    if !news(created.as_str(), author, since_ts, my_id) {
        return None;
    }
    let items = match h.array_at("items") {
        Some(items) => items,
        None => {
            return None;
        },
    };
    if items.len() == 0 {
        return None;
    }
    let (category, detail) = classify_change(items, my_id);
    if skip && (category == Category::Status || category == Category::Field) {
        return None;
    }
    let mark = mark_of_change(h);
    Some(make_event(issue, mark.as_str(), category, detail, author, created.as_str()))
}

/// The notification that a change made me the assignee.
fn classify_assignment(issue: &Issue, h: &Json, since_ts: i64, my_id: &str) -> (r: Option<
    NotifEvent,
>)
    ensures
        opt_event(r) == assigned_event(issue.view(), h.view(), since_ts as int, my_id@),
        r is Some ==> reads_back(created_of(h.view())),
{
    let created = h.text_or_empty_at("created");
    let author = h.at("author");
    if !news(created.as_str(), author, since_ts, my_id) {
        return None;
    }
    let items = match h.array_at("items") {
        Some(items) => items,
        None => {
            return None;
        },
    };
    let item = match find_change(items, "assignee") {
        Some(item) => item,
        None => {
            return None;
        },
    };
    if !makes_me_assignee(item, my_id) {
        return None;
    }
    let mark = mark_of_change(h);
    let change = from_to_label(item, "없음");
    let detail = text::concat2("담당자로 지정됨: ", change.as_str());
    Some(make_event(issue, mark.as_str(), Category::Assigned, detail, author, created.as_str()))
}

/// The notification of a comment.
fn classify_comment(
    issue: &Issue,
    c: &Comment,
    since_ts: i64,
    my_id: &str,
    is_app_project: bool,
) -> (r: Option<NotifEvent>)
    ensures
        opt_event(r) == comment_event(
            issue.view(),
            c.view(),
            since_ts as int,
            my_id@,
            is_app_project,
        ),
        r is Some ==> reads_back(created_of(c.view().json)),
{
    let created = c.json.text_or_empty_at("created");
    let author = c.json.at("author");
    if !news(created.as_str(), author, since_ts, my_id) {
        return None;
    }
    let is_mention = body_mentions_me(c.body.as_str(), my_id);
    if !is_mention && !is_app_project {
        return None;
    }
    let mut shown = String::new();
    adf_text(c.json.at("body"), &mut shown);
    assert(shown@ == document_text(c.json.view().at("body"@)));
    let trimmed = text::trim_text(shown.as_str());
    let short = text::truncate_chars(trimmed.as_str(), SNIPPET_CHARS);
    let category = if is_mention {
        Category::Mention
    } else {
        Category::Comment
    };
    let mark = text::concat2(":cm:", c.json.text_or_empty_at("id").as_str());
    let detail = text::concat2("댓글: ", short.as_str());
    Some(make_event(issue, mark.as_str(), category, detail, author, created.as_str()))
}

/// Adds a notification, if there is one.
fn push_any(out: &mut Vec<NotifEvent>, event: Option<NotifEvent>)
    ensures
        event_views(final(out)@) == event_views(old(out)@) + if_any(opt_event(event)),
{
    if let Some(e) = event {
        out.push(e);
    }
    assert(event_views(out@) =~= event_views(old(out)@) + if_any(opt_event(event)));
}

/// The notifications of some comments. Outside the watched project only
/// mentions count.
fn classify_comments(
    issue: &Issue,
    comments: &Vec<Comment>,
    since_ts: i64,
    my_id: &str,
    is_app_project: bool,
    out: &mut Vec<NotifEvent>,
)
    ensures
        event_views(final(out)@) == event_views(old(out)@) + comment_events(
            issue.view(),
            comment_views(comments@),
            since_ts as int,
            my_id@,
            is_app_project,
        ),
        comments_read_back(
            issue.view(),
            comment_views(comments@),
            since_ts as int,
            my_id@,
            is_app_project,
        ),
{
    let ghost all = comment_views(comments@);
    let ghost before = event_views(out@);
    let mut i: usize = 0;
    while i < comments.len()
        invariant
            all == comment_views(comments@),
            i <= comments.len(),
            event_views(out@) == before + comment_events(
                issue.view(),
                all.take(i as int),
                since_ts as int,
                my_id@,
                is_app_project,
            ),
            forall|k: int|
                0 <= k < i && comment_event(
                    issue.view(),
                    #[trigger] all[k],
                    since_ts as int,
                    my_id@,
                    is_app_project,
                ) is Some ==> reads_back(created_of(all[k].json)),
        decreases comments.len() - i,
    {
        assert(all.take(i + 1).drop_last() == all.take(i as int));
        assert(all.take(i + 1).last() == comments@[i as int].view());
        push_any(out, classify_comment(issue, &comments[i], since_ts, my_id, is_app_project));
        i += 1;
        assert(event_views(out@) =~= before + comment_events(
            issue.view(),
            all.take(i as int),
            since_ts as int,
            my_id@,
            is_app_project,
        ));
    }
    assert(all.take(i as int) == all);
}

/// The notifications of some changes.
fn classify_histories(
    issue: &Issue,
    histories: &Vec<Json>,
    since_ts: i64,
    my_id: &str,
    skip: bool,
    out: &mut Vec<NotifEvent>,
)
    ensures
        event_views(final(out)@) == event_views(old(out)@) + history_events(
            issue.view(),
            json::values(histories@),
            since_ts as int,
            my_id@,
            skip,
        ),
        histories_read_back(
            issue.view(),
            json::values(histories@),
            since_ts as int,
            my_id@,
            skip,
        ),
{
    let ghost all = json::values(histories@);
    let ghost before = event_views(out@);
    let mut i: usize = 0;
    while i < histories.len()
        invariant
            all == json::values(histories@),
            i <= histories.len(),
            event_views(out@) == before + history_events(
                issue.view(),
                all.take(i as int),
                since_ts as int,
                my_id@,
                skip,
            ),
            forall|k: int|
                0 <= k < i && history_event(
                    issue.view(),
                    #[trigger] all[k],
                    since_ts as int,
                    my_id@,
                    skip,
                ) is Some ==> reads_back(created_of(all[k])),
        decreases histories.len() - i,
    {
        assert(all.take(i + 1).drop_last() == all.take(i as int));
        assert(all.take(i + 1).last() == histories@[i as int].view());
        push_any(out, classify_history(issue, &histories[i], since_ts, my_id, skip));
        i += 1;
        assert(event_views(out@) =~= before + history_events(
            issue.view(),
            all.take(i as int),
            since_ts as int,
            my_id@,
            skip,
        ));
    }
    assert(all.take(i as int) == all);
}

/// The notifications about an issue of the watched project.
///
/// `since_ts` is a Unix time; what happened before it is left out. With a later
/// one the result is the same but for the notifications whose stored time is too
/// early; one whose time cannot be read always stays. With
/// `my_issues_only`, the creation and the changes of the status and of other
/// fields count only for issues that are now assigned to me.
pub fn classify_app_issue(
    issue: &Json,
    histories: &Vec<Json>,
    comments: &Vec<Comment>,
    since_ts: i64,
    my_id: &str,
    my_issues_only: bool,
) -> (r: Vec<NotifEvent>)
    ensures
        event_views(r@) == app_events(
            issue.view(),
            json::values(histories@),
            comment_views(comments@),
            since_ts as int,
            my_id@,
            my_issues_only,
        ),
        forall|later: int|
            since_ts <= later ==> #[trigger] since_events(event_views(r@), later) == app_events(
                issue.view(),
                json::values(histories@),
                comment_views(comments@),
                later,
                my_id@,
                my_issues_only,
            ),
{
    let mut out: Vec<NotifEvent> = Vec::new();
    let head = read_issue(issue);
    if head.key.as_str().is_empty() {
        assert(event_views(out@) =~= Seq::empty());
        return out;
    }
    let skip = my_issues_only && !mine(issue, my_id);
    push_any(&mut out, classify_created(issue, &head, since_ts, my_id, skip));
    classify_histories(&head, histories, since_ts, my_id, skip, &mut out);
    classify_comments(&head, comments, since_ts, my_id, true, &mut out);
    assert(event_views(out@) =~= app_events(
        issue.view(),
        json::values(histories@),
        comment_views(comments@),
        since_ts as int,
        my_id@,
        my_issues_only,
    ));
    assert forall|later: int| since_ts <= later implies #[trigger] since_events(
        event_views(out@),
        later,
    ) == app_events(
        issue.view(),
        json::values(histories@),
        comment_views(comments@),
        later,
        my_id@,
        my_issues_only,
    ) by {
        lemma_later_app(
            issue.view(),
            json::values(histories@),
            comment_views(comments@),
            since_ts as int,
            later,
            my_id@,
            my_issues_only,
        );
    }
    out
}

/// The notifications about an issue of another project: the comments that
/// mention me.
pub fn classify_mention_issue(
    issue: &Json,
    comments: &Vec<Comment>,
    since_ts: i64,
    my_id: &str,
) -> (r: Vec<NotifEvent>)
    ensures
        event_views(r@) == mention_events(
            issue.view(),
            comment_views(comments@),
            since_ts as int,
            my_id@,
        ),
        forall|later: int|
            since_ts <= later ==> #[trigger] since_events(event_views(r@), later)
                == mention_events(issue.view(), comment_views(comments@), later, my_id@),
{
    let mut out: Vec<NotifEvent> = Vec::new();
    let head = read_issue(issue);
    if !head.key.as_str().is_empty() {
        classify_comments(&head, comments, since_ts, my_id, false, &mut out);
    }
    assert(event_views(out@) =~= mention_events(
        issue.view(),
        comment_views(comments@),
        since_ts as int,
        my_id@,
    ));
    assert forall|later: int| since_ts <= later implies #[trigger] since_events(
        event_views(out@),
        later,
    ) == mention_events(issue.view(), comment_views(comments@), later, my_id@) by {
        if head.view().key.len() > 0 {
            lemma_later_comments(
                head.view(),
                comment_views(comments@),
                since_ts as int,
                later,
                my_id@,
                false,
            );
        }
    }
    out
}

/// The notifications that an issue was assigned to me. They carry the marks of
/// the changes, as those of `classify_app_issue` do.
pub fn classify_assigned_issue(
    issue: &Json,
    histories: &Vec<Json>,
    since_ts: i64,
    my_id: &str,
) -> (r: Vec<NotifEvent>)
    ensures
        event_views(r@) == assignment_events(
            issue.view(),
            json::values(histories@),
            since_ts as int,
            my_id@,
        ),
        forall|later: int|
            since_ts <= later ==> #[trigger] since_events(event_views(r@), later)
                == assignment_events(issue.view(), json::values(histories@), later, my_id@),
{
    let mut out: Vec<NotifEvent> = Vec::new();
    assert(event_views(out@) =~= Seq::empty());
    if my_id.is_empty() {
        return out;
    }
    let head = read_issue(issue);
    if head.key.as_str().is_empty() {
        return out;
    }
    let ghost all = json::values(histories@);
    let mut i: usize = 0;
    while i < histories.len()
        invariant
            all == json::values(histories@),
            i <= histories.len(),
            event_views(out@) == assigned_events(
                head.view(),
                all.take(i as int),
                since_ts as int,
                my_id@,
            ),
            forall|k: int|
                0 <= k < i && assigned_event(
                    head.view(),
                    #[trigger] all[k],
                    since_ts as int,
                    my_id@,
                ) is Some ==> reads_back(created_of(all[k])),
        decreases histories.len() - i,
    {
        assert(all.take(i + 1).drop_last() == all.take(i as int));
        assert(all.take(i + 1).last() == histories@[i as int].view());
        push_any(&mut out, classify_assignment(&head, &histories[i], since_ts, my_id));
        i += 1;
    }
    assert(all.take(i as int) == all);
    assert forall|later: int| since_ts <= later implies #[trigger] since_events(
        event_views(out@),
        later,
    ) == assignment_events(issue.view(), json::values(histories@), later, my_id@) by {
        lemma_later_assignments(head.view(), all, since_ts as int, later, my_id@);
    }
    out
}

// ── Filter ──────────────────────────────────────────────

/// The notifications of the enabled categories, in their order.
pub open spec fn enabled_events(events: Seq<EventView>, categories: Set<Seq<char>>) -> Seq<
    EventView,
>
    decreases events.len(),
{
    if events.len() == 0 {
        events
    } else if categories.contains(events.last().category) {
        enabled_events(events.drop_last(), categories).push(events.last())
    } else {
        enabled_events(events.drop_last(), categories)
    }
}

/// The notifications that are kept: those of the enabled categories, or all if
/// none is named.
pub open spec fn kept_events(events: Seq<EventView>, categories: Set<Seq<char>>) -> Seq<EventView> {
    if categories == Set::<Seq<char>>::empty() {
        events
    } else {
        enabled_events(events, categories)
    }
}

/// Keeps the notifications of the enabled categories; without any, all.
pub fn filter_enabled(events: Vec<NotifEvent>, categories: &TextSet) -> (r: Vec<NotifEvent>)
    ensures
        event_views(r@) == kept_events(event_views(events@), categories@),
{
    if categories.is_empty() {
        return events;
    }
    let ghost all = event_views(events@);
    let mut out: Vec<NotifEvent> = Vec::new();
    assert(event_views(out@) =~= enabled_events(all.take(0), categories@));
    for e in it: events
        invariant
            all == event_views(it.seq()),
            event_views(out@) == enabled_events(all.take(it.index()), categories@),
    {
        let ghost before = event_views(out@);
        let ghost i = it.index();
        assert(all.take(i + 1).drop_last() == all.take(i));
        assert(all.take(i + 1).last() == e.view());
        if categories.has(e.category.as_str()) {
            out.push(e);
            assert(event_views(out@) =~= before.push(all[i]));
        }
    }
    assert(all.take(all.len() as int) == all);
    out
}

} // verus!
