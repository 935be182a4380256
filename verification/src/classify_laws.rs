//! Which notifications an issue makes, and what they say.

use vstd::prelude::*;

use crate::jira;
use crate::jira::Category;
use crate::jira::CommentView;
use crate::jira::EventView;
use crate::json::JsonView;
use crate::moment;
use crate::text;

verus! {

// ── What the tracker reports ────────────────────────────

/// The text that a member gives; empty without it.
pub open spec fn given(v: JsonView, key: Seq<char>) -> Seq<char> {
    match v.at(key) {
        JsonView::Text(s) => s,
        _ => Seq::empty(),
    }
}

/// Whether a time is given and not before `since`. One that cannot be read
/// counts.
pub open spec fn is_recent(time: Seq<char>, since: int) -> bool {
    time.len() > 0 && (moment::parsed_time(time) matches Some(m) ==> m.secs >= since)
}

/// Whether something was made since `since` by someone else.
pub open spec fn is_news(v: JsonView, person: JsonView, since: int, my_id: Seq<char>) -> bool {
    is_recent(given(v, "created"@), since) && given(person, "accountId"@) != my_id
}

/// Whether an item changes a field.
pub open spec fn changes(item: JsonView, field: Seq<char>) -> bool {
    item.at("field"@) == JsonView::Text(field)
}

/// Whether some item changes a field.
pub open spec fn some_changes(items: Seq<JsonView>, field: Seq<char>) -> bool {
    exists|k: int| 0 <= k < items.len() && changes(#[trigger] items[k], field)
}

/// Whether item `k` is the first that changes a field.
pub open spec fn first_changes(items: Seq<JsonView>, field: Seq<char>, k: int) -> bool {
    &&& 0 <= k < items.len()
    &&& changes(items[k], field)
    &&& forall|j: int| 0 <= j < k ==> !changes(#[trigger] items[j], field)
}

/// What an item changed from and to; `missing` stands for what is not given.
pub open spec fn change_text(item: JsonView, missing: Seq<char>) -> Seq<char> {
    let from = match item.at("fromString"@) {
        JsonView::Text(s) => s,
        _ => missing,
    };
    let to = match item.at("toString"@) {
        JsonView::Text(s) => s,
        _ => missing,
    };
    from + " → "@ + to
}

/// Whether an item names me as the new value.
pub open spec fn gives_me(item: JsonView, my_id: Seq<char>) -> bool {
    my_id.len() > 0 && item.at("to"@) == JsonView::Text(my_id)
}

/// Whether an issue is assigned to me.
pub open spec fn is_mine(issue: JsonView, my_id: Seq<char>) -> bool {
    my_id.len() > 0 && issue.at("fields"@).at("assignee"@).at("accountId"@) == JsonView::Text(my_id)
}

/// Whether a comment mentions me.
pub open spec fn mentions_me(c: CommentView, my_id: Seq<char>) -> bool {
    my_id.len() > 0 && text::has_run(c.body, my_id)
}

// ── What is reported of it ──────────────────────────────

/// Whether the creation of an issue is reported.
pub open spec fn creation_counts(
    issue: JsonView,
    since: int,
    my_id: Seq<char>,
    my_issues_only: bool,
) -> bool {
    &&& is_news(issue.at("fields"@), issue.at("fields"@).at("creator"@), since, my_id)
    &&& my_issues_only ==> is_mine(issue, my_id)
}

/// Whether a change is reported. Of the issues of others, with
/// `my_issues_only`, only changes of the assignee are.
pub open spec fn change_counts(
    issue: JsonView,
    h: JsonView,
    since: int,
    my_id: Seq<char>,
    my_issues_only: bool,
) -> bool {
    &&& is_news(h, h.at("author"@), since, my_id)
    &&& h.at("items"@) matches JsonView::Array(items)
        && items.len() > 0
        && (my_issues_only && !is_mine(issue, my_id) ==> !some_changes(items, "status"@)
            && some_changes(items, "assignee"@))
}

/// Whether a change is reported as my assignment.
pub open spec fn assignment_counts(h: JsonView, since: int, my_id: Seq<char>) -> bool {
    &&& is_news(h, h.at("author"@), since, my_id)
    &&& h.at("items"@) matches JsonView::Array(items) && exists|k: int| #[trigger]
        first_changes(items, "assignee"@, k) && gives_me(items[k], my_id)
}

/// Whether a comment is reported. Outside the watched project only mentions are.
pub open spec fn comment_counts(c: CommentView, since: int, my_id: Seq<char>, watched: bool) -> bool {
    is_news(c.json, c.json.at("author"@), since, my_id) && (watched || mentions_me(c, my_id))
}

/// Whether a notification is about an issue, by a person, at a time.
pub open spec fn is_about(
    e: EventView,
    issue: JsonView,
    mark: Seq<char>,
    person: JsonView,
    time: Seq<char>,
) -> bool {
    &&& e.event_uid == given(issue, "key"@) + mark
    &&& e.issue_key == given(issue, "key"@)
    &&& e.project_key == text::before_first(given(issue, "key"@), '-')
    &&& e.summary == given(issue.at("fields"@), "summary"@)
    &&& e.actor == given(person, "displayName"@)
    &&& e.event_at == match moment::parsed_time(time) {
        Some(m) => moment::rfc3339_text(m),
        None => time,
    }
}

/// Whether a notification tells of the creation of an issue.
pub open spec fn tells_creation(e: EventView, issue: JsonView) -> bool {
    &&& is_about(
        e,
        issue,
        ":created"@,
        issue.at("fields"@).at("creator"@),
        given(issue.at("fields"@), "created"@),
    )
    &&& e.category == "created"@
    &&& e.detail == "이슈 생성"@
}

/// Whether a category and a wording are those of some changed items: those of
/// the first change of the status if there is one; else those of the first
/// change of the assignee if there is one; else those of the changed fields.
pub open spec fn words_change(
    category: Seq<char>,
    detail: Seq<char>,
    items: Seq<JsonView>,
    my_id: Seq<char>,
) -> bool {
    &&& forall|k: int| #[trigger]
        first_changes(items, "status"@, k) ==> category == "status"@ && detail == change_text(
            items[k],
            "-"@,
        )
    &&& forall|k: int|
        !some_changes(items, "status"@) && #[trigger] first_changes(items, "assignee"@, k) ==> if gives_me(
            items[k],
            my_id,
        ) {
            category == "assigned"@ && detail == "담당자로 지정됨: "@ + change_text(
                items[k],
                "없음"@,
            )
        } else {
            category == "assignee"@ && detail == "담당자: "@ + change_text(items[k], "없음"@)
        }
    &&& !some_changes(items, "status"@) && !some_changes(items, "assignee"@) ==> category
        == "field"@ && detail == "변경: "@ + text::joined(jira::changed_names(items), ", "@)
}

/// Whether a notification tells of a change.
pub open spec fn tells_change(e: EventView, issue: JsonView, h: JsonView, my_id: Seq<char>) -> bool {
    &&& is_about(e, issue, ":cl:"@ + given(h, "id"@), h.at("author"@), given(h, "created"@))
    &&& h.at("items"@) matches JsonView::Array(items) && words_change(
        e.category,
        e.detail,
        items,
        my_id,
    )
}

/// Whether a notification tells that a change made me the assignee.
pub open spec fn tells_assignment(e: EventView, issue: JsonView, h: JsonView) -> bool {
    &&& is_about(e, issue, ":cl:"@ + given(h, "id"@), h.at("author"@), given(h, "created"@))
    &&& e.category == "assigned"@
    &&& h.at("items"@) matches JsonView::Array(items) && forall|k: int| #[trigger]
        first_changes(items, "assignee"@, k) ==> e.detail == "담당자로 지정됨: "@ + change_text(
            items[k],
            "없음"@,
        )
}

/// Whether a notification tells of a comment.
pub open spec fn tells_comment(
    e: EventView,
    issue: JsonView,
    c: CommentView,
    my_id: Seq<char>,
) -> bool {
    &&& is_about(
        e,
        issue,
        ":cm:"@ + given(c.json, "id"@),
        c.json.at("author"@),
        given(c.json, "created"@),
    )
    &&& e.category == if mentions_me(c, my_id) {
        "mention"@
    } else {
        "comment"@
    }
    &&& e.detail == "댓글: "@ + text::shortened(
        text::trimmed(jira::document_text(c.json.at("body"@))),
        80,
    )
}

// ── Changed items ───────────────────────────────────────

proof fn lemma_change_in(items: Seq<JsonView>, field: Seq<char>)
    ensures
        jira::change_in(items, field) is Some <==> some_changes(items, field),
        some_changes(items, field) ==> exists|k: int| #[trigger] first_changes(items, field, k),
        forall|k: int| #[trigger]
            first_changes(items, field, k) ==> some_changes(items, field) && jira::change_in(
                items,
                field,
            ) == Some(items[k]),
    decreases items.len(),
{
    if items.len() > 0 {
        let rest = items.drop_first();
        lemma_change_in(rest, field);
        if changes(items[0], field) {
            assert(first_changes(items, field, 0));
        } else {
            if some_changes(items, field) {
                let k = choose|k: int| 0 <= k < items.len() && changes(#[trigger] items[k], field);
                assert(changes(rest[k - 1], field));
                let j = choose|j: int| #[trigger] first_changes(rest, field, j);
                assert forall|i: int| 0 <= i < j + 1 implies !changes(#[trigger] items[i], field) by {
                    if i > 0 {
                        assert(items[i] == rest[i - 1]);
                    }
                }
                assert(items[j + 1] == rest[j]);
                assert(first_changes(items, field, j + 1));
            }
            if some_changes(rest, field) {
                let k = choose|k: int| 0 <= k < rest.len() && changes(#[trigger] rest[k], field);
                assert(changes(items[k + 1], field));
            }
            assert forall|k: int| #[trigger] first_changes(items, field, k) implies some_changes(
                items,
                field,
            ) && jira::change_in(items, field) == Some(items[k]) by {
                assert(items[k] == rest[k - 1]);
                assert forall|i: int| 0 <= i < k - 1 implies !changes(
                    #[trigger] rest[i],
                    field,
                ) by {
                    assert(rest[i] == items[i + 1]);
                }
                assert(first_changes(rest, field, k - 1));
            }
        }
    }
}

/// A change is worded by its first change of the status, whatever else changed
/// with it; else by its first change of the assignee; else by its fields.
pub proof fn law_change_wording(items: Seq<JsonView>, my_id: Seq<char>)
    ensures
        words_change(
            jira::change_of(items, my_id).0.text(),
            jira::change_of(items, my_id).1,
            items,
            my_id,
        ),
        jira::change_of(items, my_id).0 is Status <==> some_changes(items, "status"@),
        jira::change_of(items, my_id).0 is Field <==> !some_changes(items, "status"@)
            && !some_changes(items, "assignee"@),
{
    lemma_change_in(items, "status"@);
    lemma_change_in(items, "assignee"@);
}

/// The names of changed fields come in the order of the items, one for each item
/// that names its field.
pub proof fn law_changed_names(a: Seq<JsonView>, b: Seq<JsonView>, item: JsonView)
    ensures
        jira::changed_names(a + b) == jira::changed_names(a) + jira::changed_names(b),
        jira::changed_names(seq![item]) == match item.at("field"@) {
            JsonView::Text(f) => seq![jira::field_name(f)],
            _ => Seq::empty(),
        },
    decreases b.len(),
{
    assert(seq![item].drop_last() =~= Seq::<JsonView>::empty());
    reveal_with_fuel(jira::changed_names, 2);
    assert(jira::changed_names(seq![item]) =~= match item.at("field"@) {
        JsonView::Text(f) => seq![jira::field_name(f)],
        _ => Seq::empty(),
    });
    if b.len() == 0 {
        assert(a + b =~= a);
        assert(jira::changed_names(b) =~= Seq::empty());
        assert(jira::changed_names(a) + jira::changed_names(b) =~= jira::changed_names(a));
    } else {
        assert((a + b).drop_last() =~= a + b.drop_last());
        assert((a + b).last() == b.last());
        law_changed_names(a, b.drop_last(), item);
        assert(jira::changed_names(a + b) =~= jira::changed_names(a) + jira::changed_names(b));
    }
}

// ── Single notifications ────────────────────────────────

proof fn lemma_creation(issue: JsonView, since: int, my_id: Seq<char>, my_issues_only: bool)
    ensures
        ({
            let skip = my_issues_only && !jira::is_mine(issue, my_id);
            let e = jira::created_event(issue, since, my_id, skip);
            &&& e is Some <==> creation_counts(issue, since, my_id, my_issues_only)
            &&& e is Some ==> tells_creation(e.unwrap(), issue)
        }),
{
}

proof fn lemma_change(
    issue: JsonView,
    h: JsonView,
    since: int,
    my_id: Seq<char>,
    my_issues_only: bool,
)
    ensures
        ({
            let skip = my_issues_only && !jira::is_mine(issue, my_id);
            let e = jira::history_event(jira::issue_of(issue), h, since, my_id, skip);
            &&& e is Some <==> change_counts(issue, h, since, my_id, my_issues_only)
            &&& e is Some ==> tells_change(e.unwrap(), issue, h, my_id)
        }),
{
    if let JsonView::Array(items) = h.at("items"@) {
        law_change_wording(items, my_id);
    }
}

proof fn lemma_assignment(issue: JsonView, h: JsonView, since: int, my_id: Seq<char>)
    ensures
        ({
            let e = jira::assigned_event(jira::issue_of(issue), h, since, my_id);
            &&& e is Some <==> assignment_counts(h, since, my_id)
            &&& e is Some ==> tells_assignment(e.unwrap(), issue, h)
        }),
{
    if let JsonView::Array(items) = h.at("items"@) {
        lemma_change_in(items, "assignee"@);
    }
}

proof fn lemma_comment(
    issue: JsonView,
    c: CommentView,
    since: int,
    my_id: Seq<char>,
    watched: bool,
)
    ensures
        ({
            let e = jira::comment_event(jira::issue_of(issue), c, since, my_id, watched);
            &&& e is Some <==> comment_counts(c, since, my_id, watched)
            &&& e is Some ==> tells_comment(e.unwrap(), issue, c, my_id)
        }),
{
}

// ── Lists of notifications ──────────────────────────────

/// Whether a list of indices ascends.
pub open spec fn ascends(s: Seq<int>) -> bool {
    forall|a: int, b: int| 0 <= a < b < s.len() ==> s[a] < s[b]
}

pub proof fn lemma_push(s: Seq<int>, x: int)
    requires
        ascends(s),
        forall|k: int| 0 <= k < s.len() ==> s[k] < x,
    ensures
        ascends(s.push(x)),
        forall|v: int| #[trigger] s.push(x).contains(v) <==> s.contains(v) || v == x,
{
    assert forall|v: int| #[trigger] s.push(x).contains(v) <==> s.contains(v) || v == x by {
        if s.contains(v) {
            let k = choose|k: int| 0 <= k < s.len() && s[k] == v;
            assert(s.push(x)[k] == v);
        }
        assert(s.push(x)[s.len() as int] == x);
    }
}

proof fn lemma_changes(
    issue: JsonView,
    histories: Seq<JsonView>,
    since: int,
    my_id: Seq<char>,
    my_issues_only: bool,
    skip: bool,
) -> (who: Seq<int>)
    requires
        skip == (my_issues_only && !jira::is_mine(issue, my_id)),
    ensures
        ({
            let list = jira::history_events(jira::issue_of(issue), histories, since, my_id, skip);
            &&& who.len() == list.len()
            &&& ascends(who)
            &&& forall|i: int| #[trigger]
                who.contains(i) <==> 0 <= i < histories.len() && change_counts(
                    issue,
                    histories[i],
                    since,
                    my_id,
                    my_issues_only,
                )
            &&& forall|j: int|
                0 <= j < list.len() ==> tells_change(
                    #[trigger] list[j],
                    issue,
                    histories[who[j]],
                    my_id,
                )
        }),
    decreases histories.len(),
{
    if histories.len() == 0 {
        Seq::empty()
    } else {
        let front = histories.drop_last();
        let last = histories.len() - 1;
        let before = lemma_changes(issue, front, since, my_id, my_issues_only, skip);
        lemma_change(issue, histories.last(), since, my_id, my_issues_only);
        assert forall|k: int| 0 <= k < before.len() implies 0 <= #[trigger] before[k] < last
            && histories[before[k]] == front[before[k]] by {
            assert(before.contains(before[k]));
        }
        lemma_push(before, last);
        assert forall|i: int| 0 <= i < last implies front[i] == #[trigger] histories[i] by {}
        if change_counts(issue, histories.last(), since, my_id, my_issues_only) {
            before.push(last)
        } else {
            before
        }
    }
}

proof fn lemma_assignments(
    issue: JsonView,
    histories: Seq<JsonView>,
    since: int,
    my_id: Seq<char>,
) -> (who: Seq<int>)
    ensures
        ({
            let list = jira::assigned_events(jira::issue_of(issue), histories, since, my_id);
            &&& who.len() == list.len()
            &&& ascends(who)
            &&& forall|i: int| #[trigger]
                who.contains(i) <==> 0 <= i < histories.len() && assignment_counts(
                    histories[i],
                    since,
                    my_id,
                )
            &&& forall|j: int|
                0 <= j < list.len() ==> tells_assignment(
                    #[trigger] list[j],
                    issue,
                    histories[who[j]],
                )
        }),
    decreases histories.len(),
{
    if histories.len() == 0 {
        Seq::empty()
    } else {
        let front = histories.drop_last();
        let last = histories.len() - 1;
        let before = lemma_assignments(issue, front, since, my_id);
        lemma_assignment(issue, histories.last(), since, my_id);
        assert forall|k: int| 0 <= k < before.len() implies 0 <= #[trigger] before[k] < last
            && histories[before[k]] == front[before[k]] by {
            assert(before.contains(before[k]));
        }
        lemma_push(before, last);
        assert forall|i: int| 0 <= i < last implies front[i] == #[trigger] histories[i] by {}
        if assignment_counts(histories.last(), since, my_id) {
            before.push(last)
        } else {
            before
        }
    }
}

proof fn lemma_comments(
    issue: JsonView,
    comments: Seq<CommentView>,
    since: int,
    my_id: Seq<char>,
    watched: bool,
) -> (who: Seq<int>)
    ensures
        ({
            let list = jira::comment_events(jira::issue_of(issue), comments, since, my_id, watched);
            &&& who.len() == list.len()
            &&& ascends(who)
            &&& forall|i: int| #[trigger]
                who.contains(i) <==> 0 <= i < comments.len() && comment_counts(
                    comments[i],
                    since,
                    my_id,
                    watched,
                )
            &&& forall|j: int|
                0 <= j < list.len() ==> tells_comment(
                    #[trigger] list[j],
                    issue,
                    comments[who[j]],
                    my_id,
                )
        }),
    decreases comments.len(),
{
    if comments.len() == 0 {
        Seq::empty()
    } else {
        let front = comments.drop_last();
        let last = comments.len() - 1;
        let before = lemma_comments(issue, front, since, my_id, watched);
        lemma_comment(issue, comments.last(), since, my_id, watched);
        assert forall|k: int| 0 <= k < before.len() implies 0 <= #[trigger] before[k] < last
            && comments[before[k]] == front[before[k]] by {
            assert(before.contains(before[k]));
        }
        lemma_push(before, last);
        assert forall|i: int| 0 <= i < last implies front[i] == #[trigger] comments[i] by {}
        if comment_counts(comments.last(), since, my_id, watched) {
            before.push(last)
        } else {
            before
        }
    }
}

/// An issue of the watched project makes one notification of its creation if
/// that counts, then one of each change that counts, then one of each comment
/// that counts, each in their order, and no others. The indices of those changes
/// and comments are given.
pub proof fn law_watched_issue(
    issue: JsonView,
    histories: Seq<JsonView>,
    comments: Seq<CommentView>,
    since: int,
    my_id: Seq<char>,
    my_issues_only: bool,
) -> (who: (Seq<int>, Seq<int>))
    requires
        given(issue, "key"@).len() > 0,
    ensures
        ({
            let list = jira::app_events(issue, histories, comments, since, my_id, my_issues_only);
            let first: int = if creation_counts(issue, since, my_id, my_issues_only) {
                1
            } else {
                0
            };
            let mid = first + who.0.len();
            &&& list.len() == mid + who.1.len()
            &&& first == 1 ==> tells_creation(list[0], issue)
            &&& ascends(who.0)
            &&& forall|i: int| #[trigger]
                who.0.contains(i) <==> 0 <= i < histories.len() && change_counts(
                    issue,
                    histories[i],
                    since,
                    my_id,
                    my_issues_only,
                )
            &&& forall|j: int|
                first <= j < mid ==> tells_change(
                    #[trigger] list[j],
                    issue,
                    histories[who.0[j - first]],
                    my_id,
                )
            &&& ascends(who.1)
            &&& forall|i: int| #[trigger]
                who.1.contains(i) <==> 0 <= i < comments.len() && comment_counts(
                    comments[i],
                    since,
                    my_id,
                    true,
                )
            &&& forall|j: int|
                mid <= j < list.len() ==> tells_comment(
                    #[trigger] list[j],
                    issue,
                    comments[who.1[j - mid]],
                    my_id,
                )
        }),
{
    lemma_creation(issue, since, my_id, my_issues_only);
    let skip = my_issues_only && !jira::is_mine(issue, my_id);
    let head = jira::issue_of(issue);
    let a = lemma_changes(issue, histories, since, my_id, my_issues_only, skip);
    let b = lemma_comments(issue, comments, since, my_id, true);
    let list = jira::app_events(issue, histories, comments, since, my_id, my_issues_only);
    let made = jira::if_any(jira::created_event(issue, since, my_id, skip));
    let changed = jira::history_events(head, histories, since, my_id, skip);
    let said = jira::comment_events(head, comments, since, my_id, true);
    assert(list == made + changed + said);
    let first = made.len() as int;
    let mid = first + a.len();
    assert forall|j: int| first <= j < mid implies tells_change(
        #[trigger] list[j],
        issue,
        histories[a[j - first]],
        my_id,
    ) by {
        assert(list[j] == changed[j - first]);
    }
    assert forall|j: int| mid <= j < list.len() implies tells_comment(
        #[trigger] list[j],
        issue,
        comments[b[j - mid]],
        my_id,
    ) by {
        assert(list[j] == said[j - mid]);
    }
    (a, b)
}

/// An issue without a key makes no notification.
pub proof fn law_no_key(
    issue: JsonView,
    histories: Seq<JsonView>,
    comments: Seq<CommentView>,
    since: int,
    my_id: Seq<char>,
    my_issues_only: bool,
)
    requires
        given(issue, "key"@).len() == 0,
    ensures
        jira::app_events(issue, histories, comments, since, my_id, my_issues_only).len() == 0,
        jira::mention_events(issue, comments, since, my_id).len() == 0,
        jira::assignment_events(issue, histories, since, my_id).len() == 0,
{
}

/// An issue of another project makes one notification of each comment that
/// mentions me, in their order, and no others. The indices of those comments are
/// given.
pub proof fn law_mentioning_issue(
    issue: JsonView,
    comments: Seq<CommentView>,
    since: int,
    my_id: Seq<char>,
) -> (who: Seq<int>)
    requires
        given(issue, "key"@).len() > 0,
    ensures
        ({
            let list = jira::mention_events(issue, comments, since, my_id);
            &&& who.len() == list.len()
            &&& ascends(who)
            &&& forall|i: int| #[trigger]
                who.contains(i) <==> 0 <= i < comments.len() && comment_counts(
                    comments[i],
                    since,
                    my_id,
                    false,
                )
            &&& forall|j: int|
                0 <= j < list.len() ==> tells_comment(
                    #[trigger] list[j],
                    issue,
                    comments[who[j]],
                    my_id,
                )
        }),
{
    lemma_comments(issue, comments, since, my_id, false)
}

/// An issue makes one notification of each change whose first change of the
/// assignee made it mine, whatever else changed with it, in their order, and no
/// others. The indices of those changes are given.
pub proof fn law_assigned_issue(
    issue: JsonView,
    histories: Seq<JsonView>,
    since: int,
    my_id: Seq<char>,
) -> (who: Seq<int>)
    requires
        given(issue, "key"@).len() > 0,
    ensures
        ({
            let list = jira::assignment_events(issue, histories, since, my_id);
            &&& who.len() == list.len()
            &&& ascends(who)
            &&& forall|i: int| #[trigger]
                who.contains(i) <==> 0 <= i < histories.len() && assignment_counts(
                    histories[i],
                    since,
                    my_id,
                )
            &&& forall|j: int|
                0 <= j < list.len() ==> tells_assignment(
                    #[trigger] list[j],
                    issue,
                    histories[who[j]],
                )
        }),
{
    if my_id.len() == 0 {
        Seq::empty()
    } else {
        lemma_assignments(issue, histories, since, my_id)
    }
}

// ── Texts of comments ───────────────────────────────────

/// The text of a document is that of its root, then that of each part of its
/// content, in their order. A mention shows its name and a space, any other node
/// its text.
pub proof fn law_document(node: JsonView, a: Seq<JsonView>, b: Seq<JsonView>, part: JsonView)
    ensures
        jira::document_text(node) == ({
            let own = if node.at("type"@) == JsonView::Text("mention"@) {
                match node.at("attrs"@).at("text"@) {
                    JsonView::Text(t) => t.push(' '),
                    _ => Seq::empty(),
                }
            } else {
                given(node, "text"@)
            };
            match node.at("content"@) {
                JsonView::Array(items) => own + jira::content_text(items),
                _ => own,
            }
        }),
        jira::content_text(a + b) == jira::content_text(a) + jira::content_text(b),
        jira::content_text(seq![part]) == jira::document_text(part),
    decreases b.len(),
{
    if let JsonView::Text(t) = node.at("attrs"@).at("text"@) {
        assert(t + seq![' '] =~= t.push(' '));
    }
    assert(seq![part].drop_last() =~= Seq::<JsonView>::empty());
    assert(seq![part].last() == part);
    reveal_with_fuel(jira::content_text, 2);
    assert(jira::content_text(Seq::<JsonView>::empty()) =~= Seq::<char>::empty());
    assert(jira::content_text(seq![part]) =~= jira::document_text(part));
    if b.len() == 0 {
        assert(a + b =~= a);
        assert(jira::content_text(a + b) =~= jira::content_text(a) + jira::content_text(b));
    } else {
        assert((a + b).drop_last() =~= a + b.drop_last());
        assert((a + b).last() == b.last());
        law_document(node, a, b.drop_last(), part);
        assert(jira::content_text(a + b) =~= jira::content_text(a) + jira::content_text(b));
    }
}

// ── Filter ──────────────────────────────────────────────

/// With enabled categories named, the filter keeps each notification of one of
/// them, in their order, and no others. Their indices are given.
pub proof fn law_filter(events: Seq<EventView>, categories: Set<Seq<char>>) -> (who: Seq<int>)
    requires
        categories != Set::<Seq<char>>::empty(),
    ensures
        who.len() == jira::kept_events(events, categories).len(),
        ascends(who),
        forall|i: int| #[trigger]
            who.contains(i) <==> 0 <= i < events.len() && categories.contains(events[i].category),
        forall|j: int|
            0 <= j < who.len() ==> #[trigger] jira::kept_events(events, categories)[j]
                == events[who[j]],
    decreases events.len(),
{
    if events.len() == 0 {
        Seq::empty()
    } else {
        let front = events.drop_last();
        let last = events.len() - 1;
        let before = law_filter(front, categories);
        assert forall|k: int| 0 <= k < before.len() implies 0 <= #[trigger] before[k] < last
            && events[before[k]] == front[before[k]] by {
            assert(before.contains(before[k]));
        }
        lemma_push(before, last);
        assert forall|i: int| 0 <= i < last implies front[i] == #[trigger] events[i] by {}
        let kept = jira::kept_events(events, categories);
        let kept_before = jira::kept_events(front, categories);
        assert forall|j: int| 0 <= j < before.len() implies #[trigger] kept[j]
            == events[before[j]] by {
            assert(kept[j] == kept_before[j]);
        }
        if categories.contains(events.last().category) {
            before.push(last)
        } else {
            before
        }
    }
}

} // verus!
