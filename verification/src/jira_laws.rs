//! What holds of all notifications from the issue tracker.

use vstd::prelude::*;

use crate::jira;
use crate::jira::Category;
use crate::jira::CommentView;
use crate::jira::EventView;
use crate::jira::IssueView;
use crate::json::JsonView;
use crate::text;

verus! {

/// The names of the categories differ.
proof fn lemma_category_names(a: Category, b: Category)
    ensures
        a.text() == b.text() <==> a == b,
{
    reveal_strlit("created");
    reveal_strlit("status");
    reveal_strlit("assignee");
    reveal_strlit("assigned");
    reveal_strlit("field");
    reveal_strlit("comment");
    reveal_strlit("mention");
    assert("created"@.len() == 7 && "comment"@.len() == 7 && "mention"@.len() == 7);
    assert("status"@.len() == 6 && "field"@.len() == 5);
    assert("assignee"@.len() == 8 && "assigned"@.len() == 8);
    assert("created"@[1] == 'r' && "comment"@[1] == 'o' && "mention"@[1] == 'e');
    assert("assignee"@[7] == 'e' && "assigned"@[7] == 'd');
}

/// What I did myself makes no notification.
pub proof fn law_self_excluded(
    issue: JsonView,
    histories: Seq<JsonView>,
    comments: Seq<CommentView>,
    since: int,
    my_id: Seq<char>,
    my_issues_only: bool,
)
    requires
        jira::account_of(issue.at("fields"@).at("creator"@)) == my_id,
        forall|i: int|
            0 <= i < histories.len() ==> jira::account_of(
                (#[trigger] histories[i]).at("author"@),
            ) == my_id,
        forall|i: int|
            0 <= i < comments.len() ==> jira::account_of(
                (#[trigger] comments[i]).json.at("author"@),
            ) == my_id,
    ensures
        jira::app_events(issue, histories, comments, since, my_id, my_issues_only) == Seq::<
            EventView,
        >::empty(),
        jira::mention_events(issue, comments, since, my_id) == Seq::<EventView>::empty(),
        jira::assignment_events(issue, histories, since, my_id) == Seq::<EventView>::empty(),
{
    let head = jira::issue_of(issue);
    let skip = my_issues_only && !jira::is_mine(issue, my_id);
    lemma_own_histories(head, histories, since, my_id, skip);
    lemma_own_comments(head, comments, since, my_id, true);
    lemma_own_comments(head, comments, since, my_id, false);
    assert(jira::app_events(issue, histories, comments, since, my_id, my_issues_only) =~= Seq::<
        EventView,
    >::empty());
}

proof fn lemma_own_histories(
    issue: IssueView,
    histories: Seq<JsonView>,
    since: int,
    my_id: Seq<char>,
    skip: bool,
)
    requires
        forall|i: int|
            0 <= i < histories.len() ==> jira::account_of(
                (#[trigger] histories[i]).at("author"@),
            ) == my_id,
    ensures
        jira::history_events(issue, histories, since, my_id, skip) == Seq::<EventView>::empty(),
        jira::assigned_events(issue, histories, since, my_id) == Seq::<EventView>::empty(),
    decreases histories.len(),
{
    if histories.len() > 0 {
        let front = histories.drop_last();
        assert forall|i: int| 0 <= i < front.len() implies jira::account_of(
            (#[trigger] front[i]).at("author"@),
        ) == my_id by {
            assert(front[i] == histories[i]);
        }
        lemma_own_histories(issue, front, since, my_id, skip);
        assert(histories.last() == histories[histories.len() - 1]);
        assert(jira::history_event(issue, histories.last(), since, my_id, skip) is None);
        assert(jira::assigned_event(issue, histories.last(), since, my_id) is None);
    }
}

proof fn lemma_own_comments(
    issue: IssueView,
    comments: Seq<CommentView>,
    since: int,
    my_id: Seq<char>,
    watched: bool,
)
    requires
        forall|i: int|
            0 <= i < comments.len() ==> jira::account_of(
                (#[trigger] comments[i]).json.at("author"@),
            ) == my_id,
    ensures
        jira::comment_events(issue, comments, since, my_id, watched) == Seq::<EventView>::empty(),
    decreases comments.len(),
{
    if comments.len() > 0 {
        let front = comments.drop_last();
        assert forall|i: int| 0 <= i < front.len() implies jira::account_of(
            (#[trigger] front[i]).json.at("author"@),
        ) == my_id by {
            assert(front[i] == comments[i]);
        }
        lemma_own_comments(issue, front, since, my_id, watched);
        assert(comments.last() == comments[comments.len() - 1]);
        assert(jira::comment_event(issue, comments.last(), since, my_id, watched) is None);
    }
}

/// An issue makes at most one notification for its creation, for each of its
/// changes and for each of its comments.
pub proof fn law_one_event_each(
    issue: JsonView,
    histories: Seq<JsonView>,
    comments: Seq<CommentView>,
    since: int,
    my_id: Seq<char>,
    my_issues_only: bool,
)
    ensures
        jira::app_events(issue, histories, comments, since, my_id, my_issues_only).len() <= 1
            + histories.len() + comments.len(),
        jira::mention_events(issue, comments, since, my_id).len() <= comments.len(),
        jira::assignment_events(issue, histories, since, my_id).len() <= histories.len(),
{
    let head = jira::issue_of(issue);
    let skip = my_issues_only && !jira::is_mine(issue, my_id);
    lemma_history_count(head, histories, since, my_id, skip);
    lemma_comment_count(head, comments, since, my_id, true);
    lemma_comment_count(head, comments, since, my_id, false);
}

proof fn lemma_history_count(
    issue: IssueView,
    histories: Seq<JsonView>,
    since: int,
    my_id: Seq<char>,
    skip: bool,
)
    ensures
        jira::history_events(issue, histories, since, my_id, skip).len() <= histories.len(),
        jira::assigned_events(issue, histories, since, my_id).len() <= histories.len(),
    decreases histories.len(),
{
    if histories.len() > 0 {
        lemma_history_count(issue, histories.drop_last(), since, my_id, skip);
    }
}

proof fn lemma_comment_count(
    issue: IssueView,
    comments: Seq<CommentView>,
    since: int,
    my_id: Seq<char>,
    watched: bool,
)
    ensures
        jira::comment_events(issue, comments, since, my_id, watched).len() <= comments.len(),
    decreases comments.len(),
{
    if comments.len() > 0 {
        lemma_comment_count(issue, comments.drop_last(), since, my_id, watched);
    }
}

/// A comment that mentions me is a `mention`, any other a `comment`; outside
/// the watched project there are only mentions.
pub proof fn law_mention_or_comment(
    issue: IssueView,
    c: CommentView,
    since: int,
    my_id: Seq<char>,
    watched: bool,
)
    requires
        jira::comment_event(issue, c, since, my_id, watched) is Some,
    ensures
        ({
            let category = jira::comment_event(issue, c, since, my_id, watched).unwrap().category;
            &&& category == "mention"@ <==> jira::mentions(c.body, my_id)
            &&& category == "comment"@ <==> !jira::mentions(c.body, my_id)
            &&& !watched ==> category == "mention"@
        }),
{
    lemma_category_names(Category::Mention, Category::Comment);
}

/// The change that made me the assignee makes the same notification in both
/// scans, unless the status changed with it; and then still one with the same
/// identity.
pub proof fn law_scans_agree(
    issue: IssueView,
    h: JsonView,
    items: Seq<JsonView>,
    since: int,
    my_id: Seq<char>,
    skip: bool,
)
    requires
        jira::assigned_event(issue, h, since, my_id) is Some,
        h.at("items"@).as_array() == Some(items),
    ensures
        jira::change_in(items, "status"@) is None ==> jira::history_event(
            issue,
            h,
            since,
            my_id,
            skip,
        ) == jira::assigned_event(issue, h, since, my_id),
        jira::history_event(issue, h, since, my_id, skip) matches Some(e) ==> e.event_uid
            == jira::assigned_event(issue, h, since, my_id).unwrap().event_uid,
{
}

/// A change that is found in two polls makes the same notification twice; so
/// does a comment and the creation.
pub proof fn law_overlap_is_harmless(
    issue: JsonView,
    h: JsonView,
    c: CommentView,
    since1: int,
    since2: int,
    my_id: Seq<char>,
    skip: bool,
    watched: bool,
)
    ensures
        ({
            let a = jira::history_event(jira::issue_of(issue), h, since1, my_id, skip);
            let b = jira::history_event(jira::issue_of(issue), h, since2, my_id, skip);
            a is Some && b is Some ==> a == b
        }),
        ({
            let a = jira::comment_event(jira::issue_of(issue), c, since1, my_id, watched);
            let b = jira::comment_event(jira::issue_of(issue), c, since2, my_id, watched);
            a is Some && b is Some ==> a == b
        }),
        ({
            let a = jira::created_event(issue, since1, my_id, skip);
            let b = jira::created_event(issue, since2, my_id, skip);
            a is Some && b is Some ==> a == b
        }),
{
}

/// The creation, a change and a comment of one issue never share an identity.
pub proof fn law_identities_differ(
    issue: JsonView,
    h: JsonView,
    c: CommentView,
    since: int,
    my_id: Seq<char>,
    skip: bool,
    watched: bool,
)
    ensures
        ({
            let created = jira::created_event(issue, since, my_id, skip);
            let change = jira::history_event(jira::issue_of(issue), h, since, my_id, skip);
            let comment = jira::comment_event(jira::issue_of(issue), c, since, my_id, watched);
            &&& created is Some && change is Some ==> created.unwrap().event_uid
                != change.unwrap().event_uid
            &&& created is Some && comment is Some ==> created.unwrap().event_uid
                != comment.unwrap().event_uid
            &&& change is Some && comment is Some ==> change.unwrap().event_uid
                != comment.unwrap().event_uid
        }),
{
    let key = jira::issue_of(issue).key;
    reveal_strlit(":created");
    reveal_strlit(":cl:");
    reveal_strlit(":cm:");
    let k = key.len() as int;
    assert((key + ":created"@)[k + 2] == 'r');
    assert((key + jira::change_mark(h))[k + 2] == 'l');
    assert((key + (":cm:"@ + c.json.at("id"@).text_or_empty()))[k + 2] == 'm');
}

/// The limit to my issues takes nothing from an issue that is mine. From
/// another it takes the creation and the changes of the status and of other
/// fields, and leaves every other notification as it is.
pub proof fn law_my_issues_only(
    issue: JsonView,
    histories: Seq<JsonView>,
    comments: Seq<CommentView>,
    h: JsonView,
    since: int,
    my_id: Seq<char>,
)
    ensures
        jira::is_mine(issue, my_id) ==> jira::app_events(
            issue,
            histories,
            comments,
            since,
            my_id,
            true,
        ) == jira::app_events(issue, histories, comments, since, my_id, false),
        jira::created_event(issue, since, my_id, true) is None,
        ({
            let all = jira::history_event(jira::issue_of(issue), h, since, my_id, false);
            let kept = jira::history_event(jira::issue_of(issue), h, since, my_id, true);
            &&& kept is Some ==> kept == all
            &&& kept is None && all is Some ==> all.unwrap().category == "status"@
                || all.unwrap().category == "field"@
            &&& kept is Some ==> kept.unwrap().category != "status"@ && kept.unwrap().category
                != "field"@
        }),
{
    match h.at("items"@).as_array() {
        Some(items) => {
            let category = jira::change_of(items, my_id).0;
            lemma_category_names(category, Category::Status);
            lemma_category_names(category, Category::Field);
        },
        None => {},
    }
}

/// What happened before `since` makes no notification.
pub proof fn law_since(
    issue: JsonView,
    h: JsonView,
    c: CommentView,
    since: int,
    my_id: Seq<char>,
    skip: bool,
    watched: bool,
)
    ensures
        !jira::at_or_after(jira::created_of(issue.at("fields"@)), since) ==> jira::created_event(
            issue,
            since,
            my_id,
            skip,
        ) is None,
        !jira::at_or_after(jira::created_of(h), since) ==> jira::history_event(
            jira::issue_of(issue),
            h,
            since,
            my_id,
            skip,
        ) is None && jira::assigned_event(jira::issue_of(issue), h, since, my_id) is None,
        !jira::at_or_after(jira::created_of(c.json), since) ==> jira::comment_event(
            jira::issue_of(issue),
            c,
            since,
            my_id,
            watched,
        ) is None,
{
}

/// The changes that were made not before `since`, in their order. One whose time
/// cannot be read counts.
pub open spec fn recent_changes(histories: Seq<JsonView>, since: int) -> Seq<JsonView>
    decreases histories.len(),
{
    if histories.len() == 0 {
        histories
    } else if jira::at_or_after(jira::created_of(histories.last()), since) {
        recent_changes(histories.drop_last(), since).push(histories.last())
    } else {
        recent_changes(histories.drop_last(), since)
    }
}

/// The comments that were made not before `since`, in their order. One whose time
/// cannot be read counts.
pub open spec fn recent_comments(comments: Seq<CommentView>, since: int) -> Seq<CommentView>
    decreases comments.len(),
{
    if comments.len() == 0 {
        comments
    } else if jira::at_or_after(jira::created_of(comments.last().json), since) {
        recent_comments(comments.drop_last(), since).push(comments.last())
    } else {
        recent_comments(comments.drop_last(), since)
    }
}

/// A later limit gives what the earlier one gives of what was made since the
/// later one, in the same order.
pub proof fn law_later_since(
    issue: JsonView,
    histories: Seq<JsonView>,
    comments: Seq<CommentView>,
    since: int,
    later: int,
    my_id: Seq<char>,
    my_issues_only: bool,
)
    requires
        since <= later,
    ensures
        jira::issue_of(issue).key.len() > 0 ==> jira::app_events(
            issue,
            histories,
            comments,
            later,
            my_id,
            my_issues_only,
        ) == jira::if_any(
            if jira::at_or_after(jira::created_of(issue.at("fields"@)), later) {
                jira::created_event(
                    issue,
                    since,
                    my_id,
                    my_issues_only && !jira::is_mine(issue, my_id),
                )
            } else {
                None
            },
        ) + jira::history_events(
            jira::issue_of(issue),
            recent_changes(histories, later),
            since,
            my_id,
            my_issues_only && !jira::is_mine(issue, my_id),
        ) + jira::comment_events(
            jira::issue_of(issue),
            recent_comments(comments, later),
            since,
            my_id,
            true,
        ),
        jira::mention_events(issue, comments, later, my_id) == jira::mention_events(
            issue,
            recent_comments(comments, later),
            since,
            my_id,
        ),
        jira::assignment_events(issue, histories, later, my_id) == jira::assignment_events(
            issue,
            recent_changes(histories, later),
            since,
            my_id,
        ),
{
    let head = jira::issue_of(issue);
    let skip = my_issues_only && !jira::is_mine(issue, my_id);
    lemma_recent_changes(head, histories, since, later, my_id, skip);
    lemma_recent_comments(head, comments, since, later, my_id, true);
    lemma_recent_comments(head, comments, since, later, my_id, false);
}

proof fn lemma_recent_changes(
    issue: IssueView,
    histories: Seq<JsonView>,
    since: int,
    later: int,
    my_id: Seq<char>,
    skip: bool,
)
    requires
        since <= later,
    ensures
        jira::history_events(issue, histories, later, my_id, skip) == jira::history_events(
            issue,
            recent_changes(histories, later),
            since,
            my_id,
            skip,
        ),
        jira::assigned_events(issue, histories, later, my_id) == jira::assigned_events(
            issue,
            recent_changes(histories, later),
            since,
            my_id,
        ),
    decreases histories.len(),
{
    if histories.len() > 0 {
        let h = histories.last();
        let front = recent_changes(histories.drop_last(), later);
        lemma_recent_changes(issue, histories.drop_last(), since, later, my_id, skip);
        assert(front.push(h).drop_last() == front);
        if !jira::at_or_after(jira::created_of(h), later) {
            assert(jira::history_event(issue, h, later, my_id, skip) is None);
            assert(jira::assigned_event(issue, h, later, my_id) is None);
            let none = jira::if_any(None);
            let before = jira::history_events(issue, front, since, my_id, skip);
            let assigned = jira::assigned_events(issue, front, since, my_id);
            assert(before + none == before);
            assert(assigned + none == assigned);
        }
    }
}

proof fn lemma_recent_comments(
    issue: IssueView,
    comments: Seq<CommentView>,
    since: int,
    later: int,
    my_id: Seq<char>,
    watched: bool,
)
    requires
        since <= later,
    ensures
        jira::comment_events(issue, comments, later, my_id, watched) == jira::comment_events(
            issue,
            recent_comments(comments, later),
            since,
            my_id,
            watched,
        ),
    decreases comments.len(),
{
    if comments.len() > 0 {
        let c = comments.last();
        let front = recent_comments(comments.drop_last(), later);
        lemma_recent_comments(issue, comments.drop_last(), since, later, my_id, watched);
        assert(front.push(c).drop_last() == front);
        if !jira::at_or_after(jira::created_of(c.json), later) {
            assert(jira::comment_event(issue, c, later, my_id, watched) is None);
            let before = jira::comment_events(issue, front, since, my_id, watched);
            assert(before + jira::if_any(None) == before);
        }
    }
}

/// The filter keeps exactly the notifications of the enabled categories; if
/// none is named, all.
pub proof fn law_filter_keeps_enabled(
    events: Seq<EventView>,
    categories: Set<Seq<char>>,
    e: EventView,
)
    ensures
        categories == Set::<Seq<char>>::empty() ==> jira::kept_events(events, categories) == events,
        categories != Set::<Seq<char>>::empty() ==> (jira::kept_events(events, categories).contains(
            e,
        ) <==> events.contains(e) && categories.contains(e.category)),
{
    lemma_enabled(events, categories, e);
}

proof fn lemma_enabled(events: Seq<EventView>, categories: Set<Seq<char>>, e: EventView)
    ensures
        jira::enabled_events(events, categories).contains(e) <==> events.contains(e)
            && categories.contains(e.category),
    decreases events.len(),
{
    if events.len() > 0 {
        let front = events.drop_last();
        lemma_enabled(front, categories, e);
        let kept = jira::enabled_events(front, categories);
        let all = jira::enabled_events(events, categories);
        if events.contains(e) {
            let i = choose|i: int| 0 <= i < events.len() && events[i] == e;
            if i < front.len() {
                assert(front[i] == e);
            }
        }
        if front.contains(e) {
            let i = choose|i: int| 0 <= i < front.len() && front[i] == e;
            assert(events[i] == e);
        }
        assert(events[events.len() - 1] == events.last());
        if categories.contains(events.last().category) {
            if kept.contains(e) {
                let i = choose|i: int| 0 <= i < kept.len() && kept[i] == e;
                assert(all[i] == e);
            }
            assert(all[kept.len() as int] == events.last());
            if all.contains(e) {
                let i = choose|i: int| 0 <= i < all.len() && all[i] == e;
                if i < kept.len() {
                    assert(kept[i] == e);
                }
            }
        }
    }
}

/// Filtering twice is filtering once.
pub proof fn law_filter_idempotent(events: Seq<EventView>, categories: Set<Seq<char>>)
    ensures
        jira::kept_events(jira::kept_events(events, categories), categories) == jira::kept_events(
            events,
            categories,
        ),
{
    lemma_enabled_twice(events, categories);
}

proof fn lemma_enabled_twice(events: Seq<EventView>, categories: Set<Seq<char>>)
    ensures
        jira::enabled_events(jira::enabled_events(events, categories), categories)
            == jira::enabled_events(events, categories),
    decreases events.len(),
{
    if events.len() > 0 {
        let front = events.drop_last();
        lemma_enabled_twice(front, categories);
        let kept = jira::enabled_events(front, categories);
        if categories.contains(events.last().category) {
            assert(kept.push(events.last()).drop_last() == kept);
        }
    }
}

/// A shortened text has at most one character more than allowed, and begins as
/// the text does.
pub proof fn law_shortened(s: Seq<char>, n: nat)
    ensures
        text::shortened(s, n).len() <= n + 1,
        s.len() <= n ==> text::shortened(s, n) == s,
        s.len() > n ==> text::shortened(s, n).take(n as int) == s.take(n as int),
{
    reveal_strlit("…");
    if s.len() > n {
        assert(text::shortened(s, n).take(n as int) =~= s.take(n as int));
    }
}

} // verus!
