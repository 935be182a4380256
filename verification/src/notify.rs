//! When to notify, and with what words.

use vstd::prelude::*;

use chrono::Timelike;

use crate::checks;
use crate::checks::Key;
use crate::checks::KeySet;
use crate::label;
use crate::model::PendingSummary;
use crate::model::Setting;
use crate::pages;
use crate::pages::PendingView;
use crate::pages::PerTaskNotify;
use crate::pages::PerTaskView;
use crate::settings;
use crate::text;

verus! {

/// Seconds between two looks at the clock.
pub const TICK_SECS: u64 = 30;

/// When to notify if the setting cannot be read: at nine, in seconds of the day.
pub const DEFAULT_NOTIFY_SECOND: u32 = 32400;

// ── Times of day ────────────────────────────────────────

/// What `chrono::NaiveTime::parse_from_str` reads from a text with the format
/// `%H:%M`: the second of the day, or nothing where it reports an error.
pub uninterp spec fn clock_time(text: Seq<char>) -> Option<int>;

/// `chrono::NaiveTime::parse_from_str` with the format `%H:%M`, the time given by
/// its second of the day. Nothing is said of which texts it accepts.
#[verifier::external_body]
fn chrono_clock(text: &str) -> (r: Option<u32>)
    ensures
        r is Some <==> clock_time(text@) is Some,
        r matches Some(n) ==> clock_time(text@) == Some(n as int) && n < 86400,
{
    match chrono::NaiveTime::parse_from_str(text, "%H:%M") {
        Ok(t) => Some(t.num_seconds_from_midnight()),
        Err(_) => None,
    }
}

/// The second of the day that a text sets; nine o'clock if it cannot be read.
pub open spec fn notify_second(text: Seq<char>) -> int {
    match clock_time(text) {
        Some(n) => n,
        None => DEFAULT_NOTIFY_SECOND as int,
    }
}

/// The second of the day that a text sets; nine o'clock if it cannot be read.
pub fn parse_notify_time(s: &str) -> (r: u32)
    ensures
        r == notify_second(s@),
{
    match chrono_clock(s) {
        Some(n) => n,
        None => DEFAULT_NOTIFY_SECOND,
    }
}

// ── Words ───────────────────────────────────────────────

/// The words for a number of late occurrences.
pub open spec fn late_words(n: int) -> Seq<char> {
    "밀림 "@ + text::signed_decimal(n) + "건"@
}

/// The words for what is late.
pub open spec fn overdue_words(s: PendingView) -> Seq<char> {
    if s.sample_names.len() == 0 {
        late_words(s.overdue)
    } else {
        late_words(s.overdue) + " · "@ + text::joined(s.sample_names, ", "@)
    }
}

/// The parts of the words for what is still to be done.
pub open spec fn summary_parts(s: PendingView) -> Seq<Seq<char>> {
    let late = if s.overdue > 0 {
        seq![late_words(s.overdue)]
    } else {
        Seq::empty()
    };
    if s.sample_names.len() == 0 {
        late
    } else {
        late.push(text::joined(s.sample_names, ", "@))
    }
}

/// The words for what is still to be done.
pub open spec fn summary_words(s: PendingView) -> Seq<char> {
    text::joined(summary_parts(s), " · "@)
}

/// The words for a number of late occurrences.
fn late_text(n: i64) -> (r: String)
    ensures
        r@ == late_words(n as int),
{
    text::concat3("밀림 ", text::signed_text(n).as_str(), "건")
}

/// The words for what is late.
pub fn overdue_body(s: &PendingSummary) -> (r: String)
    ensures
        r@ == overdue_words(s.view()),
{
    let mut body = late_text(s.overdue);
    if s.sample_names.len() > 0 {
        body.append(" · ");
        body.append(text::join_texts(&s.sample_names, ", ").as_str());
    }
    body
}

/// The words for what is still to be done.
pub fn summary_body(s: &PendingSummary) -> (r: String)
    ensures
        r@ == summary_words(s.view()),
{
    let mut parts: Vec<String> = Vec::new();
    if s.overdue > 0 {
        parts.push(late_text(s.overdue));
    }
    if s.sample_names.len() > 0 {
        parts.push(text::join_texts(&s.sample_names, ", "));
    }
    assert(text::texts(parts@) =~= summary_parts(s.view()));
    text::join_texts(&parts, " · ")
}

/// A notification on the screen.
#[derive(Debug)]
pub struct Toast {
    pub title: String,
    pub body: String,
}

/// A notification on the screen: its title and its body.
pub open spec fn opt_toast(toast: Option<Toast>) -> Option<(Seq<char>, Seq<char>)> {
    match toast {
        Some(t) => Some((t.title@, t.body@)),
        None => None,
    }
}

/// A title with a number of things in it.
pub open spec fn counted_title(before: Seq<char>, n: int) -> Seq<char> {
    before + text::signed_decimal(n) + "건"@
}

// ── Daily summary ───────────────────────────────────────

/// The daily summary, if it is due: it is enabled, the time has come, it was not
/// sent today, and there is something to do.
pub open spec fn summary_due(s: Seq<Setting>, pending: PendingView, now: int, today: Seq<char>) -> Option<
    (Seq<char>, Seq<char>),
> {
    if settings::is_on(s, "notify_enabled"@, true) && now >= notify_second(
        settings::value_or_empty(s, "notify_time"@),
    ) && settings::value_of(s, "last_notify_date"@) != Some(today) && pending.total != 0 {
        Some((counted_title("오늘 미체크 업무 "@, pending.total), summary_words(pending)))
    } else {
        None
    }
}

/// The daily summary, if it is enabled, the second `now` of the day has reached
/// `target`, it was not sent today, and there is something to do.
pub fn summary_at(
    pending: &PendingSummary,
    enabled: bool,
    now: u32,
    target: u32,
    sent_today: bool,
) -> (r: Option<Toast>)
    ensures
        opt_toast(r) == if enabled && now >= target && !sent_today && pending.total != 0 {
            Some(
                (
                    counted_title("오늘 미체크 업무 "@, pending.total as int),
                    summary_words(pending.view()),
                ),
            )
        } else {
            None
        },
{
    if !enabled || now < target || sent_today || pending.total == 0 {
        return None;
    }
    Some(
        Toast {
            title: text::concat3(
                "오늘 미체크 업무 ",
                text::signed_text(pending.total).as_str(),
                "건",
            ),
            body: summary_body(pending),
        },
    )
}

/// The daily summary, if it is due at second `now` of the day `today`.
pub fn summary_tick(s: &Vec<Setting>, pending: &PendingSummary, now: u32, today: &str) -> (r: Option<
    Toast,
>)
    ensures
        opt_toast(r) == summary_due(s@, pending.view(), now as int, today@),
{
    let enabled = settings::setting_bool(s, "notify_enabled", true);
    let target = parse_notify_time(settings::setting_str(s, "notify_time").as_str());
    let sent_today = match settings::read_setting(s, "last_notify_date") {
        Some(date) => date.as_str().eq(today),
        None => false,
    };
    summary_at(pending, enabled, now, target, sent_today)
}

/// Once the summary of a day was noted as sent, it is not due again that day.
pub proof fn law_summary_once_a_day(
    s: Seq<Setting>,
    pending: PendingView,
    now: int,
    today: Seq<char>,
)
    requires
        settings::value_of(s, "last_notify_date"@) == Some(today),
    ensures
        summary_due(s, pending, now, today) is None,
{
}

// ── Late occurrences ────────────────────────────────────

/// The notification at the start: what is late, if anything is.
pub open spec fn start_due(s: Seq<Setting>, pending: PendingView) -> Option<
    (Seq<char>, Seq<char>),
> {
    if settings::is_on(s, "notify_on_overdue"@, true) && pending.overdue > 0 {
        Some((counted_title("밀린 업무 "@, pending.overdue), overdue_words(pending)))
    } else {
        None
    }
}

/// The notification at the start: what is late, if anything is.
pub fn start_toast(s: &Vec<Setting>, pending: &PendingSummary) -> (r: Option<Toast>)
    ensures
        opt_toast(r) == start_due(s@, pending.view()),
{
    if settings::setting_bool(s, "notify_on_overdue", true) && pending.overdue > 0 {
        Some(
            Toast {
                title: text::concat3(
                    "밀린 업무 ",
                    text::signed_text(pending.overdue).as_str(),
                    "건",
                ),
                body: overdue_body(pending),
            },
        )
    } else {
        None
    }
}

/// How many occurrences of a list are not known yet.
pub open spec fn new_count(now: Seq<Key>, known: Set<Key>) -> nat {
    now.to_set().difference(known).len()
}

/// The notification of occurrences that have become late.
pub open spec fn new_late_due(s: Seq<Setting>, pending: PendingView, known: Set<Key>) -> Option<
    (Seq<char>, Seq<char>),
> {
    let n = new_count(pending.overdue_keys, known);
    if settings::is_on(s, "notify_on_overdue"@, true) && n > 0 {
        Some((counted_title("새 밀린 업무 "@, n as int), overdue_words(pending)))
    } else {
        None
    }
}

/// The occurrences of a list as a set, and how many of them are not known yet.
fn count_new(keys: &Vec<(i64, String)>, known: &KeySet) -> (r: (KeySet, u64))
    ensures
        r.0@ == checks::key_views(keys@).to_set(),
        r.1 == new_count(checks::key_views(keys@), known@),
{
    let ghost all = checks::key_views(keys@);
    let mut seen = KeySet::new();
    let mut count: u64 = 0;
    let mut i: usize = 0;
    assert(seen@ =~= all.take(0).to_set());
    assert(seen@.difference(known@) =~= Set::<Key>::empty());
    while i < keys.len()
        invariant
            all == checks::key_views(keys@),
            i <= keys.len(),
            seen@ == all.take(i as int).to_set(),
            seen@.difference(known@).finite(),
            count == seen@.difference(known@).len(),
            count <= i,
        decreases keys.len() - i,
    {
        let ghost key = all[i as int];
        let ghost before = seen@;
        let fresh = !seen.has(keys[i].0, keys[i].1.as_str()) && !known.has(
            keys[i].0,
            keys[i].1.as_str(),
        );
        seen.insert(keys[i].0, keys[i].1.clone());
        if fresh {
            count += 1;
        }
        proof {
            let a = all.take(i as int);
            let b = all.take(i + 1);
            assert(b == a.push(key));
            assert forall|k: Key| b.contains(k) <==> a.contains(k) || k == key by {
                if a.contains(k) {
                    let j = choose|j: int| 0 <= j < a.len() && a[j] == k;
                    assert(b[j] == k);
                }
                assert(b[i as int] == key);
            }
            assert(seen@ =~= b.to_set());
            if fresh {
                assert(seen@.difference(known@) =~= before.difference(known@).insert(key));
            } else {
                assert(seen@.difference(known@) =~= before.difference(known@));
            }
        }
        i += 1;
    }
    assert(all.take(i as int) == all);
    (seen, count)
}

/// The notification of occurrences that have become late since the last look,
/// and what is late now.
pub fn new_late_toast(s: &Vec<Setting>, pending: &PendingSummary, known: &KeySet) -> (r: (
    Option<Toast>,
    KeySet,
))
    ensures
        opt_toast(r.0) == new_late_due(s@, pending.view(), known@),
        r.1@ == pending.view().overdue_keys.to_set(),
{
    let (now, n) = count_new(&pending.overdue_keys, known);
    let toast = if settings::setting_bool(s, "notify_on_overdue", true) && n > 0 {
        Some(
            Toast {
                title: text::concat3("새 밀린 업무 ", text::decimal_text(n).as_str(), "건"),
                body: overdue_body(pending),
            },
        )
    } else {
        None
    };
    (toast, now)
}

/// What was late at the last look is not new.
pub proof fn law_known_is_not_new(s: Seq<Setting>, pending: PendingView)
    ensures
        new_late_due(s, pending, pending.overdue_keys.to_set()) is None,
{
    let late = pending.overdue_keys.to_set();
    assert(late.difference(late) =~= Set::<Key>::empty());
}

// ── Reminders of single tasks ───────────────────────────

/// What was shown and what was noted as shown.
pub struct ReminderState {
    pub titles: Seq<Seq<char>>,
    pub sent: Set<Key>,
    pub reminded: Set<Key>,
}

/// The words that a task is due.
pub open spec fn due_words(name: Seq<char>) -> Seq<char> {
    "「"@ + name + "」 체크할 시간입니다"@
}

/// The words that a task will be due in `n` days, on day `next`.
pub open spec fn ahead_words(name: Seq<char>, n: int, next: int) -> Seq<char> {
    "「"@ + name + "」 — "@ + text::signed_decimal(n) + "일 후("@ + label::month_and_day(next)
        + ") 기한"@
}

/// Whether a task is to be reminded of at second `now`: its time has come.
pub open spec fn time_has_come(item: PerTaskView, now: int) -> bool {
    match item.today_notify_time {
        Some(t) => now >= notify_second(t),
        None => false,
    }
}

/// The state after today's reminder of one task. `come` tells whether its time
/// has come.
pub open spec fn after_due(
    state: ReminderState,
    item: PerTaskView,
    come: bool,
    today: Seq<char>,
) -> ReminderState {
    if come && !state.sent.contains((item.task_id, today)) {
        ReminderState {
            titles: state.titles.push(due_words(item.name)),
            sent: state.sent.insert((item.task_id, today)),
            ..state
        }
    } else {
        state
    }
}

/// The state after the reminder of a due date ahead of one task. `ready` tells
/// whether the time for such reminders has come.
pub open spec fn after_ahead(
    state: ReminderState,
    item: PerTaskView,
    ready: bool,
    today: Seq<char>,
) -> ReminderState {
    match item.remind {
        Some((n, next)) => if ready && !state.reminded.contains((item.task_id, today)) {
            ReminderState {
                titles: state.titles.push(ahead_words(item.name, n, next)),
                reminded: state.reminded.insert((item.task_id, today)),
                ..state
            }
        } else {
            state
        },
        None => state,
    }
}

/// The state after both reminders of one task.
pub open spec fn after_item(
    state: ReminderState,
    item: PerTaskView,
    come: bool,
    ready: bool,
    today: Seq<char>,
) -> ReminderState {
    after_ahead(after_due(state, item, come, today), item, ready, today)
}

/// The state after the reminders of some tasks.
pub open spec fn after_items(
    state: ReminderState,
    items: Seq<PerTaskView>,
    now: int,
    ready: bool,
    today: Seq<char>,
) -> ReminderState
    decreases items.len(),
{
    if items.len() == 0 {
        state
    } else {
        after_item(
            after_items(state, items.drop_last(), now, ready, today),
            items.last(),
            time_has_come(items.last(), now),
            ready,
            today,
        )
    }
}

/// The reminders of one task, by title: `come` tells whether its time has come,
/// `ready` whether that for due dates ahead has. What was shown before is not
/// shown again; what is shown is noted.
pub fn remind_task(
    item: &PerTaskNotify,
    come: bool,
    ready: bool,
    today: &str,
    titles: &mut Vec<String>,
    sent: &mut KeySet,
    reminded: &mut KeySet,
)
    ensures
        (ReminderState {
            titles: text::texts(final(titles)@),
            sent: final(sent)@,
            reminded: final(reminded)@,
        }) == after_item(
            (ReminderState {
                titles: text::texts(old(titles)@),
                sent: old(sent)@,
                reminded: old(reminded)@,
            }),
            item.view(),
            come,
            ready,
            today@,
        ),
{
    let ghost before = text::texts(titles@);
    if come && !sent.has(item.task_id, today) {
        titles.push(text::concat3("「", item.name.as_str(), "」 체크할 시간입니다"));
        sent.insert(item.task_id, today.to_owned());
        assert(text::texts(titles@) =~= before.push(due_words(item.name@)));
    }
    let ghost middle = text::texts(titles@);
    if let Some((n, next)) = &item.remind {
        if ready && !reminded.has(item.task_id, today) {
            let mut words = text::concat3("「", item.name.as_str(), "」 — ");
            words.append(text::signed_text(*n).as_str());
            words.append("일 후(");
            words.append(label::month_day_label(next).as_str());
            words.append(") 기한");
            titles.push(words);
            reminded.insert(item.task_id, today.to_owned());
            assert(text::texts(titles@) =~= middle.push(
                ahead_words(item.name@, *n as int, next@),
            ));
        }
    }
}

/// The reminders that are due at second `now` of the day `today`, by title. Each
/// task is reminded of at most once a day, and of a due date ahead at most once
/// a day; what was shown is noted.
pub fn per_task_tick(
    s: &Vec<Setting>,
    items: &Vec<PerTaskNotify>,
    now: u32,
    today: &str,
    sent: &mut KeySet,
    reminded: &mut KeySet,
) -> (r: Vec<String>)
    ensures
        (ReminderState {
            titles: text::texts(r@),
            sent: final(sent)@,
            reminded: final(reminded)@,
        }) == after_items(
            (ReminderState {
                titles: Seq::empty(),
                sent: old(sent)@,
                reminded: old(reminded)@,
            }),
            pages::per_task_views(items@),
            now as int,
            now >= notify_second(settings::value_or_empty(s@, "notify_time"@)),
            today@,
        ),
{
    let ready = now >= parse_notify_time(settings::setting_str(s, "notify_time").as_str());
    let ghost all = pages::per_task_views(items@);
    let ghost start = ReminderState {
        titles: Seq::empty(),
        sent: sent@,
        reminded: reminded@,
    };
    let mut titles: Vec<String> = Vec::new();
    assert(text::texts(titles@) =~= Seq::empty());
    let mut i: usize = 0;
    while i < items.len()
        invariant
            all == pages::per_task_views(items@),
            i <= items.len(),
            (ReminderState {
                titles: text::texts(titles@),
                sent: sent@,
                reminded: reminded@,
            }) == after_items(start, all.take(i as int), now as int, ready, today@),
        decreases items.len() - i,
    {
        let item = &items[i];
        proof {
            assert(all.take(i + 1).drop_last() == all.take(i as int));
            assert(all.take(i + 1).last() == item.view());
        }
        let come = match &item.today_notify_time {
            Some(t) => now >= parse_notify_time(t.as_str()),
            None => false,
        };
        remind_task(item, come, ready, today, &mut titles, sent, reminded);
        i += 1;
    }
    assert(all.take(i as int) == all);
    titles
}

// ── Reminder laws ───────────────────────────────────────

/// Whether a task has nothing left to be reminded of.
pub open spec fn settled(
    state: ReminderState,
    item: PerTaskView,
    now: int,
    ready: bool,
    today: Seq<char>,
) -> bool {
    &&& time_has_come(item, now) ==> state.sent.contains((item.task_id, today))
    &&& (ready && item.remind is Some) ==> state.reminded.contains((item.task_id, today))
}

/// What was noted as shown stays noted.
pub proof fn law_notes_stay(
    state: ReminderState,
    items: Seq<PerTaskView>,
    now: int,
    ready: bool,
    today: Seq<char>,
)
    ensures
        state.sent.subset_of(after_items(state, items, now, ready, today).sent),
        state.reminded.subset_of(after_items(state, items, now, ready, today).reminded),
    decreases items.len(),
{
    if items.len() > 0 {
        law_notes_stay(state, items.drop_last(), now, ready, today);
    }
}

/// After a look at the clock every task is settled.
proof fn lemma_settled(
    state: ReminderState,
    items: Seq<PerTaskView>,
    now: int,
    ready: bool,
    today: Seq<char>,
    i: int,
)
    requires
        0 <= i < items.len(),
    ensures
        settled(after_items(state, items, now, ready, today), items[i], now, ready, today),
    decreases items.len(),
{
    let front = items.drop_last();
    if i < front.len() {
        lemma_settled(state, front, now, ready, today, i);
        assert(front[i] == items[i]);
    } else {
        assert(items[i] == items.last());
    }
}

/// Settled tasks make no reminder.
proof fn lemma_nothing_left(
    state: ReminderState,
    items: Seq<PerTaskView>,
    now: int,
    ready: bool,
    today: Seq<char>,
)
    requires
        forall|i: int|
            0 <= i < items.len() ==> settled(state, #[trigger] items[i], now, ready, today),
    ensures
        after_items(state, items, now, ready, today) == state,
    decreases items.len(),
{
    if items.len() > 0 {
        let front = items.drop_last();
        assert forall|i: int| 0 <= i < front.len() implies settled(
            state,
            #[trigger] front[i],
            now,
            ready,
            today,
        ) by {
            assert(front[i] == items[i]);
        }
        lemma_nothing_left(state, front, now, ready, today);
        assert(items[items.len() - 1] == items.last());
    }
}

/// Looking at the clock twice in the same second shows nothing twice.
pub proof fn law_reminders_once(
    state: ReminderState,
    items: Seq<PerTaskView>,
    now: int,
    ready: bool,
    today: Seq<char>,
)
    ensures
        ({
            let once = after_items(state, items, now, ready, today);
            after_items(once, items, now, ready, today) == once
        }),
{
    let once = after_items(state, items, now, ready, today);
    assert forall|i: int| 0 <= i < items.len() implies settled(
        once,
        #[trigger] items[i],
        now,
        ready,
        today,
    ) by {
        lemma_settled(state, items, now, ready, today, i);
    }
    lemma_nothing_left(once, items, now, ready, today);
}

/// A task of which both reminders were noted for the day makes none, whatever
/// the time.
pub proof fn law_noted_is_silent(
    state: ReminderState,
    item: PerTaskView,
    now: int,
    ready: bool,
    today: Seq<char>,
)
    requires
        state.sent.contains((item.task_id, today)),
        state.reminded.contains((item.task_id, today)),
    ensures
        after_items(state, seq![item], now, ready, today) == state,
{
    let items = seq![item];
    assert forall|i: int| 0 <= i < items.len() implies settled(
        state,
        #[trigger] items[i],
        now,
        ready,
        today,
    ) by {}
    lemma_nothing_left(state, items, now, ready, today);
}

} // verus!
