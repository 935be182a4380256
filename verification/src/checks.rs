//! What was noted of the occurrences of tasks.

use vstd::prelude::*;

use crate::model::CheckInfo;
use crate::model::CheckView;

verus! {

/// An occurrence: its task and its due date.
pub type Key = (int, Seq<char>);

/// One noted occurrence.
struct Check {
    task_id: i64,
    due_date: String,
    info: CheckInfo,
}

spec fn key_of(c: Check) -> Key {
    (c.task_id as int, c.due_date@)
}

/// What was noted last of an occurrence.
spec fn last_noted(items: Seq<Check>, key: Key) -> Option<CheckView>
    decreases items.len(),
{
    if items.len() == 0 {
        None
    } else if key_of(items.last()) == key {
        Some(items.last().info.view())
    } else {
        last_noted(items.drop_last(), key)
    }
}

/// What was noted of the occurrences of all tasks.
pub struct Checks {
    items: Vec<Check>,
}

impl View for Checks {
    type V = Map<Key, CheckView>;

    closed spec fn view(&self) -> Map<Key, CheckView> {
        Map::new(
            |k: Key| last_noted(self.items@, k) is Some,
            |k: Key| last_noted(self.items@, k).unwrap(),
        )
    }
}

/// What becomes of the note when an occurrence is toggled.
#[derive(Debug, Clone, Copy, PartialEq, Eq, Structural)]
pub enum ToggleAction {
    Insert,
    Delete,
}

impl Checks {
    pub fn new() -> (r: Checks)
        ensures
            r@ == Map::<Key, CheckView>::empty(),
    {
        let r = Checks { items: Vec::new() };
        assert(r@ =~= Map::<Key, CheckView>::empty());
        r
    }

    /// Notes something of an occurrence, in place of what was noted of it.
    pub fn insert(&mut self, task_id: i64, due_date: String, info: CheckInfo)
        ensures
            final(self)@ == old(self)@.insert((task_id as int, due_date@), info.view()),
    {
        let ghost key = (task_id as int, due_date@);
        let ghost view = info.view();
        let ghost before = self.items@;
        self.items.push(Check { task_id, due_date, info });
        assert(self.items@.drop_last() == before);
        assert(self@ =~= old(self)@.insert(key, view));
    }

    /// What was noted of an occurrence.
    pub fn find(&self, task_id: i64, due_date: &str) -> (r: Option<&CheckInfo>)
        ensures
            r is Some <==> self@.contains_key((task_id as int, due_date@)),
            r matches Some(info) ==> info.view() == self@[(task_id as int, due_date@)],
    {
        let ghost key = (task_id as int, due_date@);
        let mut i: usize = self.items.len();
        assert(self.items@.take(i as int) == self.items@);
        while i > 0
            invariant
                key == (task_id as int, due_date@),
                i <= self.items.len(),
                last_noted(self.items@, key) == last_noted(self.items@.take(i as int), key),
            decreases i,
        {
            i -= 1;
            assert(self.items@.take(i + 1).drop_last() == self.items@.take(i as int));
            if self.items[i].task_id == task_id && self.items[i].due_date.as_str().eq(due_date) {
                return Some(&self.items[i].info);
            }
        }
        None
    }

    /// Forgets what was noted of an occurrence.
    pub fn remove(&mut self, task_id: i64, due_date: &str)
        ensures
            final(self)@ == old(self)@.remove((task_id as int, due_date@)),
    {
        let ghost key = (task_id as int, due_date@);
        let mut items: Vec<Check> = Vec::new();
        std::mem::swap(&mut items, &mut self.items);
        let ghost all = items@;
        let mut kept: Vec<Check> = Vec::new();
        for c in it: items
            invariant
                key == (task_id as int, due_date@),
                it.seq() == all,
                forall|k: Key|
                    #[trigger] last_noted(kept@, k) == if k == key {
                        None
                    } else {
                        last_noted(all.take(it.index()), k)
                    },
        {
            let ghost before = kept@;
            let ghost i = it.index();
            let ghost noted = c;
            let same = c.task_id == task_id && c.due_date.as_str().eq(due_date);
            if !same {
                kept.push(c);
            }
            proof {
                assert(all.take(i + 1).drop_last() == all.take(i));
                assert(all.take(i + 1).last() == noted);
                assert(same == (key_of(noted) == key));
                assert forall|k: Key| #[trigger] last_noted(kept@, k) == if k == key {
                    None
                } else {
                    last_noted(all.take(i + 1), k)
                } by {
                    assert(last_noted(before, k) == if k == key {
                        None
                    } else {
                        last_noted(all.take(i), k)
                    });
                    if !same {
                        assert(kept@.drop_last() == before);
                    }
                }
            }
        }
        assert(all.take(all.len() as int) == all);
        self.items = kept;
        assert(self@ =~= old(self)@.remove(key));
    }
}

/// What toggling an occurrence makes of the notes: one that has a note loses
/// it, any other is noted as done.
pub open spec fn toggled(checks: Map<Key, CheckView>, key: Key) -> Map<Key, CheckView> {
    if checks.contains_key(key) {
        checks.remove(key)
    } else {
        checks.insert(key, CheckView { status: "done"@, memo: None })
    }
}

/// Toggles an occurrence.
pub fn toggle_check(checks: &mut Checks, task_id: i64, due_date: &str) -> (r: ToggleAction)
    ensures
        final(checks)@ == toggled(old(checks)@, (task_id as int, due_date@)),
        r is Delete <==> old(checks)@.contains_key((task_id as int, due_date@)),
{
    if checks.find(task_id, due_date).is_some() {
        checks.remove(task_id, due_date);
        ToggleAction::Delete
    } else {
        let info = CheckInfo { status: "done".to_owned(), memo: None };
        checks.insert(task_id, due_date.to_owned(), info);
        ToggleAction::Insert
    }
}

/// Toggling an occurrence twice leaves the same occurrences noted, and leaves
/// every other note as it was; if the occurrence had no note, all notes are as
/// they were.
pub proof fn law_toggle_twice(checks: Map<Key, CheckView>, key: Key)
    ensures
        toggled(toggled(checks, key), key).dom() == checks.dom(),
        toggled(toggled(checks, key), key).remove(key) == checks.remove(key),
        !checks.contains_key(key) ==> toggled(toggled(checks, key), key) == checks,
{
    let twice = toggled(toggled(checks, key), key);
    assert(twice.dom() =~= checks.dom());
    assert(twice.remove(key) =~= checks.remove(key));
    if !checks.contains_key(key) {
        assert(twice =~= checks);
    }
}

/// Toggling an occurrence without a note notes it as done and without a memo;
/// one with a note, whatever it is, loses it. Every other note stays.
pub proof fn law_toggle(checks: Map<Key, CheckView>, key: Key, other: Key)
    ensures
        toggled(checks, key).contains_key(key) <==> !checks.contains_key(key),
        !checks.contains_key(key) ==> toggled(checks, key)[key].status == "done"@ && toggled(
            checks,
            key,
        )[key].memo is None,
        other != key ==> (toggled(checks, key).contains_key(other) <==> checks.contains_key(other)),
        other != key && checks.contains_key(other) ==> toggled(checks, key)[other] == checks[other],
{
}

// ── Sets of occurrences ─────────────────────────────────

/// The tasks and dates of a list in memory.
pub open spec fn key_views(v: Seq<(i64, String)>) -> Seq<Key> {
    Seq::new(v.len(), |i: int| (v[i].0 as int, v[i].1@))
}

/// A set of tasks with a date each.
pub struct KeySet {
    items: Vec<(i64, String)>,
}

impl View for KeySet {
    type V = Set<Key>;

    closed spec fn view(&self) -> Set<Key> {
        key_views(self.items@).to_set()
    }
}

impl KeySet {
    pub fn new() -> (r: KeySet)
        ensures
            r@ == Set::<Key>::empty(),
    {
        let r = KeySet { items: Vec::new() };
        assert(r@ =~= Set::<Key>::empty());
        r
    }

    /// Whether a task with a date is in the set.
    pub fn has(&self, task_id: i64, date: &str) -> (b: bool)
        ensures
            b == self@.contains((task_id as int, date@)),
    {
        let ghost key = (task_id as int, date@);
        let mut i: usize = 0;
        while i < self.items.len()
            invariant
                key == (task_id as int, date@),
                i <= self.items.len(),
                forall|k: int| 0 <= k < i ==> key_views(self.items@)[k] != key,
            decreases self.items.len() - i,
        {
            if self.items[i].0 == task_id && self.items[i].1.as_str().eq(date) {
                assert(key_views(self.items@)[i as int] == key);
                return true;
            }
            i += 1;
        }
        false
    }

    /// Adds a task with a date.
    pub fn insert(&mut self, task_id: i64, date: String)
        ensures
            final(self)@ == old(self)@.insert((task_id as int, date@)),
    {
        let ghost key = (task_id as int, date@);
        let ghost before = key_views(self.items@);
        if !self.has(task_id, date.as_str()) {
            self.items.push((task_id, date));
            proof {
                let after = key_views(self.items@);
                assert(after == before.push(key));
                assert forall|k: Key| after.contains(k) <==> before.contains(k) || k == key by {
                    if before.contains(k) {
                        let j = choose|j: int| 0 <= j < before.len() && before[j] == k;
                        assert(after[j] == k);
                    }
                    assert(after[before.len() as int] == key);
                }
            }
        }
        assert(self@ =~= old(self)@.insert(key));
    }
}

} // verus!
