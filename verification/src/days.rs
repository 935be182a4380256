//! Sets and ascending lists of days, by day number.

use std::collections::HashSet;
use vstd::prelude::*;

use crate::calendar::Date;

verus! {

// ── Model ───────────────────────────────────────────────

/// The days from `lo` to `hi` for which `p` holds, in ascending order.
pub open spec fn matching_days(lo: int, hi: int, p: spec_fn(int) -> bool) -> Seq<int>
    decreases hi - lo + 1,
{
    if hi < lo {
        Seq::empty()
    } else if p(hi) {
        matching_days(lo, hi - 1, p).push(hi)
    } else {
        matching_days(lo, hi - 1, p)
    }
}

/// Whether a list is in ascending order and names no day twice.
pub open spec fn ascending(s: Seq<int>) -> bool {
    forall|i: int, j: int| 0 <= i < j < s.len() ==> s[i] < s[j]
}

/// The day numbers of a list of machine integers.
pub open spec fn ints(v: Seq<i32>) -> Seq<int> {
    Seq::new(v.len(), |i: int| v[i] as int)
}

/// The day numbers of a list of dates.
pub open spec fn numbers(v: Seq<Date>) -> Seq<int> {
    Seq::new(v.len(), |i: int| v[i]@)
}

/// The entries of a list that lie from `lo` to `hi`, in its order.
pub open spec fn within(s: Seq<int>, lo: int, hi: int) -> Seq<int>
    decreases s.len(),
{
    if s.len() == 0 {
        s
    } else if lo <= s.last() <= hi {
        within(s.drop_last(), lo, hi).push(s.last())
    } else {
        within(s.drop_last(), lo, hi)
    }
}

// ── Ascending lists ─────────────────────────────────────

/// `matching_days` lists exactly the matching days, in ascending order.
pub proof fn lemma_matching_days(lo: int, hi: int, p: spec_fn(int) -> bool)
    ensures
        ascending(matching_days(lo, hi, p)),
        forall|n: int|
            #[trigger] matching_days(lo, hi, p).contains(n) <==> lo <= n <= hi && p(n),
    decreases hi - lo + 1,
{
    if lo <= hi {
        lemma_matching_days(lo, hi - 1, p);
        let before = matching_days(lo, hi - 1, p);
        let all = matching_days(lo, hi, p);
        assert forall|i: int| 0 <= i < before.len() implies lo <= #[trigger] before[i] < hi by {
            assert(before.contains(before[i]));
        }
        assert forall|n: int| #[trigger] all.contains(n) <==> lo <= n <= hi && p(n) by {
            if all.contains(n) {
                let i = choose|i: int| 0 <= i < all.len() && all[i] == n;
                if i < before.len() {
                    assert(before[i] == n);
                    assert(before.contains(n));
                }
            }
            if lo <= n <= hi && p(n) {
                if n == hi {
                    assert(all[before.len() as int] == n);
                } else {
                    assert(before.contains(n));
                    let i = choose|i: int| 0 <= i < before.len() && before[i] == n;
                    assert(all[i] == n);
                }
            }
        }
    }
}

/// Two ascending lists with the same days are the same list.
pub proof fn lemma_ascending_unique(a: Seq<int>, b: Seq<int>)
    requires
        ascending(a),
        ascending(b),
        forall|n: int| a.contains(n) <==> b.contains(n),
    ensures
        a == b,
    decreases a.len(),
{
    if a.len() == 0 {
        if b.len() > 0 {
            assert(b.contains(b[0]));
            assert(false);
        }
    } else {
        assert(a.contains(a.last()));
        assert(b.contains(a.last()));
        assert(b.contains(b.last()));
        assert(a.contains(b.last()));
        let x = a.last();
        let i = choose|i: int| 0 <= i < b.len() && b[i] == x;
        let j = choose|j: int| 0 <= j < a.len() && a[j] == b.last();
        assert(a.last() == b.last());
        let a2 = a.drop_last();
        let b2 = b.drop_last();
        assert forall|n: int| a2.contains(n) <==> b2.contains(n) by {
            if a2.contains(n) {
                let k = choose|k: int| 0 <= k < a2.len() && a2[k] == n;
                assert(a[k] == n);
                assert(a.contains(n));
                let l = choose|l: int| 0 <= l < b.len() && b[l] == n;
                assert(b2[l] == n);
            }
            if b2.contains(n) {
                let k = choose|k: int| 0 <= k < b2.len() && b2[k] == n;
                assert(b[k] == n);
                assert(b.contains(n));
                let l = choose|l: int| 0 <= l < a.len() && a[l] == n;
                assert(a2[l] == n);
            }
        }
        lemma_ascending_unique(a2, b2);
        assert(a == a2.push(x));
        assert(b == b2.push(x));
    }
}

/// An ascending list of exactly the matching days is `matching_days`.
pub proof fn lemma_is_matching_days(s: Seq<int>, lo: int, hi: int, p: spec_fn(int) -> bool)
    requires
        ascending(s),
        forall|n: int| #[trigger] s.contains(n) <==> lo <= n <= hi && p(n),
    ensures
        s == matching_days(lo, hi, p),
{
    lemma_matching_days(lo, hi, p);
    lemma_ascending_unique(s, matching_days(lo, hi, p));
}

/// Predicates that agree from `lo` to `hi` match the same days.
pub proof fn lemma_matching_agree(
    lo: int,
    hi: int,
    p: spec_fn(int) -> bool,
    q: spec_fn(int) -> bool,
)
    requires
        forall|n: int| lo <= n <= hi ==> #[trigger] p(n) == q(n),
    ensures
        matching_days(lo, hi, p) == matching_days(lo, hi, q),
    decreases hi - lo + 1,
{
    if lo <= hi {
        lemma_matching_agree(lo, hi - 1, p, q);
    }
}

/// The days up to `mid` come first.
pub proof fn lemma_matching_split(lo: int, mid: int, hi: int, p: spec_fn(int) -> bool)
    requires
        lo <= mid + 1,
        mid <= hi,
    ensures
        matching_days(lo, hi, p) == matching_days(lo, mid, p) + matching_days(mid + 1, hi, p),
    decreases hi - mid,
{
    if mid < hi {
        lemma_matching_split(lo, mid, hi - 1, p);
        assert(matching_days(lo, hi, p) =~= matching_days(lo, mid, p) + matching_days(
            mid + 1,
            hi,
            p,
        ));
    } else {
        assert(matching_days(mid + 1, hi, p) =~= Seq::empty());
        assert(matching_days(lo, hi, p) =~= matching_days(lo, mid, p) + matching_days(
            mid + 1,
            hi,
            p,
        ));
    }
}

/// The day at position `i` has `i` matching days before it.
pub proof fn lemma_matching_rank(lo: int, hi: int, p: spec_fn(int) -> bool, i: int)
    requires
        0 <= i < matching_days(lo, hi, p).len(),
    ensures
        lo <= matching_days(lo, hi, p)[i] <= hi,
        p(matching_days(lo, hi, p)[i]),
        matching_days(lo, matching_days(lo, hi, p)[i] - 1, p).len() == i,
    decreases hi - lo + 1,
{
    if lo <= hi {
        let before = matching_days(lo, hi - 1, p);
        if i < before.len() {
            lemma_matching_rank(lo, hi - 1, p, i);
        }
    }
}

/// An ascending list of days from `lo` to `hi` is not longer than the span.
pub proof fn lemma_ascending_len(s: Seq<int>, lo: int, hi: int)
    requires
        ascending(s),
        s.len() > 0,
        forall|i: int| 0 <= i < s.len() ==> lo <= #[trigger] s[i] <= hi,
    ensures
        s.len() <= s.last() - lo + 1,
        s.len() <= hi - lo + 1,
    decreases s.len(),
{
    if s.len() > 1 {
        let front = s.drop_last();
        assert(front.last() == s[s.len() - 2]);
        lemma_ascending_len(front, lo, hi);
    }
    assert(s[s.len() - 1] == s.last());
}

/// `within` keeps exactly the entries from `lo` to `hi`, and the order of an
/// ascending list.
pub proof fn lemma_within(s: Seq<int>, lo: int, hi: int)
    ensures
        forall|n: int| #[trigger] within(s, lo, hi).contains(n) <==> s.contains(n) && lo <= n <= hi,
        ascending(s) ==> ascending(within(s, lo, hi)),
    decreases s.len(),
{
    if s.len() > 0 {
        let front = s.drop_last();
        let x = s.last();
        let before = within(front, lo, hi);
        let all = within(s, lo, hi);
        lemma_within(front, lo, hi);
        assert forall|n: int| s.contains(n) <==> front.contains(n) || n == x by {
            if front.contains(n) {
                let i = choose|i: int| 0 <= i < front.len() && front[i] == n;
                assert(s[i] == n);
            }
            assert(s[s.len() - 1] == x);
            if s.contains(n) {
                let i = choose|i: int| 0 <= i < s.len() && s[i] == n;
                if i < front.len() {
                    assert(front[i] == n);
                }
            }
        }
        if lo <= x <= hi {
            assert forall|n: int| #[trigger] all.contains(n) <==> before.contains(n) || n == x by {
                if before.contains(n) {
                    let i = choose|i: int| 0 <= i < before.len() && before[i] == n;
                    assert(all[i] == n);
                }
                assert(all[before.len() as int] == x);
            }
            if ascending(s) {
                assert(ascending(front));
                assert forall|i: int| 0 <= i < before.len() implies before[i] < x by {
                    assert(before.contains(before[i]));
                    let j = choose|j: int| 0 <= j < front.len() && front[j] == before[i];
                    assert(s[j] < s[s.len() - 1]);
                }
            }
        } else if ascending(s) {
            assert(ascending(front));
        }
    }
}

// ── Lists in memory ─────────────────────────────────────

/// Adds `n` to an ascending list unless it is there.
fn insert_day(v: &mut Vec<i32>, n: i32)
    requires
        ascending(ints(old(v)@)),
    ensures
        ascending(ints(final(v)@)),
        forall|k: int|
            #[trigger] ints(final(v)@).contains(k) <==> ints(old(v)@).contains(k) || k == n,
{
    let ghost before = ints(v@);
    let mut i: usize = v.len();
    while i > 0 && v[i - 1] > n
        invariant
            i <= v.len(),
            ints(v@) == before,
            ascending(before),
            forall|k: int| i <= k < v.len() ==> before[k] > n,
        decreases i,
    {
        i -= 1;
    }
    if i > 0 && v[i - 1] == n {
        assert(before[i - 1] == n);
        return;
    }
    assert(forall|k: int| 0 <= k < i ==> before[k] < n) by {
        if i > 0 {
            assert(before[i - 1] < n);
        }
    }
    v.insert(i, n);
    assert(ints(v@) == before.insert(i as int, n as int));
    let ghost after = ints(v@);
    assert forall|k: int| #[trigger] after.contains(k) <==> before.contains(k) || k == n by {
        if after.contains(k) {
            let j = choose|j: int| 0 <= j < after.len() && after[j] == k;
            if j < i {
                assert(before[j] == k);
            } else if j > i {
                assert(before[j - 1] == k);
            }
        }
        if before.contains(k) {
            let j = choose|j: int| 0 <= j < before.len() && before[j] == k;
            if j < i {
                assert(after[j] == k);
            } else {
                assert(after[j + 1] == k);
            }
        }
        if k == n {
            assert(after[i as int] == n);
        }
    }
}

/// The days of a list in ascending order, each once.
pub fn sorted_days(v: &Vec<i32>) -> (r: Vec<i32>)
    ensures
        ascending(ints(r@)),
        forall|k: int| #[trigger] ints(r@).contains(k) <==> ints(v@).contains(k),
{
    let mut out: Vec<i32> = Vec::new();
    let mut i: usize = 0;
    while i < v.len()
        invariant
            i <= v.len(),
            ascending(ints(out@)),
            forall|k: int|
                #[trigger] ints(out@).contains(k) <==> ints(v@).take(i as int).contains(k),
        decreases v.len() - i,
    {
        insert_day(&mut out, v[i]);
        proof {
            let a = ints(v@).take(i as int);
            let b = ints(v@).take(i + 1);
            assert(b == a.push(v@[i as int] as int));
            assert forall|k: int| b.contains(k) <==> a.contains(k) || k == v@[i as int] by {
                if a.contains(k) {
                    let j = choose|j: int| 0 <= j < a.len() && a[j] == k;
                    assert(b[j] == k);
                }
                assert(b[i as int] == v@[i as int]);
            }
        }
        i += 1;
    }
    assert(ints(v@).take(i as int) == ints(v@));
    out
}

/// The days of an ascending list that lie from `lo` to `hi`.
pub fn days_within(v: &Vec<i32>, lo: i32, hi: i32) -> (r: Vec<i32>)
    requires
        ascending(ints(v@)),
    ensures
        ascending(ints(r@)),
        forall|k: int|
            #[trigger] ints(r@).contains(k) <==> ints(v@).contains(k) && lo <= k <= hi,
{
    let mut out: Vec<i32> = Vec::new();
    let mut i: usize = 0;
    while i < v.len()
        invariant
            i <= v.len(),
            ascending(ints(v@)),
            ascending(ints(out@)),
            forall|k: int|
                #[trigger] ints(out@).contains(k) <==> ints(v@).take(i as int).contains(k) && lo
                    <= k <= hi,
        decreases v.len() - i,
    {
        let n = v[i];
        let ghost before = ints(out@);
        let ghost a = ints(v@).take(i as int);
        let ghost b = ints(v@).take(i + 1);
        proof {
            assert(b == a.push(n as int));
            assert forall|k: int| b.contains(k) <==> a.contains(k) || k == n by {
                if a.contains(k) {
                    let j = choose|j: int| 0 <= j < a.len() && a[j] == k;
                    assert(b[j] == k);
                }
                assert(b[i as int] == n);
            }
            assert forall|j: int| 0 <= j < before.len() implies before[j] < n by {
                assert(before.contains(before[j]));
                assert(a.contains(before[j]));
                let l = choose|l: int| 0 <= l < a.len() && a[l] == before[j];
                assert(ints(v@)[l] < ints(v@)[i as int]);
            }
        }
        if lo <= n && n <= hi {
            out.push(n);
            proof {
                let after = ints(out@);
                assert(after == before.push(n as int));
                assert forall|k: int| #[trigger] after.contains(k) <==> before.contains(k) || k
                    == n by {
                    if before.contains(k) {
                        let j = choose|j: int| 0 <= j < before.len() && before[j] == k;
                        assert(after[j] == k);
                    }
                    assert(after[before.len() as int] == n);
                }
            }
        }
        i += 1;
    }
    assert(ints(v@).take(i as int) == ints(v@));
    out
}

/// Whether the list names day `n`.
pub fn has_day(v: &Vec<i32>, n: i32) -> (b: bool)
    ensures
        b == ints(v@).contains(n as int),
{
    let mut i: usize = 0;
    while i < v.len()
        invariant
            i <= v.len(),
            forall|k: int| 0 <= k < i ==> v@[k] != n,
        decreases v.len() - i,
    {
        if v[i] == n {
            assert(ints(v@)[i as int] == n);
            return true;
        }
        i += 1;
    }
    false
}

// ── Sets ────────────────────────────────────────────────

/// A set of dates, such as the public holidays.
pub struct DateSet {
    days: HashSet<i32>,
}

impl View for DateSet {
    type V = Set<int>;

    closed spec fn view(&self) -> Set<int> {
        Set::new(|n: int| i32::MIN <= n <= i32::MAX && self.days@.contains(n as i32))
    }
}

impl DateSet {
    pub fn new() -> (r: DateSet)
        ensures
            r@ == Set::<int>::empty(),
    {
        let r = DateSet { days: HashSet::new() };
        assert(r@ =~= Set::<int>::empty());
        r
    }

    /// Adds a date.
    pub fn insert(&mut self, d: Date)
        ensures
            final(self)@ == old(self)@.insert(d@),
    {
        let n = d.days();
        self.days.insert(n);
        assert(self@ =~= old(self)@.insert(d@));
    }

    /// Whether day number `n` is in the set.
    pub fn has(&self, n: i32) -> (b: bool)
        ensures
            b == self@.contains(n as int),
    {
        self.days.contains(&n)
    }
}

} // verus!
