//! Stable sorting by a number.

use vstd::prelude::*;

use crate::model;
use crate::model::OccurrenceView;
use crate::model::TaskOccurrence;

verus! {

// ── Model ───────────────────────────────────────────────

/// A ranked list with one more entry: behind those that rank no higher.
pub open spec fn rank_in<T>(s: Seq<(int, T)>, x: (int, T)) -> Seq<(int, T)>
    decreases s.len(),
{
    if s.len() == 0 || s.last().0 <= x.0 {
        s.push(x)
    } else {
        rank_in(s.drop_last(), x).push(s.last())
    }
}

/// The entries of a list by ascending number; those with the same number keep
/// their order.
pub open spec fn ranked<T>(s: Seq<(int, T)>) -> Seq<(int, T)>
    decreases s.len(),
{
    if s.len() == 0 {
        s
    } else {
        rank_in(ranked(s.drop_last()), s.last())
    }
}

/// The entries without their numbers.
pub open spec fn entries<T>(s: Seq<(int, T)>) -> Seq<T> {
    Seq::new(s.len(), |i: int| s[i].1)
}

/// Whether the numbers of a list ascend.
pub open spec fn is_ranked<T>(s: Seq<(int, T)>) -> bool {
    forall|i: int, j: int| 0 <= i <= j < s.len() ==> s[i].0 <= s[j].0
}

/// The entries of a list with the number `n`, in their order.
pub open spec fn with_number<T>(s: Seq<(int, T)>, n: int) -> Seq<(int, T)>
    decreases s.len(),
{
    if s.len() == 0 {
        s
    } else if s.last().0 == n {
        with_number(s.drop_last(), n).push(s.last())
    } else {
        with_number(s.drop_last(), n)
    }
}

// ── Laws ────────────────────────────────────────────────

/// A ranked list is in ascending order, has the same entries, and those with
/// the same number are in the order in which they were.
pub proof fn law_ranked<T>(s: Seq<(int, T)>, n: int)
    ensures
        is_ranked(ranked(s)),
        ranked(s).to_multiset() == s.to_multiset(),
        ranked(s).len() == s.len(),
        with_number(ranked(s), n) == with_number(s, n),
    decreases s.len(),
{
    broadcast use vstd::seq_lib::group_to_multiset_ensures;

    if s.len() > 0 {
        law_ranked(s.drop_last(), n);
        lemma_rank_in(ranked(s.drop_last()), s.last(), n);
        assert(s.drop_last().push(s.last()) == s);
    }
}

proof fn lemma_rank_in<T>(s: Seq<(int, T)>, x: (int, T), n: int)
    requires
        is_ranked(s),
    ensures
        is_ranked(rank_in(s, x)),
        rank_in(s, x).to_multiset() == s.to_multiset().insert(x),
        rank_in(s, x).len() == s.len() + 1,
        forall|i: int|
            0 <= i < rank_in(s, x).len() ==> (#[trigger] rank_in(s, x)[i]).0 <= if s.len() > 0
                && s.last().0 > x.0 {
                s.last().0
            } else {
                x.0
            },
        with_number(rank_in(s, x), n) == if x.0 == n {
            with_number(s, n).push(x)
        } else {
            with_number(s, n)
        },
    decreases s.len(),
{
    broadcast use vstd::seq_lib::group_to_multiset_ensures;

    if s.len() == 0 || s.last().0 <= x.0 {
        assert(s.push(x).drop_last() == s);
        if s.len() > 0 {
            assert forall|i: int| 0 <= i < s.len() implies (#[trigger] s[i]).0 <= x.0 by {
                assert(s[i].0 <= s[s.len() - 1].0);
            }
        }
    } else {
        let front = s.drop_last();
        let inner = rank_in(front, x);
        let last = s.last();
        lemma_rank_in(front, x, n);
        assert(front.push(last) == s);
        assert(inner.push(last).drop_last() == inner);
        if front.len() > 0 {
            assert(front.last() == s[s.len() - 2]);
        }
        assert(inner.push(last).to_multiset() == inner.to_multiset().insert(last));
        assert(s.to_multiset() == front.to_multiset().insert(last));
        assert(front.to_multiset().insert(x).insert(last) =~= front.to_multiset().insert(
            last,
        ).insert(x));
        if last.0 == n {
            assert(x.0 != n);
        } else if x.0 == n {
            assert(with_number(inner.push(last), n) == with_number(inner, n));
        }
    }
}

// ── Lists of occurrences ────────────────────────────────

/// An occurrence and the number by which it is ranked.
pub struct Ranked {
    pub rank: i64,
    pub occurrence: TaskOccurrence,
}

/// The views of a list of ranked occurrences.
pub open spec fn ranked_views(v: Seq<Ranked>) -> Seq<(int, OccurrenceView)> {
    Seq::new(v.len(), |i: int| (v[i].rank as int, v[i].occurrence.view()))
}

/// Where an entry is ranked in.
proof fn lemma_rank_at<T>(s: Seq<(int, T)>, x: (int, T), i: int)
    requires
        0 <= i <= s.len(),
        i > 0 ==> s[i - 1].0 <= x.0,
        forall|k: int| i <= k < s.len() ==> (#[trigger] s[k]).0 > x.0,
    ensures
        rank_in(s, x) == s.insert(i, x),
    decreases s.len(),
{
    if i < s.len() {
        let front = s.drop_last();
        assert(s[s.len() - 1].0 > x.0);
        lemma_rank_at(front, x, i);
        assert(rank_in(s, x) =~= s.insert(i, x));
    } else {
        assert(rank_in(s, x) =~= s.insert(i, x));
    }
}

/// Adds an occurrence to a ranked list, behind those that rank no higher.
pub fn rank_occurrence(v: &mut Vec<Ranked>, item: Ranked)
    ensures
        ranked_views(final(v)@) == rank_in(
            ranked_views(old(v)@),
            (item.rank as int, item.occurrence.view()),
        ),
{
    let ghost before = ranked_views(v@);
    let ghost x = (item.rank as int, item.occurrence.view());
    let mut i: usize = v.len();
    while i > 0 && v[i - 1].rank > item.rank
        invariant
            before == ranked_views(v@),
            x.0 == item.rank,
            i <= v.len(),
            forall|k: int| i <= k < v.len() ==> (#[trigger] before[k]).0 > x.0,
        decreases i,
    {
        i -= 1;
    }
    proof {
        lemma_rank_at(before, x, i as int);
    }
    v.insert(i, item);
    assert(ranked_views(v@) =~= before.insert(i as int, x));
}

/// The occurrences of a ranked list.
pub fn unranked(v: Vec<Ranked>) -> (r: Vec<TaskOccurrence>)
    ensures
        model::occurrence_views(r@) == entries(ranked_views(v@)),
{
    let ghost all = ranked_views(v@);
    let mut out: Vec<TaskOccurrence> = Vec::new();
    for item in it: v
        invariant
            all == ranked_views(it.seq()),
            model::occurrence_views(out@) == entries(all).take(it.index()),
    {
        let ghost before = model::occurrence_views(out@);
        let ghost i = it.index();
        assert(all[i].1 == item.occurrence.view());
        out.push(item.occurrence);
        assert(model::occurrence_views(out@) =~= before.push(all[i].1));
        assert(entries(all).take(i + 1) =~= entries(all).take(i).push(all[i].1));
    }
    assert(entries(all).take(all.len() as int) =~= entries(all));
    out
}

} // verus!
