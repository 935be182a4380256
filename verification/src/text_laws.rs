//! What holds of all texts.

use vstd::prelude::*;

use crate::text;

verus! {

/// Decimal notation writes the number, without a leading zero; a filled one has
/// the asked width at least and writes the same number.
pub proof fn law_decimal(n: nat, width: nat)
    ensures
        text::digits_value(text::decimal(n)) == Some(n),
        n > 0 ==> text::decimal(n)[0] != '0',
        text::zero_padded(n, width).len() >= width,
        text::digits_value(text::zero_padded(n, width)) == Some(n),
{
    lemma_decimal(n);
    let d = text::decimal(n);
    if d.len() < width {
        lemma_leading_zeros(d, (width - d.len()) as nat);
    }
}

proof fn lemma_decimal(n: nat)
    ensures
        text::decimal(n).len() > 0,
        text::digits_value(text::decimal(n)) == Some(n),
        n > 0 ==> text::decimal(n)[0] != '0',
    decreases n,
{
    let d = text::decimal(n);
    if n >= 10 {
        lemma_decimal(n / 10);
        assert(d.drop_last() =~= text::decimal(n / 10));
        assert(d.last() == text::digit(n % 10));
    } else {
        assert(d.last() == d[0]);
    }
}

proof fn lemma_leading_zeros(d: Seq<char>, count: nat)
    requires
        text::digits_value(d) is Some,
    ensures
        text::digits_value(text::zeros(count) + d) == text::digits_value(d),
    decreases d.len(),
{
    let all = text::zeros(count) + d;
    if d.len() == 1 {
        lemma_zeros(count);
        assert(all.drop_last() =~= text::zeros(count));
        assert(all.last() == d[0]);
        if count == 0 {
            assert(all =~= d);
        }
    } else {
        assert(d.drop_last().len() > 0);
        lemma_leading_zeros(d.drop_last(), count);
        assert(all.drop_last() =~= text::zeros(count) + d.drop_last());
        assert(all.last() == d.last());
    }
}

proof fn lemma_zeros(count: nat)
    ensures
        count > 0 ==> text::digits_value(text::zeros(count)) == Some(0nat),
    decreases count,
{
    let z = text::zeros(count);
    if count > 0 {
        lemma_zeros((count - 1) as nat);
        assert(z.drop_last() =~= text::zeros((count - 1) as nat));
        assert(z.last() == '0');
    }
}

/// A trimmed text is the part of the text between the white space at its ends;
/// the places where it begins and ends are given.
pub proof fn law_trimmed(s: Seq<char>) -> (ends: (int, int))
    ensures
        0 <= ends.0 <= ends.1 <= s.len(),
        text::trimmed(s) == s.subrange(ends.0, ends.1),
        forall|i: int| 0 <= i < ends.0 || ends.1 <= i < s.len() ==> text::is_white(#[trigger] s[i]),
        ends.0 < ends.1 ==> !text::is_white(s[ends.0]) && !text::is_white(s[ends.1 - 1]),
{
    let a = lemma_leading(s);
    let rest = s.subrange(a, s.len() as int);
    let b = lemma_trailing(rest);
    assert(rest.subrange(0, b) =~= s.subrange(a, a + b));
    assert forall|i: int| 0 <= i < a || a + b <= i < s.len() implies text::is_white(
        #[trigger] s[i],
    ) by {
        if i >= a + b {
            assert(rest[i - a] == s[i]);
        }
    }
    if b > 0 {
        assert(rest[b - 1] == s[a + b - 1]);
    }
    (a, a + b)
}

proof fn lemma_leading(s: Seq<char>) -> (a: int)
    ensures
        0 <= a <= s.len(),
        text::without_leading_white(s) == s.subrange(a, s.len() as int),
        forall|i: int| 0 <= i < a ==> text::is_white(#[trigger] s[i]),
        a < s.len() ==> !text::is_white(s[a]),
    decreases s.len(),
{
    if s.len() > 0 && text::is_white(s[0]) {
        let rest = s.drop_first();
        let a = lemma_leading(rest);
        assert(rest.subrange(a, rest.len() as int) =~= s.subrange(a + 1, s.len() as int));
        assert forall|i: int| 0 <= i < a + 1 implies text::is_white(#[trigger] s[i]) by {
            if i > 0 {
                assert(rest[i - 1] == s[i]);
            }
        }
        a + 1
    } else {
        assert(s.subrange(0, s.len() as int) =~= s);
        0
    }
}

proof fn lemma_trailing(s: Seq<char>) -> (b: int)
    ensures
        0 <= b <= s.len(),
        text::without_trailing_white(s) == s.subrange(0, b),
        forall|i: int| b <= i < s.len() ==> text::is_white(#[trigger] s[i]),
        b > 0 ==> !text::is_white(s[b - 1]),
    decreases s.len(),
{
    if s.len() > 0 && text::is_white(s.last()) {
        let front = s.drop_last();
        let b = lemma_trailing(front);
        assert(front.subrange(0, b) =~= s.subrange(0, b));
        assert forall|i: int| b <= i < s.len() implies text::is_white(#[trigger] s[i]) by {
            if i < front.len() {
                assert(front[i] == s[i]);
            }
        }
        b
    } else {
        assert(s.subrange(0, s.len() as int) =~= s);
        s.len() as int
    }
}

/// A text without the run of a character that it ends in is the rest, and the
/// rest does not end in it.
pub proof fn law_without_trailing(s: Seq<char>, c: char)
    ensures
        ({
            let r = text::without_trailing(s, c);
            &&& r.len() <= s.len()
            &&& r == s.take(r.len() as int)
            &&& forall|i: int| r.len() <= i < s.len() ==> #[trigger] s[i] == c
            &&& r.len() > 0 ==> r.last() != c
        }),
    decreases s.len(),
{
    let r = text::without_trailing(s, c);
    if s.len() > 0 && s.last() == c {
        let front = s.drop_last();
        law_without_trailing(front, c);
        assert(front.take(r.len() as int) =~= s.take(r.len() as int));
        assert forall|i: int| r.len() <= i < s.len() implies #[trigger] s[i] == c by {
            if i < front.len() {
                assert(front[i] == s[i]);
            }
        }
    } else {
        assert(s.take(s.len() as int) =~= s);
    }
}

/// What stands before the first of a character is the beginning of the text,
/// does not hold it, and is all of the text unless the character comes next.
pub proof fn law_before_first(s: Seq<char>, c: char)
    ensures
        ({
            let r = text::before_first(s, c);
            &&& r.len() <= s.len()
            &&& r == s.take(r.len() as int)
            &&& !r.contains(c)
            &&& r.len() < s.len() ==> s[r.len() as int] == c
        }),
    decreases s.len(),
{
    let r = text::before_first(s, c);
    if s.len() > 0 && s[0] != c {
        let rest = s.drop_first();
        law_before_first(rest, c);
        let inner = text::before_first(rest, c);
        assert(r =~= s.take(r.len() as int)) by {
            assert forall|i: int| 0 <= i < r.len() implies r[i] == s[i] by {
                if i > 0 {
                    assert(inner[i - 1] == rest.take(inner.len() as int)[i - 1]);
                }
            }
        }
        assert forall|i: int| 0 <= i < r.len() implies r[i] != c by {
            if i > 0 {
                assert(inner.contains(inner[i - 1]));
            }
        }
    } else {
        assert(r =~= s.take(0));
    }
}

/// The pieces of a text put together again, with the separator between them,
/// are the text; and none of them holds the separator.
pub proof fn law_pieces(s: Seq<char>, sep: char)
    ensures
        text::pieces(s, sep).len() > 0,
        text::joined(text::pieces(s, sep), seq![sep]) == s,
        forall|i: int|
            0 <= i < text::pieces(s, sep).len() ==> !(#[trigger] text::pieces(s, sep)[i]).contains(
                sep,
            ),
    decreases s.len(),
{
    let p = text::pieces(s, sep);
    if s.len() == 0 {
        assert(text::joined(p, seq![sep]) =~= s);
    } else {
        let front = s.drop_last();
        let before = text::pieces(front, sep);
        let x = s.last();
        law_pieces(front, sep);
        if x == sep {
            assert(p.drop_last() =~= before);
            assert(text::joined(p, seq![sep]) =~= s);
        } else {
            let last = before.last();
            assert(p.last() == last.push(x));
            if before.len() == 1 {
                assert(text::joined(p, seq![sep]) =~= s);
            } else {
                assert(p.drop_last() =~= before.drop_last());
                assert(text::joined(p, seq![sep]) =~= text::joined(before, seq![sep]).push(x));
                assert(text::joined(p, seq![sep]) =~= s);
            }
            assert forall|i: int| 0 <= i < p.len() implies !(#[trigger] p[i]).contains(sep) by {
                assert(!before[i].contains(sep));
                if i == p.len() - 1 {
                    if p[i].contains(sep) {
                        let k = choose|k: int| 0 <= k < p[i].len() && p[i][k] == sep;
                        assert(before[i][k] == sep);
                        assert(before[i].contains(sep));
                    }
                }
            }
        }
    }
}

/// A text that is too long is cut after so many characters, and an ellipsis
/// follows; any other stays as it is.
pub proof fn law_cut(s: Seq<char>, n: nat)
    ensures
        s.len() <= n ==> text::shortened(s, n) == s,
        s.len() > n ==> text::shortened(s, n) == s.take(n as int).push('…'),
{
    reveal_strlit("…");
    if s.len() > n {
        assert("…"@ =~= seq!['…']);
        assert(text::shortened(s, n) =~= s.take(n as int).push('…'));
    }
}

} // verus!
