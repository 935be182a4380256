//! Text building blocks: exact models of the string operations that the other
//! modules compose.
//!
//! A text is modelled by its sequence of characters. Every function that
//! builds a text states the resulting sequence.

use vstd::prelude::*;

verus! {

/// `<str as PartialEq>::eq`: two texts are equal when their characters are.
pub assume_specification[ <str as PartialEq>::eq ](x: &str, y: &str) -> (b: bool)
    ensures
        b == (x@ == y@),
;

/// `String::push` appends one character.
pub assume_specification[ String::push ](s: &mut String, c: char)
    ensures
        final(s)@ == old(s)@.push(c),
;

// ── Models ──────────────────────────────────────────────

/// The characters of an optional text.
pub open spec fn opt_text(o: Option<String>) -> Option<Seq<char>> {
    match o {
        Some(s) => Some(s@),
        None => None,
    }
}

/// The characters of every text in a list.
pub open spec fn texts(v: Seq<String>) -> Seq<Seq<char>> {
    Seq::new(v.len(), |i: int| v[i]@)
}

/// The parts in order, `sep` between neighbours.
pub open spec fn joined(parts: Seq<Seq<char>>, sep: Seq<char>) -> Seq<char>
    decreases parts.len(),
{
    if parts.len() == 0 {
        Seq::empty()
    } else if parts.len() == 1 {
        parts[0]
    } else {
        joined(parts.drop_last(), sep) + sep + parts.last()
    }
}

/// The decimal digit of a number below ten.
pub open spec fn digit(n: nat) -> char {
    (48 + n) as char
}

/// Decimal notation without leading zeros.
pub open spec fn decimal(n: nat) -> Seq<char>
    decreases n,
{
    if n < 10 {
        seq![digit(n)]
    } else {
        decimal(n / 10).push(digit(n % 10))
    }
}

/// Decimal notation with a minus sign for negative numbers.
pub open spec fn signed_decimal(n: int) -> Seq<char> {
    if n < 0 {
        seq!['-'] + decimal((-n) as nat)
    } else {
        decimal(n as nat)
    }
}

/// `count` zeros.
pub open spec fn zeros(count: nat) -> Seq<char> {
    Seq::new(count, |i: int| '0')
}

/// Decimal notation filled up with leading zeros to at least `width` digits.
pub open spec fn zero_padded(n: nat, width: nat) -> Seq<char> {
    if decimal(n).len() >= width {
        decimal(n)
    } else {
        zeros((width - decimal(n).len()) as nat) + decimal(n)
    }
}

/// The characters with the Unicode property `White_Space`.
pub open spec fn is_white(c: char) -> bool {
    let n = c as u32;
    ||| 0x9 <= n <= 0xD
    ||| n == 0x20
    ||| n == 0x85
    ||| n == 0xA0
    ||| n == 0x1680
    ||| 0x2000 <= n <= 0x200A
    ||| n == 0x2028
    ||| n == 0x2029
    ||| n == 0x202F
    ||| n == 0x205F
    ||| n == 0x3000
}

/// `s` without its leading white space.
pub open spec fn without_leading_white(s: Seq<char>) -> Seq<char>
    decreases s.len(),
{
    if s.len() > 0 && is_white(s[0]) {
        without_leading_white(s.drop_first())
    } else {
        s
    }
}

/// `s` without its trailing white space.
pub open spec fn without_trailing_white(s: Seq<char>) -> Seq<char>
    decreases s.len(),
{
    if s.len() > 0 && is_white(s.last()) {
        without_trailing_white(s.drop_last())
    } else {
        s
    }
}

/// `s` without white space at either end.
pub open spec fn trimmed(s: Seq<char>) -> Seq<char> {
    without_trailing_white(without_leading_white(s))
}

/// `s` without the run of `c` that it ends in.
pub open spec fn without_trailing(s: Seq<char>, c: char) -> Seq<char>
    decreases s.len(),
{
    if s.len() > 0 && s.last() == c {
        without_trailing(s.drop_last(), c)
    } else {
        s
    }
}

/// The pieces of `s` between the occurrences of `sep`; one more than there are
/// occurrences.
pub open spec fn pieces(s: Seq<char>, sep: char) -> Seq<Seq<char>>
    decreases s.len(),
{
    if s.len() == 0 {
        seq![Seq::<char>::empty()]
    } else {
        let before = pieces(s.drop_last(), sep);
        if s.last() == sep {
            before.push(Seq::<char>::empty())
        } else {
            before.update(before.len() - 1, before.last().push(s.last()))
        }
    }
}

/// Whether `needle` stands in `s` as a contiguous run.
pub open spec fn has_run(s: Seq<char>, needle: Seq<char>) -> bool {
    exists|i: int| #[trigger] run_at(s, needle, i)
}

/// Whether `needle` stands in `s` at position `i`.
pub open spec fn run_at(s: Seq<char>, needle: Seq<char>, i: int) -> bool {
    &&& 0 <= i
    &&& i + needle.len() <= s.len()
    &&& s.subrange(i, i + needle.len()) == needle
}

/// Whether position `i` is the first at which `needle` stands in `s`.
pub open spec fn first_run_at(s: Seq<char>, needle: Seq<char>, i: int) -> bool {
    run_at(s, needle, i) && forall|j: int| 0 <= j < i ==> !run_at(s, needle, j)
}

/// `s` with the first `needle` in it replaced; `s` itself without one.
pub open spec fn replaced_first(s: Seq<char>, needle: Seq<char>, by: Seq<char>) -> Seq<char> {
    if has_run(s, needle) {
        let i = choose|i: int| first_run_at(s, needle, i);
        s.take(i) + by + s.skip(i + needle.len())
    } else {
        s
    }
}

/// `s` up to, not including, the first `c`; all of it without one.
pub open spec fn before_first(s: Seq<char>, c: char) -> Seq<char>
    decreases s.len(),
{
    if s.len() == 0 || s[0] == c {
        Seq::empty()
    } else {
        seq![s[0]] + before_first(s.drop_first(), c)
    }
}

/// `s` if it has at most `n` characters; else its first `n` and an ellipsis.
pub open spec fn shortened(s: Seq<char>, n: nat) -> Seq<char> {
    if s.len() > n {
        s.take(n as int) + "…"@
    } else {
        s
    }
}

/// The characters that make up the first `n` bytes of `s` in UTF-8, if a
/// character ends there.
pub open spec fn byte_prefix(s: Seq<char>, n: int) -> Option<Seq<char>> {
    let bytes = vstd::utf8::encode_utf8(s);
    if vstd::utf8::is_char_boundary(bytes, n) {
        Some(vstd::utf8::decode_utf8(bytes.subrange(0, n)))
    } else {
        None
    }
}

/// The number that some decimal digits write; nothing if there are none or one
/// of the characters is no digit.
pub open spec fn digits_value(s: Seq<char>) -> Option<nat>
    decreases s.len(),
{
    if s.len() == 0 {
        None
    } else if !('0' <= s.last() <= '9') {
        None
    } else if s.len() == 1 {
        Some((s[0] as u32 - 48) as nat)
    } else {
        match digits_value(s.drop_last()) {
            Some(n) => Some((10 * n + (s.last() as u32 - 48)) as nat),
            None => None,
        }
    }
}

/// The number that a text writes in decimal digits, with or without a sign.
pub open spec fn written_number(s: Seq<char>) -> Option<int> {
    if s.len() > 0 && s[0] == '-' {
        match digits_value(s.drop_first()) {
            Some(n) => Some(-(n as int)),
            None => None,
        }
    } else if s.len() > 0 && s[0] == '+' {
        match digits_value(s.drop_first()) {
            Some(n) => Some(n as int),
            None => None,
        }
    } else {
        match digits_value(s) {
            Some(n) => Some(n as int),
            None => None,
        }
    }
}

/// The number that a text writes, if it fits an `i64`.
pub open spec fn i64_value(s: Seq<char>) -> Option<int> {
    match written_number(s) {
        Some(n) => if i64::MIN <= n <= i64::MAX {
            Some(n)
        } else {
            None
        },
        None => None,
    }
}

// ── Characters and copies ───────────────────────────────

/// The characters of `s`.
pub fn chars_of(s: &str) -> (r: Vec<char>)
    ensures
        r@ == s@,
{
    let mut v: Vec<char> = Vec::new();
    for c in it: s.chars()
        invariant
            it.seq() == s@,
            v@ == s@.take(it.index()),
    {
        v.push(c);
        assert(s@.take(it.index() + 1) == s@.take(it.index()).push(s@[it.index()]));
    }
    v
}

/// The text of the characters from `from` up to, not including, `to`.
pub fn text_of(chars: &Vec<char>, from: usize, to: usize) -> (r: String)
    requires
        from <= to <= chars.len(),
    ensures
        r@ == chars@.subrange(from as int, to as int),
{
    let mut out = String::new();
    let mut i: usize = from;
    while i < to
        invariant
            from <= i <= to <= chars.len(),
            out@ == chars@.subrange(from as int, i as int),
        decreases to - i,
    {
        out.push(chars[i]);
        i += 1;
        assert(chars@.subrange(from as int, i as int) == chars@.subrange(
            from as int,
            i - 1,
        ).push(chars@[i - 1]));
    }
    out
}

/// A copy of an optional text.
pub fn copy_opt(o: &Option<String>) -> (r: Option<String>)
    ensures
        opt_text(r) == opt_text(*o),
{
    match o {
        Some(s) => Some(s.clone()),
        None => None,
    }
}

// ── Building ────────────────────────────────────────────

pub proof fn lemma_joined_push(parts: Seq<Seq<char>>, sep: Seq<char>, x: Seq<char>)
    ensures
        joined(parts.push(x), sep) == if parts.len() == 0 {
            x
        } else {
            joined(parts, sep) + sep + x
        },
{
    assert(parts.push(x).drop_last() == parts);
}

/// `a` followed by `b`.
pub fn concat2(a: &str, b: &str) -> (r: String)
    ensures
        r@ == a@ + b@,
{
    let mut out = a.to_owned();
    out.append(b);
    out
}

/// `a`, `b` and `c` in a row.
pub fn concat3(a: &str, b: &str, c: &str) -> (r: String)
    ensures
        r@ == a@ + b@ + c@,
{
    let mut out = a.to_owned();
    out.append(b);
    out.append(c);
    out
}

/// The parts with `sep` between neighbours.
pub fn join_texts(parts: &Vec<String>, sep: &str) -> (r: String)
    ensures
        r@ == joined(texts(parts@), sep@),
{
    let mut out = String::new();
    let mut i: usize = 0;
    while i < parts.len()
        invariant
            i <= parts.len(),
            out@ == joined(texts(parts@.take(i as int)), sep@),
        decreases parts.len() - i,
    {
        proof {
            let before = texts(parts@.take(i as int));
            lemma_joined_push(before, sep@, parts@[i as int]@);
            assert(texts(parts@.take(i + 1)) == before.push(parts@[i as int]@));
        }
        if i > 0 {
            out.append(sep);
        }
        out.append(parts[i].as_str());
        i += 1;
    }
    assert(parts@.take(i as int) == parts@);
    out
}

/// Decimal notation of `n`.
pub fn decimal_text(n: u64) -> (r: String)
    ensures
        r@ == decimal(n as nat),
    decreases n,
{
    if n < 10 {
        let mut out = String::new();
        out.push((48 + n as u8) as char);
        assert(out@ == seq![digit(n as nat)]);
        out
    } else {
        let mut out = decimal_text(n / 10);
        out.push((48 + (n % 10) as u8) as char);
        out
    }
}

/// Decimal notation of `n`, with its sign if it is negative.
pub fn signed_text(n: i64) -> (r: String)
    ensures
        r@ == signed_decimal(n as int),
{
    if n < 0 {
        let mut out = String::new();
        out.push('-');
        let magnitude: u64 = if n == i64::MIN {
            0x8000_0000_0000_0000
        } else {
            (-n) as u64
        };
        let digits = decimal_text(magnitude);
        out.append(digits.as_str());
        assert(out@ == seq!['-'] + decimal((-n) as nat));
        out
    } else {
        decimal_text(n as u64)
    }
}

// ── Reading numbers ─────────────────────────────────────

/// A number only grows with further digits.
proof fn lemma_digits_prefix(s: Seq<char>, i: int)
    requires
        0 < i <= s.len(),
    ensures
        digits_value(s.take(i)) is None ==> digits_value(s) is None,
        digits_value(s) matches Some(n) ==> digits_value(s.take(i)) matches Some(m) && m <= n,
    decreases s.len(),
{
    if i < s.len() {
        lemma_digits_prefix(s.drop_last(), i);
        assert(s.drop_last().take(i) == s.take(i));
    } else {
        assert(s.take(i) == s);
    }
}

/// The number that the characters from `from` on write, if it is at most
/// `limit`.
fn read_digits(chars: &Vec<char>, from: usize, limit: u64) -> (r: Option<u64>)
    requires
        from <= chars.len(),
        9 <= limit <= 0x8000_0000_0000_0000,
    ensures
        r is Some <==> digits_value(chars@.skip(from as int)) is Some && digits_value(
            chars@.skip(from as int),
        ).unwrap() <= limit,
        r matches Some(n) ==> digits_value(chars@.skip(from as int)) == Some(n as nat),
{
    let ghost s = chars@.skip(from as int);
    if from == chars.len() {
        return None;
    }
    let mut acc: u64 = 0;
    let mut i: usize = from;
    while i < chars.len()
        invariant
            from <= i <= chars.len(),
            from < chars.len(),
            s == chars@.skip(from as int),
            9 <= limit <= 0x8000_0000_0000_0000,
            acc <= limit,
            i > from ==> digits_value(s.take(i - from)) == Some(acc as nat),
            i == from ==> acc == 0,
        decreases chars.len() - i,
    {
        let c = chars[i];
        let ghost k = i - from;
        proof {
            assert(s.take(k + 1).last() == c);
            assert(s.take(k + 1).drop_last() == s.take(k));
            assert(s.take(k + 1)[0] == s[0]);
            lemma_digits_prefix(s, k + 1);
        }
        if c < '0' || c > '9' {
            return None;
        }
        let d: u64 = (c as u32 - 48) as u64;
        if acc > (limit - d) / 10 {
            return None;
        }
        acc = acc * 10 + d;
        i += 1;
    }
    assert(s.take(i - from) == s);
    Some(acc)
}

/// The number that a text writes in decimal digits, with or without a sign, if
/// it fits an `i64`.
pub fn parse_i64(s: &str) -> (r: Option<i64>)
    ensures
        r is Some <==> i64_value(s@) is Some,
        r matches Some(n) ==> i64_value(s@) == Some(n as int),
{
    let chars = chars_of(s);
    if chars.len() > 0 && chars[0] == '-' {
        assert(s@.skip(1) == s@.drop_first());
        match read_digits(&chars, 1, 0x8000_0000_0000_0000) {
            Some(n) => if n == 0x8000_0000_0000_0000 {
                Some(i64::MIN)
            } else {
                Some(-(n as i64))
            },
            None => None,
        }
    } else {
        let from: usize = if chars.len() > 0 && chars[0] == '+' {
            1
        } else {
            0
        };
        assert(s@.skip(0) == s@);
        assert(from == 1 ==> s@.skip(1) == s@.drop_first());
        match read_digits(&chars, from, 0x7fff_ffff_ffff_ffff) {
            Some(n) => Some(n as i64),
            None => None,
        }
    }
}

// ── Trimming, splitting, searching ──────────────────────

/// Whether `c` is white space.
pub fn char_is_white(c: char) -> (b: bool)
    ensures
        b == is_white(c),
{
    let n: u32 = c as u32;
    (0x9 <= n && n <= 0xD) || n == 0x20 || n == 0x85 || n == 0xA0 || n == 0x1680 || (0x2000 <= n
        && n <= 0x200A) || n == 0x2028 || n == 0x2029 || n == 0x202F || n == 0x205F || n == 0x3000
}

/// `s` without white space at either end.
pub fn trim_text(s: &str) -> (r: String)
    ensures
        r@ == trimmed(s@),
{
    let chars = chars_of(s);
    let mut from: usize = 0;
    assert(s@.skip(0) == s@);
    while from < chars.len() && char_is_white(chars[from])
        invariant
            chars@ == s@,
            from <= chars.len(),
            without_leading_white(s@) == without_leading_white(s@.skip(from as int)),
        decreases chars.len() - from,
    {
        assert(s@.skip(from as int).drop_first() == s@.skip(from + 1));
        from += 1;
    }
    assert(without_leading_white(s@) == s@.skip(from as int));
    let mut to: usize = chars.len();
    assert(s@.subrange(from as int, to as int) == s@.skip(from as int));
    while to > from && char_is_white(chars[to - 1])
        invariant
            chars@ == s@,
            from <= to <= chars.len(),
            trimmed(s@) == without_trailing_white(s@.subrange(from as int, to as int)),
        decreases to,
    {
        assert(s@.subrange(from as int, to as int).drop_last() == s@.subrange(
            from as int,
            to - 1,
        ));
        to -= 1;
    }
    text_of(&chars, from, to)
}

/// `s` without the run of `c` that it ends in.
pub fn trim_end_of(s: &str, c: char) -> (r: String)
    ensures
        r@ == without_trailing(s@, c),
{
    let chars = chars_of(s);
    let mut to: usize = chars.len();
    assert(s@.subrange(0, to as int) == s@);
    while to > 0 && chars[to - 1] == c
        invariant
            chars@ == s@,
            to <= chars.len(),
            without_trailing(s@, c) == without_trailing(s@.subrange(0, to as int), c),
        decreases to,
    {
        assert(s@.subrange(0, to as int).drop_last() == s@.subrange(0, to - 1));
        to -= 1;
    }
    text_of(&chars, 0, to)
}

proof fn lemma_before_first(s: Seq<char>, c: char, i: int)
    requires
        0 <= i <= s.len(),
        forall|k: int| 0 <= k < i ==> s[k] != c,
        i == s.len() || s[i] == c,
    ensures
        before_first(s, c) == s.take(i),
    decreases s.len(),
{
    if i > 0 {
        lemma_before_first(s.drop_first(), c, i - 1);
        assert(s.take(i) =~= seq![s[0]] + s.drop_first().take(i - 1));
    }
}

/// `s` up to, not including, the first `c`; all of it without one.
pub fn text_before(s: &str, c: char) -> (r: String)
    ensures
        r@ == before_first(s@, c),
{
    let chars = chars_of(s);
    let mut i: usize = 0;
    while i < chars.len() && chars[i] != c
        invariant
            chars@ == s@,
            i <= chars.len(),
            forall|k: int| 0 <= k < i ==> s@[k] != c,
        decreases chars.len() - i,
    {
        i += 1;
    }
    proof {
        lemma_before_first(s@, c, i as int);
    }
    text_of(&chars, 0, i)
}

/// The first `n` bytes of `s`, if a character ends there.
pub fn text_prefix(s: &str, n: usize) -> (r: Option<String>)
    ensures
        opt_text(r) == byte_prefix(s@, n as int),
{
    if s.is_char_boundary(n) {
        let (head, _) = s.split_at(n);
        proof {
            vstd::utf8::encode_utf8_decode_utf8(head@);
        }
        Some(head.to_owned())
    } else {
        None
    }
}

/// `s` cut after `n` characters; an ellipsis stands for the rest.
pub fn truncate_chars(s: &str, n: usize) -> (r: String)
    ensures
        r@ == shortened(s@, n as nat),
{
    let chars = chars_of(s);
    if chars.len() > n {
        let mut out = text_of(&chars, 0, n);
        assert(s@.subrange(0, n as int) == s@.take(n as int));
        out.append("…");
        out
    } else {
        s.to_owned()
    }
}

/// The pieces of `s` between the occurrences of `sep`.
pub fn split_text(s: &str, sep: char) -> (r: Vec<String>)
    ensures
        texts(r@) == pieces(s@, sep),
{
    let chars = chars_of(s);
    let mut done: Vec<String> = Vec::new();
    let mut cur = String::new();
    let mut i: usize = 0;
    assert(texts(done@).push(cur@) == pieces(s@.take(0), sep));
    while i < chars.len()
        invariant
            chars@ == s@,
            i <= chars.len(),
            texts(done@).push(cur@) == pieces(s@.take(i as int), sep),
        decreases chars.len() - i,
    {
        let ghost before = pieces(s@.take(i as int), sep);
        proof {
            assert(s@.take(i + 1).drop_last() == s@.take(i as int));
            assert(s@.take(i + 1).last() == s@[i as int]);
        }
        if chars[i] == sep {
            done.push(cur);
            cur = String::new();
            assert(texts(done@) == before);
        } else {
            cur.push(chars[i]);
            assert(texts(done@).push(cur@) == before.update(
                before.len() - 1,
                before.last().push(s@[i as int]),
            ));
        }
        i += 1;
        assert(texts(done@).push(cur@) == pieces(s@.take(i as int), sep));
    }
    assert(s@.take(i as int) == s@);
    done.push(cur);
    assert(texts(done@) == pieces(s@, sep));
    done
}

/// Whether `pat` stands in `hay` at position `i`.
fn stands_at(hay: &Vec<char>, pat: &Vec<char>, i: usize) -> (b: bool)
    requires
        i + pat.len() <= hay.len(),
    ensures
        b == run_at(hay@, pat@, i as int),
{
    let mut j: usize = 0;
    while j < pat.len()
        invariant
            i + pat.len() <= hay.len(),
            j <= pat.len(),
            forall|k: int| 0 <= k < j ==> hay@[i + k] == #[trigger] pat@[k],
        decreases pat.len() - j,
    {
        if hay[i + j] != pat[j] {
            assert(hay@.subrange(i as int, i + pat.len())[j as int] != pat@[j as int]);
            return false;
        }
        j += 1;
    }
    assert(hay@.subrange(i as int, i + pat.len()) == pat@);
    true
}

/// Whether `needle` stands in `s`.
pub fn contains_text(s: &str, needle: &str) -> (b: bool)
    ensures
        b == has_run(s@, needle@),
{
    let hay = chars_of(s);
    let pat = chars_of(needle);
    if pat.len() > hay.len() {
        return false;
    }
    let last: usize = hay.len() - pat.len();
    let mut i: usize = 0;
    loop
        invariant
            hay@ == s@,
            pat@ == needle@,
            pat.len() <= hay.len(),
            last == hay.len() - pat.len(),
            i <= last,
            forall|k: int| 0 <= k < i ==> !#[trigger] run_at(s@, needle@, k),
        decreases last - i,
    {
        if stands_at(&hay, &pat, i) {
            return true;
        }
        if i == last {
            return false;
        }
        i += 1;
    }
}

// ── Sets ────────────────────────────────────────────────

/// A set of texts.
pub struct TextSet {
    items: Vec<String>,
}

impl View for TextSet {
    type V = Set<Seq<char>>;

    closed spec fn view(&self) -> Set<Seq<char>> {
        Set::new(|s: Seq<char>| texts(self.items@).contains(s))
    }
}

impl TextSet {
    pub fn new() -> (r: TextSet)
        ensures
            r@ == Set::<Seq<char>>::empty(),
    {
        let r = TextSet { items: Vec::new() };
        assert(r@ =~= Set::<Seq<char>>::empty());
        r
    }

    /// Whether there is no text in the set.
    pub fn is_empty(&self) -> (b: bool)
        ensures
            b == (self@ == Set::<Seq<char>>::empty()),
    {
        if self.items.len() == 0 {
            assert(self@ =~= Set::<Seq<char>>::empty());
            true
        } else {
            assert(texts(self.items@).contains(texts(self.items@)[0]));
            assert(self@.contains(texts(self.items@)[0]));
            false
        }
    }

    /// Whether `s` is in the set.
    pub fn has(&self, s: &str) -> (b: bool)
        ensures
            b == self@.contains(s@),
    {
        let mut i: usize = 0;
        while i < self.items.len()
            invariant
                i <= self.items.len(),
                forall|k: int| 0 <= k < i ==> texts(self.items@)[k] != s@,
            decreases self.items.len() - i,
        {
            if self.items[i].as_str().eq(s) {
                assert(texts(self.items@)[i as int] == s@);
                return true;
            }
            i += 1;
        }
        false
    }

    /// Adds `s`.
    pub fn insert(&mut self, s: String)
        ensures
            final(self)@ == old(self)@.insert(s@),
    {
        let ghost before = texts(self.items@);
        let ghost added = s@;
        if !self.has(s.as_str()) {
            self.items.push(s);
            proof {
                let after = texts(self.items@);
                assert(after == before.push(added));
                assert forall|t: Seq<char>| after.contains(t) <==> before.contains(t) || t
                    == added by {
                    if before.contains(t) {
                        let j = choose|j: int| 0 <= j < before.len() && before[j] == t;
                        assert(after[j] == t);
                    }
                    assert(after[before.len() as int] == added);
                }
            }
        }
        assert(self@ =~= old(self)@.insert(added));
    }
}

} // verus!
