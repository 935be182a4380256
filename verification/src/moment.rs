//! Instants with a UTC offset.
//!
//! An instant is modelled by its Unix time in seconds and nanoseconds. Within a
//! leap second the nanoseconds count on from the second before.

use vstd::prelude::*;

use crate::calendar;
use crate::text;

verus! {

/// Day number of January 1, 1970.
pub const EPOCH_DAY: i64 = 719163;

/// Unix time of the first second of the calendar.
pub const MIN_SECS: i64 = -8334601228800;

/// Unix time of the last second of the calendar.
pub const MAX_SECS: i64 = 8210266876799;

/// UTC offset of Korea, in seconds.
pub const KST_OFFSET: i32 = 32400;

/// Nanoseconds of a second.
pub const BILLION: u32 = 1_000_000_000;

// ── Model ───────────────────────────────────────────────

/// An instant, and the offset to UTC in seconds with which it was given.
pub struct MomentView {
    pub secs: int,
    pub nanos: int,
    pub offset: int,
}

/// Whether the parts make an instant of the calendar.
pub open spec fn valid(m: MomentView) -> bool {
    &&& MIN_SECS <= m.secs <= MAX_SECS
    &&& 0 <= m.nanos < 2 * BILLION
    &&& m.nanos >= BILLION ==> m.secs % 60 == 59
    &&& -86400 < m.offset < 86400
}

/// Whether one instant comes before another.
pub open spec fn earlier(a: MomentView, b: MomentView) -> bool {
    a.secs < b.secs || (a.secs == b.secs && a.nanos < b.nanos)
}

/// Day number of the local date.
pub open spec fn local_day(m: MomentView) -> int {
    (m.secs + m.offset) / 86400 + EPOCH_DAY
}

/// Second of the local day.
pub open spec fn local_second(m: MomentView) -> int {
    (m.secs + m.offset) % 86400
}

/// A number below 100 in two digits.
pub open spec fn two_digits(n: int) -> Seq<char> {
    text::zero_padded(n as nat, 2)
}

/// A fraction of a second in as many groups of three digits as it needs.
pub open spec fn fraction_text(nanos: int) -> Seq<char> {
    if nanos == 0 {
        Seq::empty()
    } else if nanos % 1_000_000 == 0 {
        seq!['.'] + text::zero_padded((nanos / 1_000_000) as nat, 3)
    } else if nanos % 1_000 == 0 {
        seq!['.'] + text::zero_padded((nanos / 1_000) as nat, 6)
    } else {
        seq!['.'] + text::zero_padded(nanos as nat, 9)
    }
}

/// An offset to UTC in hours and minutes, rounded to the minute.
pub open spec fn offset_text(offset: int) -> Seq<char> {
    let minutes = if offset < 0 {
        (30 - offset) / 60
    } else {
        (30 + offset) / 60
    };
    let sign = if offset < 0 {
        '-'
    } else {
        '+'
    };
    seq![sign] + two_digits(minutes / 60) + seq![':'] + two_digits(minutes % 60)
}

/// An instant as RFC 3339 writes it.
pub open spec fn rfc3339_text(m: MomentView) -> Seq<char> {
    let s = local_second(m);
    let leap = m.nanos / (BILLION as int);
    calendar::date_text(local_day(m)) + seq!['T'] + two_digits(s / 3600) + seq![':'] + two_digits(
        s / 60 % 60,
    ) + seq![':'] + two_digits(s % 60 + leap) + fraction_text(m.nanos % (BILLION as int))
        + offset_text(m.offset)
}

/// A local date and time as a query writes them.
pub open spec fn minute_text(m: MomentView) -> Seq<char> {
    let (y, month, day) = calendar::civil(local_day(m));
    let s = local_second(m);
    calendar::year_text(y) + seq!['/'] + two_digits(month) + seq!['/'] + two_digits(day) + seq![
        ' ',
    ] + two_digits(s / 3600) + seq![':'] + two_digits(s / 60 % 60)
}

/// The instant `seconds` before another. One that leaves a leap second counts
/// it as a second of its own.
pub open spec fn before(m: MomentView, seconds: int) -> MomentView {
    if m.nanos >= BILLION && seconds > 0 {
        MomentView { secs: m.secs + 1 - seconds, nanos: m.nanos - BILLION, offset: m.offset }
    } else {
        MomentView { secs: m.secs - seconds, nanos: m.nanos, offset: m.offset }
    }
}

/// The leap second between two times of day that their seconds do not count.
pub open spec fn uncounted_leap(a: MomentView, b: MomentView) -> int {
    if a.secs % 86400 > b.secs % 86400 && b.nanos >= BILLION {
        1
    } else if a.secs % 86400 < b.secs % 86400 && a.nanos >= BILLION {
        -1
    } else {
        0
    }
}

/// Whole seconds from `b` to `a`, rounded towards zero.
pub open spec fn seconds_between(a: MomentView, b: MomentView) -> int {
    let whole = a.secs - b.secs + uncounted_leap(a, b) + (a.nanos - b.nanos) / (BILLION as int);
    if whole < 0 && (a.nanos - b.nanos) % (BILLION as int) > 0 {
        whole + 1
    } else {
        whole
    }
}

/// What `chrono::DateTime::parse_from_str` reads from a text with the format
/// `%Y-%m-%dT%H:%M:%S%.3f%z`, or nothing where it reports an error.
pub uninterp spec fn jira_time(text: Seq<char>) -> Option<MomentView>;

/// What `chrono::DateTime::parse_from_rfc3339` reads from a text, or nothing
/// where it reports an error.
pub uninterp spec fn rfc3339_time(text: Seq<char>) -> Option<MomentView>;

/// The instant that a text writes in either notation.
pub open spec fn parsed_time(text: Seq<char>) -> Option<MomentView> {
    match jira_time(text) {
        Some(m) => Some(m),
        None => rfc3339_time(text),
    }
}

/// Year of the local date.
pub open spec fn local_year(m: MomentView) -> int {
    calendar::civil(local_day(m)).0
}

/// Whether an instant is one that a text can write in full: its offset is one to
/// the minute, its local date lies in the calendar, and its fraction is one to
/// the millisecond or its year has four digits.
pub open spec fn writable(m: MomentView) -> bool {
    &&& m.offset % 60 == 0
    &&& calendar::in_calendar(local_day(m))
    &&& m.nanos % 1_000_000 == 0 || 0 <= local_year(m) <= 9999
}

// ── Instants ────────────────────────────────────────────

/// An instant with a UTC offset.
#[derive(Debug, Clone, Copy, PartialEq, Eq)]
pub struct Moment {
    secs: i64,
    nanos: u32,
    offset: i32,
}

/// The parts of an instant.
pub open spec fn parts_view(p: (i64, u32, i32)) -> MomentView {
    MomentView { secs: p.0 as int, nanos: p.1 as int, offset: p.2 as int }
}

/// An optional instant.
pub open spec fn opt_moment(m: Option<Moment>) -> Option<MomentView> {
    match m {
        Some(m) => Some(m@),
        None => None,
    }
}

impl View for Moment {
    type V = MomentView;

    closed spec fn view(&self) -> MomentView {
        parts_view((self.secs, self.nanos, self.offset))
    }
}

// ── Calls into chrono ───────────────────────────────────

/// `chrono::DateTime::parse_from_str` with the format
/// `%Y-%m-%dT%H:%M:%S%.3f%z`; the result taken apart into Unix time,
/// nanoseconds and offset. `%.3f` takes three digits and `%z` hours and minutes,
/// so that the instant is a writable one. Nothing is said of which texts it
/// accepts.
#[verifier::external_body]
fn chrono_jira_time(text: &str) -> (r: Option<(i64, u32, i32)>)
    ensures
        r is Some <==> jira_time(text@) is Some,
        r matches Some(p) ==> jira_time(text@) == Some(parts_view(p)) && valid(parts_view(p))
            && writable(parts_view(p)),
{
    match chrono::DateTime::parse_from_str(text, "%Y-%m-%dT%H:%M:%S%.3f%z") {
        Ok(t) => Some((t.timestamp(), t.timestamp_subsec_nanos(), t.offset().local_minus_utc())),
        Err(_) => None,
    }
}

/// `chrono::DateTime::parse_from_rfc3339`; the result taken apart into Unix
/// time, nanoseconds and offset. The year has four digits and the offset hours
/// and minutes, so that the instant is a writable one. Nothing is said of which
/// texts it accepts.
#[verifier::external_body]
fn chrono_rfc3339_time(text: &str) -> (r: Option<(i64, u32, i32)>)
    ensures
        r is Some <==> rfc3339_time(text@) is Some,
        r matches Some(p) ==> rfc3339_time(text@) == Some(parts_view(p)) && valid(parts_view(p))
            && writable(parts_view(p)),
{
    match chrono::DateTime::parse_from_rfc3339(text) {
        Ok(t) => Some((t.timestamp(), t.timestamp_subsec_nanos(), t.offset().local_minus_utc())),
        Err(_) => None,
    }
}

/// `chrono::DateTime::to_rfc3339`: the local date and time with the fraction of
/// a second that it needs, and the offset to the minute. What it writes of a
/// writable instant reads back as that instant: with three digits or none by
/// `DateTime::parse_from_str`, whose `%.3f` refuses more, and else by
/// `DateTime::parse_from_rfc3339`.
#[verifier::external_body]
fn chrono_rfc3339_text(secs: i64, nanos: u32, offset: i32) -> (r: String)
    requires
        valid(parts_view((secs, nanos, offset))),
    ensures
        r@ == rfc3339_text(parts_view((secs, nanos, offset))),
        writable(parts_view((secs, nanos, offset))) ==> parsed_time(r@) == Some(
            parts_view((secs, nanos, offset)),
        ),
{
    let zone = chrono::FixedOffset::east_opt(offset).unwrap();
    chrono::DateTime::from_timestamp(secs, nanos).unwrap().with_timezone(&zone).to_rfc3339()
}

/// `chrono::DateTime::format` with the format `%Y/%m/%d %H:%M`, at an offset.
#[verifier::external_body]
fn chrono_minute_text(secs: i64, nanos: u32, offset: i32) -> (r: String)
    requires
        valid(parts_view((secs, nanos, offset))),
    ensures
        r@ == minute_text(parts_view((secs, nanos, offset))),
{
    let zone = chrono::FixedOffset::east_opt(offset).unwrap();
    let t = chrono::DateTime::from_timestamp(secs, nanos).unwrap().with_timezone(&zone);
    t.format("%Y/%m/%d %H:%M").to_string()
}

/// `chrono::DateTime::checked_sub_signed` with a number of seconds: the instant
/// that many seconds before, unless the calendar begins later.
#[verifier::external_body]
fn chrono_before(secs: i64, nanos: u32, seconds: i64) -> (r: Option<(i64, u32)>)
    requires
        valid(parts_view((secs, nanos, 0))),
        0 <= seconds <= MAX_SECS - MIN_SECS + 1,
    ensures
        r is Some <==> MIN_SECS <= before(parts_view((secs, nanos, 0)), seconds as int).secs,
        r matches Some(p) ==> parts_view((p.0, p.1, 0)) == before(
            parts_view((secs, nanos, 0)),
            seconds as int,
        ),
{
    let t = chrono::DateTime::from_timestamp(secs, nanos).unwrap();
    match t.checked_sub_signed(chrono::Duration::seconds(seconds)) {
        Some(b) => Some((b.timestamp(), b.timestamp_subsec_nanos())),
        None => None,
    }
}

/// `chrono::DateTime::signed_duration_since` in whole seconds: the seconds from
/// the second instant to the first, rounded towards zero.
#[verifier::external_body]
fn chrono_between(a_secs: i64, a_nanos: u32, b_secs: i64, b_nanos: u32) -> (r: i64)
    requires
        valid(parts_view((a_secs, a_nanos, 0))),
        valid(parts_view((b_secs, b_nanos, 0))),
    ensures
        r == seconds_between(parts_view((a_secs, a_nanos, 0)), parts_view((b_secs, b_nanos, 0))),
{
    let a = chrono::DateTime::from_timestamp(a_secs, a_nanos).unwrap();
    let b = chrono::DateTime::from_timestamp(b_secs, b_nanos).unwrap();
    a.signed_duration_since(b).num_seconds()
}

// ── Operations ──────────────────────────────────────────

impl Moment {
    #[verifier::type_invariant]
    closed spec fn well_formed(self) -> bool {
        valid(parts_view((self.secs, self.nanos, self.offset)))
    }

    /// The instant with a Unix time, nanoseconds and an offset, if the calendar
    /// has it.
    pub fn from_parts(secs: i64, nanos: u32, offset: i32) -> (r: Option<Moment>)
        ensures
            r is Some <==> valid(parts_view((secs, nanos, offset))),
            r matches Some(m) ==> m@ == parts_view((secs, nanos, offset)),
    {
        if secs < MIN_SECS || secs > MAX_SECS || nanos >= 2 * BILLION {
            return None;
        }
        let in_minute: i64 = secs % 60;
        if nanos >= BILLION && in_minute != 59 && in_minute != -1 {
            return None;
        }
        if offset <= -86400 || offset >= 86400 {
            return None;
        }
        Some(Moment { secs, nanos, offset })
    }

    /// Unix time in seconds.
    pub fn timestamp(&self) -> (r: i64)
        ensures
            r == self@.secs,
            valid(self@),
    {
        proof {
            use_type_invariant(self);
        }
        self.secs
    }

    /// Nanoseconds within the second.
    pub fn subsec_nanos(&self) -> (r: u32)
        ensures
            r == self@.nanos,
    {
        self.nanos
    }

    /// The same instant with another offset to UTC, if that is one.
    pub fn at_offset(&self, offset: i32) -> (r: Option<Moment>)
        ensures
            r is Some <==> valid((MomentView { offset: offset as int, ..self@ })),
            r matches Some(m) ==> m@ == (MomentView { offset: offset as int, ..self@ }),
    {
        Moment::from_parts(self.secs, self.nanos, offset)
    }

    /// Whether the instant comes before another.
    pub fn is_before(&self, other: &Moment) -> (b: bool)
        ensures
            b == earlier(self@, other@),
    {
        self.secs < other.secs || (self.secs == other.secs && self.nanos < other.nanos)
    }

    /// The instant as RFC 3339 writes it.
    pub fn to_rfc3339(&self) -> (r: String)
        ensures
            r@ == rfc3339_text(self@),
            writable(self@) ==> parsed_time(r@) == Some(self@),
    {
        proof {
            use_type_invariant(self);
        }
        chrono_rfc3339_text(self.secs, self.nanos, self.offset)
    }

    /// Date and time in Korea, to the minute.
    pub fn minute_in_korea(&self) -> (r: String)
        ensures
            r@ == minute_text((MomentView { offset: KST_OFFSET as int, ..self@ })),
    {
        proof {
            use_type_invariant(self);
        }
        chrono_minute_text(self.secs, self.nanos, KST_OFFSET)
    }

    /// The instant `seconds` before, unless the calendar begins later.
    pub fn seconds_before(&self, seconds: i64) -> (r: Option<Moment>)
        requires
            0 <= seconds,
        ensures
            r is Some <==> MIN_SECS <= before(self@, seconds as int).secs,
            r matches Some(m) ==> m@ == before(self@, seconds as int),
    {
        proof {
            use_type_invariant(self);
        }
        if seconds > MAX_SECS - MIN_SECS + 1 {
            return None;
        }
        match chrono_before(self.secs, self.nanos, seconds) {
            Some((secs, nanos)) => Some(Moment { secs, nanos, offset: self.offset }),
            None => None,
        }
    }

    /// Whole seconds since another instant, rounded towards zero.
    pub fn seconds_since(&self, other: &Moment) -> (r: i64)
        ensures
            r == seconds_between(self@, other@),
    {
        proof {
            use_type_invariant(self);
            use_type_invariant(other);
        }
        chrono_between(self.secs, self.nanos, other.secs, other.nanos)
    }
}

/// The instant that a text writes, as the issue tracker or as RFC 3339 do.
pub fn parse_time(s: &str) -> (r: Option<Moment>)
    ensures
        opt_moment(r) == parsed_time(s@),
        r matches Some(m) ==> writable(m@),
{
    let parts = match chrono_jira_time(s) {
        Some(p) => Some(p),
        None => chrono_rfc3339_time(s),
    };
    match parts {
        Some((secs, nanos, offset)) => Some(Moment { secs, nanos, offset }),
        None => None,
    }
}

} // verus!
