//! Instants, against chrono.

use chrono::DateTime;
use chrono::Duration;
use chrono::FixedOffset;
use workcheck::moment::parse_time;
use workcheck::moment::Moment;
use workcheck::moment::MAX_SECS;
use workcheck::moment::MIN_SECS;

fn theirs(s: &str) -> DateTime<FixedOffset> {
    DateTime::parse_from_rfc3339(s).unwrap()
}

#[test]
fn both_notations_are_read() {
    let jira = parse_time("2026-07-21T10:30:00.000+0900").unwrap();
    let rfc = parse_time("2026-07-21T10:30:00+09:00").unwrap();
    assert_eq!(jira, rfc);
    assert_eq!(jira.timestamp(), theirs("2026-07-21T10:30:00+09:00").timestamp());
    assert_eq!(parse_time("2026-07-21T10:30:00.250Z").unwrap().subsec_nanos(), 250_000_000);
    assert_eq!(parse_time(""), None);
    assert_eq!(parse_time("2026-07-21"), None);
    assert_eq!(parse_time("yesterday"), None);
}

#[test]
fn notation_agrees_with_chrono() {
    for s in [
        "2026-07-21T10:30:00+09:00", "2026-07-21T00:00:00.500Z", "1969-12-31T23:59:59.000001-03:30",
        "2026-07-21T23:59:60.123456789+00:00", "0001-01-01T00:00:00Z", "9999-12-31T23:59:59-12:00",
        "2016-12-31T23:59:60Z",
    ] {
        assert_eq!(parse_time(s).unwrap().to_rfc3339(), theirs(s).to_rfc3339());
    }
    assert_eq!(Moment::from_parts(MAX_SECS, 0, 0).unwrap().to_rfc3339(), "+262142-12-31T23:59:59+00:00");
    assert_eq!(Moment::from_parts(MAX_SECS, 0, 3600).unwrap().to_rfc3339(), "+262143-01-01T00:59:59+01:00");
    assert_eq!(Moment::from_parts(MIN_SECS, 0, -60).unwrap().to_rfc3339(), "-262144-12-31T23:59:00-00:01");
    assert_eq!(Moment::from_parts(0, 0, 45).unwrap().to_rfc3339(), "1970-01-01T00:00:45+00:01");
}

#[test]
fn parts_that_make_no_instant() {
    assert_eq!(Moment::from_parts(MAX_SECS + 1, 0, 0), None);
    assert_eq!(Moment::from_parts(MIN_SECS - 1, 0, 0), None);
    assert_eq!(Moment::from_parts(0, 1_000_000_000, 0), None);
    assert!(Moment::from_parts(59, 1_000_000_000, 0).is_some());
    assert!(Moment::from_parts(-1, 1_000_000_000, 0).is_some());
    assert_eq!(Moment::from_parts(59, 2_000_000_000, 0), None);
    assert_eq!(Moment::from_parts(0, 0, 86400), None);
    assert_eq!(Moment::from_parts(0, 0, -86400), None);
}

#[test]
fn minutes_in_korea() {
    assert_eq!(parse_time("2026-07-21T10:30:59+09:00").unwrap().minute_in_korea(), "2026/07/21 10:30");
    assert_eq!(parse_time("2026-07-21T20:00:00Z").unwrap().minute_in_korea(), "2026/07/22 05:00");
}

#[test]
fn going_back_agrees_with_chrono() {
    for s in ["2026-07-21T10:30:00.5+09:00", "2016-12-31T23:59:60.75Z"] {
        for k in [0i64, 1, 60, 300, 7_776_000] {
            let ours = parse_time(s).unwrap().seconds_before(k).unwrap();
            let there = theirs(s).checked_sub_signed(Duration::seconds(k)).unwrap();
            assert_eq!(ours.timestamp(), there.timestamp());
            assert_eq!(ours.subsec_nanos(), there.timestamp_subsec_nanos());
            assert_eq!(ours.to_rfc3339(), there.to_rfc3339());
        }
    }
    assert_eq!(Moment::from_parts(MIN_SECS, 0, 0).unwrap().seconds_before(1), None);
    assert_eq!(Moment::from_parts(MAX_SECS, 0, 0).unwrap().seconds_before(i64::MAX), None);
    let leap = Moment::from_parts(MAX_SECS, 1_500_000_000, 0).unwrap();
    let first = leap.seconds_before(MAX_SECS - MIN_SECS + 1).unwrap();
    assert_eq!(first.timestamp(), MIN_SECS);
    assert_eq!(leap.seconds_before(MAX_SECS - MIN_SECS + 2), None);
}

#[test]
fn distances_agree_with_chrono() {
    let times = [
        "2026-07-21T10:30:00+09:00", "2026-07-21T10:30:00.9+09:00", "2026-07-21T10:29:59.95+09:00",
        "2016-12-31T23:59:60.5Z", "2017-01-01T00:00:00Z", "2016-12-31T23:59:59Z", "2016-12-31T12:00:00Z",
    ];
    for a in times {
        for b in times {
            let ours = parse_time(a).unwrap().seconds_since(&parse_time(b).unwrap());
            assert_eq!(ours, (theirs(a) - theirs(b)).num_seconds(), "{} {}", a, b);
            assert_eq!(parse_time(a).unwrap().is_before(&parse_time(b).unwrap()), theirs(a) < theirs(b));
        }
    }
}

#[test]
fn what_is_written_reads_back() {
    for s in [
        "2026-07-21T10:30:00.000+0900", "2026-07-21T10:30:00.123-0330", "2026-07-21T10:30:00.123456+09:00",
        "2026-07-21T10:30:00.123456789Z", "2026-12-31T23:59:60.5+00:00", "2026-12-31T23:59:60.000000001+01:00",
        "+12026-07-21T10:30:00.250+0000", "-0001-01-01T00:00:00-2359", "0000-01-01T00:00:00.000001+23:59",
        "+262142-12-31T23:59:59.999+0000", "-262143-01-01T00:00:00+0000", "+262142-12-31T23:59:59+2359",
        "-262143-01-01T00:00:00-2359",
    ] {
        let m = parse_time(s).expect(s);
        let written = m.to_rfc3339();
        assert_eq!(parse_time(&written), Some(m), "{}", s);
        assert_eq!(parse_time(&written).unwrap().to_rfc3339(), written);
    }
}
