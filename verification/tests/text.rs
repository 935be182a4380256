//! Text operations, against those of the standard library.

use workcheck::text;
use workcheck::text::TextSet;

#[test]
fn trimming_agrees_with_std() {
    for s in ["", " ", " a b ", "\t\n가\u{3000}", "\u{a0}x\u{2003}", "\u{200b}x", "\u{85}y\u{2028}", "\u{1680}\u{205f}z\u{202f}"] {
        assert_eq!(text::trim_text(s), s.trim());
    }
    for c in 0u32..0x11000 {
        if let Some(c) = char::from_u32(c) {
            assert_eq!(text::char_is_white(c), c.is_whitespace());
        }
    }
    for s in ["", "/", "a//", "a/b/", "//a"] {
        assert_eq!(text::trim_end_of(s, '/'), s.trim_end_matches('/'));
    }
}

#[test]
fn splitting_and_searching_agree_with_std() {
    for s in ["", ",", "a,b", ",a,,", "가,나"] {
        let ours = text::split_text(s, ',');
        let theirs: Vec<&str> = s.split(',').collect();
        assert_eq!(ours, theirs);
    }
    for (s, p) in [("abc", "bc"), ("abc", ""), ("", ""), ("", "a"), ("aab", "ab"), ("가나다", "나"), ("ab", "abc")] {
        assert_eq!(text::contains_text(s, p), s.contains(p));
    }
    assert_eq!(text::text_before("APP-123", '-'), "APP");
    assert_eq!(text::text_before("APP", '-'), "APP");
    assert_eq!(text::text_before("-1", '-'), "");
}

#[test]
fn numbers_agree_with_std() {
    for n in [0u64, 9, 10, 123, u64::MAX] {
        assert_eq!(text::decimal_text(n), n.to_string());
    }
    for n in [0i64, -1, 42, i64::MIN, i64::MAX] {
        assert_eq!(text::signed_text(n), n.to_string());
    }
    for s in [
        "", "-", "+", "0", "-0", "+5", "180", "-180", "00000000000000000000000000012", "12a", " 12", "1 2", "+-5",
        "9223372036854775807", "9223372036854775808", "-9223372036854775808", "-9223372036854775809",
        "99999999999999999999999999999999", "99999999999999999999999999999999x", "１",
    ] {
        assert_eq!(text::parse_i64(s), s.parse::<i64>().ok(), "{}", s);
    }
}

#[test]
fn prefixes_agree_with_std() {
    for s in ["2026-07-21 10:00:00", "2026-07-21", "2026-07", "", "가나다라마바", "가나다a가"] {
        assert_eq!(text::text_prefix(s, 10), s.get(..10).map(|p| p.to_string()));
    }
}

#[test]
fn building() {
    assert_eq!(text::concat2("a", "b"), "ab");
    assert_eq!(text::concat3("a", "b", "c"), "abc");
    assert_eq!(text::join_texts(&vec!["a".to_string(), "b".to_string(), "c".to_string()], ", "), "a, b, c");
    assert_eq!(text::join_texts(&vec![], ", "), "");
    assert_eq!(text::truncate_chars("", 0), "");
    assert_eq!(text::truncate_chars("ab", 0), "…");
    assert_eq!(text::copy_opt(&Some("x".to_string())), Some("x".to_string()));
    assert_eq!(text::copy_opt(&None), None);
}

#[test]
fn sets_of_texts() {
    let mut set = TextSet::new();
    assert!(set.is_empty());
    set.insert("a".to_string());
    set.insert("a".to_string());
    assert!(!set.is_empty());
    assert!(set.has("a"));
    assert!(!set.has("b"));
}
