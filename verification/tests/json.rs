//! JSON values, against serde_json.

use workcheck::json::param_value;
use workcheck::json::parse_json;
use workcheck::json::Doc;
use workcheck::json::Json;

#[test]
fn members_are_found() {
    let v = parse_json(r#"{"a":1,"b":"x","c":[true,null],"d":{"e":-2},"f":1.5}"#).unwrap();
    assert_eq!(v.u64_at("a"), Some(1));
    assert_eq!(v.i64_at("a"), Some(1));
    assert_eq!(v.text_at("a"), None);
    assert_eq!(v.text_at("b"), Some("x".to_string()));
    assert_eq!(v.text_or_empty_at("b"), "x");
    assert_eq!(v.text_or_empty_at("zz"), "");
    assert_eq!(v.array_at("c").unwrap().len(), 2);
    assert!(matches!(v.array_at("c").unwrap()[0], Json::Bool(true)));
    assert_eq!(v.at("d").i64_at("e"), Some(-2));
    assert_eq!(v.at("d").u64_at("e"), None);
    assert_eq!(v.i64_at("f"), None);
    assert_eq!(v.u64_at("f"), None);
    assert!(v.get("zz").is_none());
    assert!(matches!(v.at("zz"), Json::Null));
    assert_eq!(v.bool_at("a"), None);
    assert_eq!(v.at("a").as_u64(), Some(1));
}

#[test]
fn large_numbers() {
    let v = parse_json(r#"{"a":18446744073709551615,"b":9223372036854775807,"c":-9223372036854775808,"d":18446744073709551616}"#).unwrap();
    assert_eq!(v.u64_at("a"), Some(u64::MAX));
    assert_eq!(v.i64_at("a"), None);
    assert_eq!(v.i64_at("b"), Some(i64::MAX));
    assert_eq!(v.i64_at("c"), Some(i64::MIN));
    assert_eq!(v.u64_at("d"), None);
}

#[test]
fn later_members_with_the_same_name_win() {
    let v = parse_json(r#"{"a":1,"a":2}"#).unwrap();
    assert_eq!(v.i64_at("a"), Some(2));
}

#[test]
fn what_is_not_json() {
    for s in ["", "{", "nul", "{\"a\":}", "[1,]", "{} x"] {
        assert!(parse_json(s).is_none());
        assert!(serde_json::from_str::<serde_json::Value>(s).is_err());
        assert!(matches!(param_value(s), Json::Object(_)));
        assert!(param_value(s).get("a").is_none());
    }
    assert!(matches!(parse_json("null"), Some(Json::Null)));
    assert!(matches!(param_value("3"), Json::Number(Some(3), Some(3))));
}

#[test]
fn nesting() {
    let deep = |n: usize| format!("{}1{}", "[".repeat(n), "]".repeat(n));
    let mut v = parse_json(&deep(127)).unwrap();
    for _ in 0..127 {
        v = match v {
            Json::Array(mut items) => items.pop().unwrap(),
            _ => unreachable!(),
        };
    }
    assert_eq!(v.as_u64(), Some(1));
    assert!(parse_json(&deep(128)).is_none());
}

#[test]
fn parts_of_documents() {
    let s = r#"{ "body" : { "type" : "doc", "n" : [1, 2] }, "list": ["a", {"b": null}] }"#;
    let doc = Doc::parse(s).unwrap();
    assert_eq!(doc.write(), r#"{"body":{"n":[1,2],"type":"doc"},"list":["a",{"b":null}]}"#);
    assert_eq!(doc.json().at("body").text_at("type"), Some("doc".to_string()));
    let body = doc.copy().into_member("body").unwrap();
    assert_eq!(body.write(), r#"{"n":[1,2],"type":"doc"}"#);
    assert!(doc.copy().into_member("none").is_none());
    assert!(doc.copy().into_elements().is_none());
    let list = doc.into_member("list").unwrap().into_elements().unwrap();
    let texts: Vec<String> = list.iter().map(|d| d.write()).collect();
    assert_eq!(texts, vec![r#""a""#, r#"{"b":null}"#]);
    assert!(Doc::parse("[1]").unwrap().into_member("body").is_none());
    assert_eq!(Doc::parse("[]").unwrap().into_elements().unwrap().len(), 0);
    assert!(Doc::parse("[1,]").is_none());
}
