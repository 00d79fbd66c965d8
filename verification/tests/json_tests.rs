use ingest_api::json::{find_member, JsonNumber, JsonValue};

fn s(v: &str) -> JsonValue {
    JsonValue::String(v.to_string())
}

#[test]
fn member_lookup_takes_the_first_match() {
    let o = JsonValue::Object(vec![
        ("a".to_string(), s("one")),
        ("b".to_string(), JsonValue::Null),
        ("a".to_string(), s("two")),
    ]);
    assert_eq!(o.get("a").and_then(|v| v.as_str()).map(|x| x.as_str()), Some("one"));
    assert!(matches!(o.get("b"), Some(JsonValue::Null)));
    assert!(o.get("c").is_none());
    assert!(s("x").get("a").is_none());
    if let JsonValue::Object(m) = &o {
        assert!(matches!(find_member(m, "b"), Some(JsonValue::Null)));
    }
}

#[test]
fn scalar_accessors() {
    let u = JsonValue::Number(JsonNumber::Unsigned(7));
    let n = JsonValue::Number(JsonNumber::Negative(-3));
    let f = JsonValue::Number(JsonNumber::Fractional("1.5".to_string()));
    assert_eq!(u.as_u64(), Some(7));
    assert_eq!(u.as_i64(), Some(7));
    assert_eq!(n.as_u64(), None);
    assert_eq!(n.as_i64(), Some(-3));
    assert_eq!(f.as_u64(), None);
    assert_eq!(f.as_i64(), None);
    assert!(u.is_number() && n.is_number() && f.is_number());
    assert!(!s("1").is_number());
    assert!(s("1").is_string());
    assert!(!JsonValue::Bool(true).is_string());
    assert_eq!(JsonValue::Number(JsonNumber::Unsigned(u64::MAX)).as_i64(), None);
    assert!(JsonValue::Array(Vec::new()).as_str().is_none());
}
