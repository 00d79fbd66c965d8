use ingest_api::json::{JsonNumber, JsonValue};
use ingest_api::schema::{is_known, validate_event};

fn s(v: &str) -> JsonValue {
    JsonValue::String(v.to_string())
}

fn n(v: u64) -> JsonValue {
    JsonValue::Number(JsonNumber::Unsigned(v))
}

fn obj(members: Vec<(&str, JsonValue)>) -> JsonValue {
    JsonValue::Object(members.into_iter().map(|(k, v)| (k.to_string(), v)).collect())
}

#[test]
fn minimal_event_is_valid() {
    let ev = obj(vec![("category", s("test")), ("event_type", s("smoke"))]);
    assert!(validate_event(&ev).is_empty());
}

#[test]
fn full_event_is_valid() {
    let ev = obj(vec![
        ("attributes", s("{\"a\":1}")),
        ("category", s("http")),
        ("duration_ms", n(12)),
        ("event_id", s("550e8400-e29b-41d4-a716-446655440000")),
        ("event_type", s("GET")),
        ("http_status", n(200)),
        ("route", s("/api/v1/orders")),
        ("severity", s("info")),
        ("ts", s("2024-05-01 12:00:00.123")),
    ]);
    assert_eq!(validate_event(&ev), Vec::<String>::new());
}

#[test]
fn non_object_is_refused() {
    assert_eq!(validate_event(&s("hello")), vec!["event must be a JSON object".to_string()]);
    assert_eq!(validate_event(&JsonValue::Array(vec![])), vec!["event must be a JSON object".to_string()]);
}

#[test]
fn missing_and_blank_required_fields() {
    let ev = obj(vec![("category", s("   "))]);
    assert_eq!(
        validate_event(&ev),
        vec![
            "missing required string field 'category'".to_string(),
            "missing required string field 'event_type'".to_string(),
        ]
    );
}

#[test]
fn unknown_field_is_reported() {
    let ev = obj(vec![("category", s("a")), ("custom", s("x")), ("event_type", s("b"))]);
    assert_eq!(
        validate_event(&ev),
        vec!["unknown field 'custom' (custom data must go inside the 'attributes' string)".to_string()]
    );
}

#[test]
fn string_field_with_number() {
    let ev = obj(vec![("category", n(1)), ("event_type", s("b"))]);
    assert_eq!(
        validate_event(&ev),
        vec![
            "missing required string field 'category'".to_string(),
            "field 'category' must be a string".to_string(),
        ]
    );
}

#[test]
fn bad_severity() {
    let ev = obj(vec![("category", s("a")), ("event_type", s("b")), ("severity", s("fatal"))]);
    assert_eq!(
        validate_event(&ev),
        vec!["severity 'fatal' invalid; allowed: debug, info, warn, error".to_string()]
    );
}

#[test]
fn bad_event_id() {
    let ev = obj(vec![("category", s("a")), ("event_id", s("nope")), ("event_type", s("b"))]);
    assert_eq!(validate_event(&ev), vec!["field 'event_id' must be a UUID string".to_string()]);
    let ev = obj(vec![("category", s("a")), ("event_id", n(5)), ("event_type", s("b"))]);
    assert_eq!(validate_event(&ev), vec!["field 'event_id' must be a UUID string".to_string()]);
}

#[test]
fn numeric_bounds() {
    let ev = obj(vec![
        ("category", s("a")),
        ("event_type", s("b")),
        ("http_status", n(70000)),
        ("tokens_input", JsonValue::Number(JsonNumber::Negative(-1))),
        ("tokens_output", s("5")),
    ]);
    assert_eq!(
        validate_event(&ev),
        vec![
            "field 'tokens_input' must be a non-negative integer".to_string(),
            "field 'tokens_output' must be a non-negative integer".to_string(),
            "field 'http_status'=70000 exceeds max 65535".to_string(),
        ]
    );
    let ok = obj(vec![("category", s("a")), ("event_type", s("b")), ("duration_ms", n(4294967295))]);
    assert!(validate_event(&ok).is_empty());
    let big = obj(vec![("category", s("a")), ("event_type", s("b")), ("duration_ms", n(4294967296))]);
    assert_eq!(validate_event(&big), vec!["field 'duration_ms'=4294967296 exceeds max 4294967295".to_string()]);
}

#[test]
fn timestamps() {
    for good in [
        s("2024-05-01T12:00:00Z"),
        s("2024-05-01T12:00:00.5+02:00"),
        s(" 2024-05-01 12:00:00 "),
        s("2024-05-01T12:00:00.250"),
        n(1714564800),
        JsonValue::Number(JsonNumber::Fractional("1.5".to_string())),
    ] {
        let ev = obj(vec![("category", s("a")), ("event_type", s("b")), ("ts", good)]);
        assert!(validate_event(&ev).is_empty());
    }
    for bad in [s(""), s("yesterday"), s("2024-13-01 00:00:00"), JsonValue::Bool(true)] {
        let ev = obj(vec![("category", s("a")), ("event_type", s("b")), ("received_at", bad)]);
        assert_eq!(
            validate_event(&ev),
            vec!["field 'received_at' must be an RFC3339 datetime string or an epoch number".to_string()]
        );
    }
}

#[test]
fn uuid_forms() {
    let errs_for = |id: &str| {
        validate_event(&obj(vec![("category", s("a")), ("event_type", s("b")), ("event_id", s(id))]))
    };
    for ok in [
        "550e8400-e29b-41d4-a716-446655440000",
        "550E8400E29B41D4A716446655440000",
        "{550e8400-e29b-41d4-a716-446655440000}",
        "URN:uuid:550e8400-e29b-41d4-a716-446655440000",
    ] {
        assert!(errs_for(ok).is_empty(), "{ok}");
    }
    for bad in ["550e8400-e29b-41d4-a716-44665544000g", "550e8400e29b-41d4-a716-4466554400000", ""] {
        assert_eq!(errs_for(bad), vec!["field 'event_id' must be a UUID string".to_string()], "{bad}");
    }
}

#[test]
fn known_fields() {
    assert!(is_known("event_id"));
    assert!(is_known("attributes"));
    assert!(is_known("received_at"));
    assert!(is_known("http_status"));
    assert!(!is_known("custom"));
    assert!(!is_known(""));
}
