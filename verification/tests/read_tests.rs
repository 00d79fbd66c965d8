use ingest_api::json::{JsonNumber, JsonValue};
use ingest_api::read::{
    admin_event_tenant, cap_tenants, event_query, event_tenants, events_page, page_cursor, select_tenants,
    TenantSelection,
};

const ID: &str = "550e8400-e29b-41d4-a716-446655440000";

fn s(v: &str) -> JsonValue {
    JsonValue::String(v.to_string())
}

fn obj(members: Vec<(&str, JsonValue)>) -> JsonValue {
    JsonValue::Object(members.into_iter().map(|(k, v)| (k.to_string(), v)).collect())
}

fn ev(ms: JsonValue, id: &str) -> JsonValue {
    obj(vec![("event_id", s(id)), ("_ts_ms", ms), ("message", s("m"))])
}

fn keys(v: &JsonValue) -> Vec<String> {
    match v {
        JsonValue::Object(m) => m.iter().map(|(k, _)| k.clone()).collect(),
        _ => Vec::new(),
    }
}

#[test]
fn full_page_gets_a_cursor_from_its_last_row() {
    let rows = vec![
        ev(JsonValue::Number(JsonNumber::Unsigned(1700000000999)), "x"),
        ev(JsonValue::Number(JsonNumber::Unsigned(1700000000000)), ID),
    ];
    assert_eq!(page_cursor(&rows, 2), Some(format!("1700000000000:{ID}")));
    assert_eq!(page_cursor(&rows, 3), None);
    let (events, cursor) = events_page(rows, 2);
    assert_eq!(cursor, Some(format!("1700000000000:{ID}")));
    assert_eq!(events.len(), 2);
    for e in &events {
        assert_eq!(keys(e), vec!["event_id".to_string(), "message".to_string()]);
    }
}

#[test]
fn cursor_millis_may_be_quoted() {
    let rows = vec![ev(s("1700000000123"), ID)];
    assert_eq!(page_cursor(&rows, 1), Some(format!("1700000000123:{ID}")));
    let rows = vec![ev(s("soon"), ID)];
    assert_eq!(page_cursor(&rows, 1), None);
    let rows = vec![ev(JsonValue::Number(JsonNumber::Negative(-5)), ID)];
    assert_eq!(page_cursor(&rows, 1), Some(format!("-5:{ID}")));
}

#[test]
fn short_or_empty_page_has_no_cursor() {
    assert_eq!(page_cursor(&Vec::new(), 0), None);
    let (events, cursor) = events_page(vec![obj(vec![("event_id", s(ID))])], 1);
    assert_eq!(cursor, None);
    assert_eq!(keys(&events[0]), vec!["event_id".to_string()]);
}

#[test]
fn event_lookup_by_uuid() {
    let (sql, p) = event_query("acme", ID).unwrap();
    assert_eq!(sql, "SELECT * FROM `acme`.events WHERE event_id = {p0:UUID} LIMIT 1 FORMAT JSONEachRow");
    assert_eq!(p.items, vec![("p0".to_string(), ID.to_string())]);
    assert_eq!(event_query("acme", "not-a-uuid").unwrap_err(), "event_id must be a UUID");
}

#[test]
fn tenant_selection() {
    let sel = |v: Option<&str>| select_tenants(v.map(|x| x.to_string()).as_ref());
    for all in [None, Some("*"), Some("all"), Some(""), Some("  all ")] {
        assert!(matches!(sel(all), TenantSelection::All), "{all:?}");
    }
    match sel(Some(" acme ")) {
        TenantSelection::One(t) => assert_eq!(t, "acme"),
        other => panic!("unexpected {other:?}"),
    }
    assert!(matches!(sel(Some("a-b")), TenantSelection::Invalid));
    assert!(matches!(sel(Some("ALL")), TenantSelection::One(_)));
}

#[test]
fn cross_tenant_fan_out_is_capped() {
    let many: Vec<String> = (0..70).map(|i| format!("t{i}")).collect();
    let capped = cap_tenants(many.clone());
    assert_eq!(capped.len(), 64);
    assert_eq!(capped[..], many[..64]);
    assert_eq!(cap_tenants(vec!["a".to_string()]), vec!["a".to_string()]);
}

#[test]
fn tenants_with_events_tables() {
    let rows = vec![
        obj(vec![("database", s("beta"))]),
        obj(vec![("database", s("bad-name"))]),
        obj(vec![("database", JsonValue::Number(JsonNumber::Unsigned(5)))]),
        obj(vec![("name", s("x"))]),
        obj(vec![("database", s("acme"))]),
    ];
    assert_eq!(event_tenants(&rows), vec!["beta".to_string(), "acme".to_string()]);
}

#[test]
fn single_event_needs_a_concrete_tenant() {
    let t = |v: Option<&str>| admin_event_tenant(v.map(|x| x.to_string()).as_ref());
    assert_eq!(t(Some(" acme ")), Some("acme".to_string()));
    for bad in [None, Some(""), Some("*"), Some("all"), Some("a b")] {
        assert_eq!(t(bad), None, "{bad:?}");
    }
}
