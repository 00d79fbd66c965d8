use ingest_api::admin::{login_check, tenant_overview, LoginOutcome, LoginReq};
use ingest_api::json::{JsonNumber, JsonValue};

fn req(email: &str, password: &str) -> LoginReq {
    LoginReq { email: email.to_string(), password: password.to_string() }
}

fn row(tenant: Option<&str>, active: u64) -> JsonValue {
    let mut m = Vec::new();
    if let Some(t) = tenant {
        m.push(("tenant".to_string(), JsonValue::String(t.to_string())));
    }
    m.push(("active".to_string(), JsonValue::Number(JsonNumber::Unsigned(active))));
    JsonValue::Object(m)
}

#[test]
fn login_is_disabled_without_configuration() {
    for (secret, email, pass) in [("", "a@x", "pw"), ("s", "  ", "pw"), ("s", "a@x", "")] {
        assert!(matches!(login_check(secret, email, pass, &req("a@x", "pw")), LoginOutcome::NotConfigured));
    }
    assert!(matches!(login_check("", "", "", &req("", "")), LoginOutcome::NotConfigured));
}

#[test]
fn login_checks_trimmed_email_and_exact_password() {
    match login_check("s", " admin@x ", "pw", &req("  admin@x\n", "pw")) {
        LoginOutcome::Issue(e) => assert_eq!(e, "admin@x"),
        other => panic!("unexpected {other:?}"),
    }
    assert!(matches!(login_check("s", "admin@x", "pw", &req("admin@x", "pw ")), LoginOutcome::Refused));
    assert!(matches!(login_check("s", "admin@x", "pw", &req("Admin@x", "pw")), LoginOutcome::Refused));
    assert!(matches!(login_check("s", "admin@x", "pw", &req("", "")), LoginOutcome::Refused));
}

#[test]
fn overview_merges_keys_and_event_tables_in_name_order() {
    let rows = vec![
        row(Some("beta"), 1),
        row(Some("acme"), 0),
        row(Some("beta"), 0),
        row(Some("beta"), 1),
        row(None, 1),
    ];
    let events = vec!["gamma".to_string(), "acme".to_string()];
    let o = tenant_overview(&rows, &events);
    let got: Vec<(String, u64, u64, bool)> =
        o.into_iter().map(|s| (s.tenant, s.keys, s.active_keys, s.has_events)).collect();
    assert_eq!(
        got,
        vec![
            ("acme".to_string(), 1, 0, true),
            ("beta".to_string(), 3, 2, false),
            ("gamma".to_string(), 0, 0, true),
        ]
    );
}

#[test]
fn overview_of_nothing_is_empty() {
    assert!(tenant_overview(&Vec::new(), &Vec::new()).is_empty());
}
