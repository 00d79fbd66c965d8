use ingest_api::auth::{
    admin_identity, admin_request, bearer, claims_for, claims_of, creds_match, eq_secret, issue_token, jwt_to_verify,
    verify_token,
};
use ingest_api::json::{JsonNumber, JsonValue};
use ingest_api::auth::expiry_ok;

#[test]
fn secret_comparison() {
    assert!(eq_secret("s3cret", "s3cret"));
    assert!(!eq_secret("s3cret", "s3creT"));
    assert!(!eq_secret("short", "longer"));
    assert!(eq_secret("", ""));
    assert!(creds_match("admin@x.io", "admin@x.io"));
    assert!(!creds_match("admin@x.io", "admin@x.i0"));
}

#[test]
fn bearer_tokens() {
    assert_eq!(bearer(Some("Bearer abc ")), Some("abc".to_string()));
    assert_eq!(bearer(Some("bearer  xyz")), Some("xyz".to_string()));
    assert_eq!(bearer(Some("Basic abc")), None);
    assert_eq!(bearer(Some("BEARER abc")), None);
    assert_eq!(bearer(Some("Bearer ")), Some(String::new()));
    assert_eq!(bearer(None), None);
}

#[test]
fn jwt_only_with_secret() {
    assert_eq!(jwt_to_verify("", Some("Bearer t")), None);
    assert_eq!(jwt_to_verify("k", Some("Bearer t")), Some("t".to_string()));
    assert_eq!(jwt_to_verify("k", None), None);
}

#[test]
fn admin_identity_rules() {
    assert_eq!(admin_identity("k", Some("me@x".to_string()), "", None, "admin@x"), Some("me@x".to_string()));
    assert_eq!(admin_identity("k", None, "tok", Some("tok"), "admin@x"), Some("admin@x".to_string()));
    assert_eq!(admin_identity("k", None, "tok", Some("tik"), "admin@x"), None);
    assert_eq!(admin_identity("k", None, "", Some(""), "admin@x"), None);
    assert_eq!(admin_identity("k", None, "tok", None, "admin@x"), None);
    assert_eq!(admin_identity("", None, "tok", Some("tok"), "admin@x"), None);
    assert_eq!(admin_identity("", Some("me@x".to_string()), "", None, "admin@x"), None);
}

#[test]
fn token_expiry() {
    let c = claims_for("a@b", 1_700_000_000, 24);
    assert_eq!(c.sub, "a@b");
    assert_eq!(c.exp, 1_700_086_400);
    let c = claims_for("a@b", 100, -1);
    assert_eq!(c.exp, 0);
}

#[test]
fn expiry_range() {
    assert!(expiry_ok(1714564800, 24));
    assert!(expiry_ok(1714564800, -1000));
    assert!(!expiry_ok(1714564800, i64::MAX));
    assert!(!expiry_ok(8210266876799, 1));
    assert!(expiry_ok(8210266876799 - 3600, 1));
}

fn now_secs() -> i64 {
    std::time::SystemTime::now().duration_since(std::time::UNIX_EPOCH).unwrap().as_secs() as i64
}

#[test]
fn issued_tokens_verify_with_their_secret_only() {
    let tok = issue_token("admin@x", "s3cret", 24, now_secs()).unwrap();
    let c = verify_token(&tok, "s3cret").unwrap();
    assert_eq!(c.sub, "admin@x");
    assert!((c.exp as i64 - (now_secs() + 24 * 3600)).abs() <= 5);
    assert!(verify_token(&tok, "other").is_err());
    assert!(verify_token("not.a.jwt", "s3cret").is_err());
    let expired = issue_token("admin@x", "s3cret", -2, now_secs()).unwrap();
    assert!(verify_token(&expired, "s3cret").is_err());
}

#[test]
fn admin_requests() {
    let tok = issue_token("admin@x", "k", 1, now_secs()).unwrap();
    let bearer_h = format!("Bearer {tok}");
    assert_eq!(admin_request("k", Some(&bearer_h), "", None, "seed@x"), Some("admin@x".to_string()));
    assert_eq!(admin_request("", Some(&bearer_h), "static", Some("static"), "seed@x"), None);
    assert_eq!(admin_request("k", None, "static", Some("static"), "seed@x"), Some("seed@x".to_string()));
    assert_eq!(admin_request("k", Some("Bearer junk"), "static", Some("static"), "seed@x"), Some("seed@x".to_string()));
    assert_eq!(admin_request("k", Some("Bearer junk"), "static", Some("nope"), "seed@x"), None);
    assert_eq!(admin_request("other", Some(&bearer_h), "", None, "seed@x"), None);
}

#[test]
fn claims_from_payloads() {
    let obj = |m: Vec<(&str, JsonValue)>| JsonValue::Object(m.into_iter().map(|(k, v)| (k.to_string(), v)).collect());
    let c = claims_of(&obj(vec![
        ("exp", JsonValue::Number(JsonNumber::Unsigned(5))),
        ("sub", JsonValue::String("a@b".to_string())),
        ("x", JsonValue::Null),
    ]))
    .unwrap();
    assert_eq!((c.sub.as_str(), c.exp), ("a@b", 5));
    let msg = "token claims must hold a string 'sub' and an unsigned 'exp'";
    assert_eq!(claims_of(&obj(vec![("sub", JsonValue::String("a".to_string()))])).unwrap_err(), msg);
    assert_eq!(
        claims_of(&obj(vec![
            ("sub", JsonValue::String("a".to_string())),
            ("exp", JsonValue::Number(JsonNumber::Negative(-1)))
        ]))
        .unwrap_err(),
        msg
    );
    assert_eq!(claims_of(&JsonValue::Null).unwrap_err(), msg);
}
