use ingest_api::json::{JsonNumber, JsonValue};
use ingest_api::keys::{
    esc, generate_key, hash_key, lookup_sql, mint_sql, revoke_lookup_sql, revoke_sql, tenant_from_rows,
};
use ingest_api::keys::{key_text, mint_plan};

fn row(members: Vec<(&str, JsonValue)>) -> JsonValue {
    JsonValue::Object(members.into_iter().map(|(k, v)| (k.to_string(), v)).collect())
}

fn s(v: &str) -> JsonValue {
    JsonValue::String(v.to_string())
}

#[test]
fn hash_is_sha256_hex() {
    assert_eq!(hash_key("abc"), "ba7816bf8f01cfea414140de5dae2223b00361a396177a9cb410ff61f20015ad");
    assert_eq!(hash_key(""), "e3b0c44298fc1c149afbf4c8996fb92427ae41e4649b934ca495991b7852b855");
}

#[test]
fn generated_keys() {
    let a = generate_key();
    let b = generate_key();
    assert!(a.starts_with("ik_"));
    assert_eq!(a.len(), 67);
    assert!(a[3..].chars().all(|c| c.is_ascii_hexdigit() && !c.is_ascii_uppercase()));
    assert_ne!(a, b);
    assert_eq!(hash_key(&a).len(), 64);
}

#[test]
fn escaping() {
    assert_eq!(esc("plain"), "plain");
    assert_eq!(esc("it's"), "it\\'s");
    assert_eq!(esc("a\\b"), "a\\\\b");
    assert_eq!(esc("\\'"), "\\\\\\'");
    assert_eq!(esc(""), "");
}

#[test]
fn key_sql() {
    assert_eq!(
        lookup_sql("ab'c"),
        "SELECT tenant, active FROM ingest.ingest_keys FINAL WHERE key_hash = 'ab\\'c'"
    );
    assert_eq!(
        mint_sql("id1", "h", "acme", "prod's key", 42),
        "INSERT INTO ingest.ingest_keys (id, key_hash, tenant, label, scopes, active, version) VALUES ('id1','h','acme','prod\\'s key','events:write',1,42)"
    );
    assert_eq!(
        revoke_lookup_sql("id1"),
        "SELECT key_hash, tenant, label FROM ingest.ingest_keys FINAL WHERE id = 'id1'"
    );
}

#[test]
fn resolve_tenant_from_rows() {
    let active = row(vec![("active", JsonValue::Number(JsonNumber::Unsigned(1))), ("tenant", s("acme"))]);
    assert_eq!(tenant_from_rows(&vec![active]), Some("acme".to_string()));
    let inactive = row(vec![("active", JsonValue::Number(JsonNumber::Unsigned(0))), ("tenant", s("acme"))]);
    assert_eq!(tenant_from_rows(&vec![inactive]), None);
    let quoted = row(vec![("active", s("1")), ("tenant", s("acme"))]);
    assert_eq!(tenant_from_rows(&vec![quoted]), None);
    assert_eq!(tenant_from_rows(&vec![]), None);
}

#[test]
fn revoke_tombstone() {
    let found = row(vec![("key_hash", s("h1")), ("label", s("l")), ("tenant", s("acme"))]);
    let (sql, hash) = revoke_sql("id1", &vec![found], 7).unwrap();
    assert_eq!(
        sql,
        "INSERT INTO ingest.ingest_keys (id, key_hash, tenant, label, scopes, active, version, revoked_at) VALUES ('id1','h1','acme','l','events:write',0,7,now())"
    );
    assert_eq!(hash, "h1");
    let partial = row(vec![("tenant", s("acme"))]);
    let (sql, hash) = revoke_sql("id2", &vec![partial], 8).unwrap();
    assert!(sql.contains("VALUES ('id2','','acme','','events:write',0,8,now())"));
    assert_eq!(hash, "");
    assert!(revoke_sql("id3", &vec![], 9).is_none());
}

#[test]
fn minting_stores_only_the_hash() {
    let (key, id, sql) = mint_plan("acme", "prod", 1714564800000);
    assert!(key.starts_with("ik_") && key.len() == 67);
    assert_eq!(id.len(), 36);
    assert_eq!(id.as_bytes()[14], b'4');
    assert!(b"89ab".contains(&id.as_bytes()[19]));
    assert!(id.chars().enumerate().all(|(i, c)| if [8, 13, 18, 23].contains(&i) {
        c == '-'
    } else {
        c.is_ascii_digit() || ('a'..='f').contains(&c)
    }));
    assert_eq!(sql, mint_sql(&id, &hash_key(&key), "acme", "prod", 1714564800000));
    assert!(!sql.contains(&key));
    let (key2, id2, _) = mint_plan("acme", "prod", 1);
    assert_ne!(key, key2);
    assert_ne!(id, id2);
}

/// Reads a single-quoted literal body as ClickHouse does: returns the text it
/// denotes and where the closing quote is.
fn read_literal(body: &str) -> (String, usize) {
    let c: Vec<char> = body.chars().collect();
    let mut out = String::new();
    let mut i = 0;
    while i < c.len() {
        if c[i] == '\'' {
            return (out, i);
        }
        if c[i] == '\\' && i + 1 < c.len() {
            out.push(c[i + 1]);
            i += 2;
        } else {
            out.push(c[i]);
            i += 1;
        }
    }
    panic!("unterminated literal");
}

#[test]
fn escaped_literals_close_where_they_should_and_read_back() {
    for s in ["plain", "it's", "a\\'b", "\\", "'", "''; DROP TABLE x; --", "x\\"] {
        let e = esc(s);
        let (read, end) = read_literal(&format!("{e}' AND 1=1"));
        assert_eq!(read, s);
        assert_eq!(end, e.chars().count());
    }
}

#[test]
fn key_text_of_bytes() {
    let bytes: Vec<u8> = (0u8..32).collect();
    assert_eq!(key_text(&bytes), "ik_000102030405060708090a0b0c0d0e0f101112131415161718191a1b1c1d1e1f");
    assert_eq!(key_text(&[0xffu8; 32]), format!("ik_{}", "ff".repeat(32)));
}
