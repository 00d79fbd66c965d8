//! API keys: minting, hashing, and the control-plane SQL that stores and
//! resolves them.
//!
//! A plaintext key (`ik_<hex>`) is shown exactly once at mint time; only its
//! SHA-256 hash is stored.

use rand::RngCore;
use sha2::Digest;
use vstd::prelude::*;
use vstd::utf8::encode_utf8;
use crate::json::JsonValue;
use crate::text::{chars_of, decimal, decimal_chars, extend_chars, extend_str, string_of};

verus! {

/// The SHA-256 digest of `data`.
pub uninterp spec fn sha256(data: Seq<u8>) -> Seq<u8>;

/// `sha2::Sha256::digest`: the 32-byte SHA-256 digest of `data`.
#[verifier::external_body]
fn sha256_digest(data: &[u8]) -> (r: Vec<u8>)
    ensures
        r@ == sha256(data@),
        r@.len() == 32,
{
    sha2::Sha256::digest(data).to_vec()
}

/// The lower-case hexadecimal digit for `d < 16`.
pub open spec fn hex_digit(d: int) -> char {
    if d < 10 {
        ('0' as int + d) as char
    } else {
        ('a' as int + d - 10) as char
    }
}

/// Lower-case hexadecimal encoding of `b`, high nibble first.
pub open spec fn hex_lower(b: Seq<u8>) -> Seq<char>
    decreases b.len(),
{
    if b.len() == 0 {
        Seq::<char>::empty()
    } else {
        hex_lower(b.drop_last()) + seq![hex_digit((b.last() / 16) as int), hex_digit((b.last() % 16) as int)]
    }
}

pub proof fn lemma_hex_len(b: Seq<u8>)
    ensures
        hex_lower(b).len() == 2 * b.len(),
    decreases b.len(),
{
    if b.len() > 0 {
        lemma_hex_len(b.drop_last());
    }
}

/// `hex::encode`: lower-case hexadecimal, two digits per byte.
#[verifier::external_body]
fn hex_encode(data: &[u8]) -> (r: String)
    ensures
        r@ == hex_lower(data@),
{
    hex::encode(data)
}

/// 32 bytes from the thread-local random generator (`RngCore::fill_bytes`).
#[verifier::external_body]
fn random_bytes() -> (r: Vec<u8>)
    ensures
        r@.len() == 32,
{
    let mut bytes = [0u8; 32];
    rand::thread_rng().fill_bytes(&mut bytes);
    bytes.to_vec()
}

/// The stored form of a key: its SHA-256 digest in lower-case hex.
pub fn hash_key(key: &str) -> (r: String)
    ensures
        r@ == hex_lower(sha256(encode_utf8(key@))),
        r@.len() == 64,
{
    let d = sha256_digest(key.as_bytes());
    let r = hex_encode(d.as_slice());
    proof {
        lemma_hex_len(d@);
    }
    r
}

/// The key text for 32 key bytes: `ik_` followed by the bytes in
/// lower-case hex.
pub fn key_text(bytes: &[u8]) -> (r: String)
    requires
        bytes@.len() == 32,
    ensures
        r@ == "ik_"@ + hex_lower(bytes@),
        r@.len() == 67,
{
    let h = hex_encode(bytes);
    let mut c: Vec<char> = Vec::new();
    extend_str(&mut c, "ik_");
    extend_str(&mut c, h.as_str());
    proof {
        lemma_hex_len(bytes@);
        reveal_strlit("ik_");
    }
    assert(c@ == "ik_"@ + hex_lower(bytes@));
    string_of(&c)
}

/// A fresh opaque key: the key text (see `key_text`) of 32 random bytes.
/// Which bytes the generator draws is left open.
pub fn generate_key() -> (r: String)
    ensures
        exists|b: Seq<u8>| b.len() == 32 && r@ == "ik_"@ + hex_lower(b),
        r@.len() == 67,
{
    let b = random_bytes();
    key_text(b.as_slice())
}

/// The escape sequence for one character of a single-quoted ClickHouse string
/// literal: `\` and `'` get a backslash in front.
pub open spec fn escape_char(c: char) -> Seq<char> {
    if c == '\\' || c == '\'' {
        seq!['\\', c]
    } else {
        seq![c]
    }
}

/// `s` escaped for a single-quoted ClickHouse literal: every `\` doubled,
/// then every `'` preceded by `\` (`s.replace('\\', "\\\\").replace('\'', "\\'")`).
pub open spec fn escaped(s: Seq<char>) -> Seq<char>
    decreases s.len(),
{
    if s.len() == 0 {
        Seq::<char>::empty()
    } else {
        escaped(s.drop_last()) + escape_char(s.last())
    }
}

/// What ClickHouse reads from the body of a single-quoted literal: a `\`
/// followed by a character stands for that character.
pub open spec fn unescaped(t: Seq<char>) -> Seq<char>
    decreases t.len(),
{
    if t.len() == 0 {
        Seq::<char>::empty()
    } else if t[0] == '\\' && t.len() >= 2 {
        seq![t[1]] + unescaped(t.skip(2))
    } else {
        seq![t[0]] + unescaped(t.drop_first())
    }
}

proof fn lemma_escaped_front(s: Seq<char>)
    requires
        s.len() > 0,
    ensures
        escaped(s) == escape_char(s[0]) + escaped(s.drop_first()),
    decreases s.len(),
{
    if s.len() > 1 {
        lemma_escaped_front(s.drop_last());
        assert(s.drop_last().drop_first() =~= s.drop_first().drop_last());
        assert(s.drop_first().last() == s.last());
    } else {
        assert(s.drop_last() =~= Seq::<char>::empty());
        assert(s.drop_first() =~= Seq::<char>::empty());
    }
}

/// Escaping loses nothing: reading an escaped literal gives the same
/// string back.
pub proof fn lemma_escape_roundtrip(s: Seq<char>)
    ensures
        unescaped(escaped(s)) == s,
    decreases s.len(),
{
    if s.len() > 0 {
        lemma_escaped_front(s);
        let rest = escaped(s.drop_first());
        lemma_escape_roundtrip(s.drop_first());
        let e = escape_char(s[0]) + rest;
        if s[0] == '\\' || s[0] == '\'' {
            assert(e.skip(2) =~= rest);
        } else {
            assert(e.drop_first() =~= rest);
        }
        assert(s =~= seq![s[0]] + s.drop_first());
    }
}

/// Where a single-quoted literal whose body starts at `t` ends: the index
/// of the first `'` that no backslash escapes.
pub open spec fn closing_quote(t: Seq<char>) -> Option<nat>
    decreases t.len(),
{
    if t.len() == 0 {
        None
    } else if t[0] == '\'' {
        Some(0)
    } else if t[0] == '\\' && t.len() >= 2 {
        match closing_quote(t.skip(2)) {
            Some(k) => Some(k + 2),
            None => None,
        }
    } else {
        match closing_quote(t.drop_first()) {
            Some(k) => Some(k + 1),
            None => None,
        }
    }
}

/// An escaped value cannot end its literal early: whatever follows, the
/// literal `'` + escaped(s) + `'` closes exactly at the quote placed after
/// the escaped text.
pub proof fn lemma_escaped_literal_closes_at_end(s: Seq<char>, rest: Seq<char>)
    ensures
        closing_quote(escaped(s) + seq!['\''] + rest) == Some(escaped(s).len()),
    decreases s.len(),
{
    let t = escaped(s) + seq!['\''] + rest;
    if s.len() == 0 {
        assert(t[0] == '\'');
    } else {
        lemma_escaped_front(s);
        let tail = escaped(s.drop_first());
        lemma_escaped_literal_closes_at_end(s.drop_first(), rest);
        let t2 = tail + seq!['\''] + rest;
        if s[0] == '\\' || s[0] == '\'' {
            assert(t.skip(2) =~= t2);
            assert(t[0] == '\\');
        } else {
            assert(t.drop_first() =~= t2);
            assert(t[0] == s[0]);
        }
    }
}

/// Escapes `s` for a single-quoted ClickHouse string literal.
pub fn esc(s: &str) -> (r: String)
    ensures
        r@ == escaped(s@),
{
    let v = chars_of(s);
    let mut out: Vec<char> = Vec::new();
    let mut i: usize = 0;
    while i < v.len()
        invariant
            i <= v.len(),
            out@ == escaped(v@.take(i as int)),
        decreases v.len() - i,
    {
        let c = v[i];
        assert(v@.take(i + 1).drop_last() =~= v@.take(i as int));
        if c == '\\' || c == '\'' {
            out.push('\\');
        }
        out.push(c);
        assert(out@ =~= escaped(v@.take(i + 1)));
        i = i + 1;
    }
    assert(v@.take(v.len() as int) =~= v@);
    string_of(&out)
}

/// The query that resolves a key hash to its tenant and state.
pub open spec fn lookup_sql_text(hash: Seq<char>) -> Seq<char> {
    "SELECT tenant, active FROM ingest.ingest_keys FINAL WHERE key_hash = '"@ + escaped(hash) + "'"@
}

pub fn lookup_sql(hash: &str) -> (r: String)
    ensures
        r@ == lookup_sql_text(hash@),
{
    let mut c: Vec<char> = Vec::new();
    extend_str(&mut c, "SELECT tenant, active FROM ingest.ingest_keys FINAL WHERE key_hash = '");
    extend_str(&mut c, esc(hash).as_str());
    extend_str(&mut c, "'");
    string_of(&c)
}

/// The tenant a key resolves to from the lookup rows: the first row's
/// `tenant` when its `active` is 1; none for no row or an inactive key.
pub open spec fn resolved_tenant(rows: Seq<JsonValue>) -> Option<Seq<char>> {
    if rows.len() == 0 {
        None
    } else {
        let row = rows[0];
        let active = match row.spec_get("active"@) {
            Some(v) => match v.spec_as_u64() {
                Some(n) => n,
                None => 0,
            },
            None => 0,
        };
        if active == 1 {
            match row.spec_get("tenant"@) {
                Some(v) => v.spec_as_str(),
                None => None,
            }
        } else {
            None
        }
    }
}

/// The tenant a key resolves to from the lookup rows (see `resolved_tenant`).
pub fn tenant_from_rows(rows: &Vec<JsonValue>) -> (r: Option<String>)
    ensures
        match resolved_tenant(rows@) {
            Some(t) => r matches Some(x) && x@ == t,
            None => r is None,
        },
{
    if rows.len() == 0 {
        return None;
    }
    let row = &rows[0];
    let active: u64 = match row.get("active") {
        Some(v) => match v.as_u64() {
            Some(n) => n,
            None => 0,
        },
        None => 0,
    };
    if active == 1 {
        match row.get("tenant") {
            Some(v) => match v.as_str() {
                Some(s) => Some(string_of(&chars_of(s.as_str()))),
                None => None,
            },
            None => None,
        }
    } else {
        None
    }
}

/// Appends `'<escaped s>',` to `c`.
fn push_quoted(c: &mut Vec<char>, s: &str)
    ensures
        final(c)@ == old(c)@ + "'"@ + escaped(s@) + "',"@,
{
    extend_str(c, "'");
    extend_str(c, esc(s).as_str());
    extend_str(c, "',");
    assert(c@ =~= old(c)@ + "'"@ + escaped(s@) + "',"@);
}

/// The row inserted for a newly minted key.
pub open spec fn mint_sql_text(id: Seq<char>, hash: Seq<char>, tenant: Seq<char>, label: Seq<char>, version: u64) -> Seq<char> {
    "INSERT INTO ingest.ingest_keys (id, key_hash, tenant, label, scopes, active, version) VALUES ("@
        + "'"@ + escaped(id) + "',"@ + "'"@ + escaped(hash) + "',"@ + "'"@ + escaped(tenant) + "',"@
        + "'"@ + escaped(label) + "',"@ + "'events:write',1,"@ + decimal(version as nat) + ")"@
}

pub fn mint_sql(id: &str, hash: &str, tenant: &str, label: &str, version: u64) -> (r: String)
    ensures
        r@ == mint_sql_text(id@, hash@, tenant@, label@, version),
{
    let mut c: Vec<char> = Vec::new();
    extend_str(&mut c, "INSERT INTO ingest.ingest_keys (id, key_hash, tenant, label, scopes, active, version) VALUES (");
    push_quoted(&mut c, id);
    push_quoted(&mut c, hash);
    push_quoted(&mut c, tenant);
    push_quoted(&mut c, label);
    extend_str(&mut c, "'events:write',1,");
    extend_chars(&mut c, &decimal_chars(version));
    extend_str(&mut c, ")");
    assert(c@ =~= mint_sql_text(id@, hash@, tenant@, label@, version));
    string_of(&c)
}

/// Whether `s` is a UUID in the lower-case hyphenated 8-4-4-4-12 form.
pub open spec fn lower_uuid_text(s: Seq<char>) -> bool {
    &&& s.len() == 36
    &&& forall|i: int| 0 <= i < 36 ==> if i == 8 || i == 13 || i == 18 || i == 23 {
        #[trigger] s[i] == '-'
    } else {
        ('0' <= s[i] <= '9') || ('a' <= s[i] <= 'f')
    }
}

/// Whether `s` is a random (version 4, RFC 4122 variant) UUID in the
/// lower-case hyphenated form: the version digit is `4` and the variant
/// digit one of `8`, `9`, `a`, `b`.
pub open spec fn lower_uuid_v4_text(s: Seq<char>) -> bool {
    &&& lower_uuid_text(s)
    &&& s[14] == '4'
    &&& (s[19] == '8' || s[19] == '9' || s[19] == 'a' || s[19] == 'b')
}

/// `uuid::Uuid::new_v4().to_string()`: a fresh random version-4 UUID,
/// printed in the lower-case hyphenated form (`Display` for `Uuid`). Which
/// random bits come out is left open.
#[verifier::external_body]
fn new_uuid() -> (r: String)
    ensures
        lower_uuid_v4_text(r@),
{
    uuid::Uuid::new_v4().to_string()
}

/// Mints a key for `tenant`: a fresh plaintext key (handed out once), a
/// fresh row id, and the row to insert, which stores only the key's hash,
/// with `version` as the row version.
pub fn mint_plan(tenant: &str, label: &str, version: u64) -> (r: (String, String, String))
    ensures
        exists|b: Seq<u8>| b.len() == 32 && r.0@ == "ik_"@ + hex_lower(b),
        lower_uuid_v4_text(r.1@),
        r.2@ == mint_sql_text(r.1@, hex_lower(sha256(encode_utf8(r.0@))), tenant@, label@, version),
{
    let key = generate_key();
    let hash = hash_key(key.as_str());
    let id = new_uuid();
    let sql = mint_sql(id.as_str(), hash.as_str(), tenant, label, version);
    (key, id, sql)
}

/// The query that finds a key's row by id before revoking it.
pub open spec fn revoke_lookup_sql_text(id: Seq<char>) -> Seq<char> {
    "SELECT key_hash, tenant, label FROM ingest.ingest_keys FINAL WHERE id = '"@ + escaped(id) + "'"@
}

pub fn revoke_lookup_sql(id: &str) -> (r: String)
    ensures
        r@ == revoke_lookup_sql_text(id@),
{
    let mut c: Vec<char> = Vec::new();
    extend_str(&mut c, "SELECT key_hash, tenant, label FROM ingest.ingest_keys FINAL WHERE id = '");
    extend_str(&mut c, esc(id).as_str());
    extend_str(&mut c, "'");
    string_of(&c)
}

/// A string member of `row`, or empty when absent or not a string.
pub open spec fn str_member_or_empty(row: JsonValue, key: Seq<char>) -> Seq<char> {
    match row.spec_get(key) {
        Some(v) => match v.spec_as_str() {
            Some(s) => s,
            None => Seq::<char>::empty(),
        },
        None => Seq::<char>::empty(),
    }
}

fn str_member(row: &JsonValue, key: &str) -> (r: String)
    ensures
        r@ == str_member_or_empty(*row, key@),
{
    match row.get(key) {
        Some(v) => match v.as_str() {
            Some(s) => string_of(&chars_of(s.as_str())),
            None => String::new(),
        },
        None => String::new(),
    }
}

/// The tombstone row that revokes key `id`, written with the hash, tenant
/// and label found by the lookup so it collapses onto the key's row; none
/// when the lookup found no row. Also gives the hash to evict from the cache.
pub open spec fn revoke_plan(id: Seq<char>, rows: Seq<JsonValue>, version: u64) -> Option<(Seq<char>, Seq<char>)> {
    if rows.len() == 0 {
        None
    } else {
        let hash = str_member_or_empty(rows[0], "key_hash"@);
        let tenant = str_member_or_empty(rows[0], "tenant"@);
        let label = str_member_or_empty(rows[0], "label"@);
        Some((
            "INSERT INTO ingest.ingest_keys (id, key_hash, tenant, label, scopes, active, version, revoked_at) VALUES ("@
                + "'"@ + escaped(id) + "',"@ + "'"@ + escaped(hash) + "',"@ + "'"@ + escaped(tenant)
                + "',"@ + "'"@ + escaped(label) + "',"@ + "'events:write',0,"@ + decimal(version as nat)
                + ",now())"@,
            hash,
        ))
    }
}

/// The tombstone insert for revoking key `id` (see `revoke_plan`).
pub fn revoke_sql(id: &str, rows: &Vec<JsonValue>, version: u64) -> (r: Option<(String, String)>)
    ensures
        match revoke_plan(id@, rows@, version) {
            Some((sql, hash)) => r matches Some((s, h)) && s@ == sql && h@ == hash,
            None => r is None,
        },
{
    if rows.len() == 0 {
        return None;
    }
    let hash = str_member(&rows[0], "key_hash");
    let tenant = str_member(&rows[0], "tenant");
    let label = str_member(&rows[0], "label");
    let mut c: Vec<char> = Vec::new();
    extend_str(&mut c, "INSERT INTO ingest.ingest_keys (id, key_hash, tenant, label, scopes, active, version, revoked_at) VALUES (");
    push_quoted(&mut c, id);
    push_quoted(&mut c, hash.as_str());
    push_quoted(&mut c, tenant.as_str());
    push_quoted(&mut c, label.as_str());
    extend_str(&mut c, "'events:write',0,");
    extend_chars(&mut c, &decimal_chars(version));
    extend_str(&mut c, ",now())");
    assert(c@ =~= revoke_plan(id@, rows@, version).unwrap().0);
    Some((string_of(&c), hash))
}

} // verus!
