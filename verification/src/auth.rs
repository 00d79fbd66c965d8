//! Admin authorization decisions and credential comparison.
//!
//! A single admin identity is seeded from the environment. `/v1/admin/login`
//! checks its credentials and issues an HS256 JWT; every other admin route
//! accepts either that JWT as `Authorization: Bearer` or the static admin
//! token in `x-admin-token`. Any valid token is fully authorized.

use vstd::prelude::*;
use vstd::utf8::{encode_utf8, encode_utf8_decode_utf8};
use crate::text::{chars_of, starts_with, starts_with_chars, string_of, sub_chars, trim, trim_chars};
use crate::json::{json_of, JsonNumber, JsonValue};
use crate::time::{max_secs, min_secs};

verus! {

/// Whether two byte strings are equal, compared the way a constant-time
/// check does: equal lengths and a zero OR over the XOR of every byte pair.
fn bytes_match(a: &[u8], b: &[u8]) -> (r: bool)
    ensures
        r == (a@ == b@),
{
    if a.len() != b.len() {
        return false;
    }
    let mut diff: u8 = 0;
    let mut i: usize = 0;
    while i < a.len()
        invariant
            i <= a.len(),
            a.len() == b.len(),
            diff == 0 <==> forall|j: int| 0 <= j < i ==> a@[j] == b@[j],
        decreases a.len() - i,
    {
        let x = a[i];
        let y = b[i];
        let d = diff;
        diff = diff | (x ^ y);
        assert((d | (x ^ y)) == 0 <==> (d == 0 && x == y)) by (bit_vector);
        i = i + 1;
    }
    assert(diff == 0 ==> a@ =~= b@);
    diff == 0
}

/// Whether two secrets are equal, comparing their UTF-8 bytes without
/// stopping at the first difference (the length is not hidden).
pub fn eq_secret(a: &str, b: &str) -> (r: bool)
    ensures
        r == (a@ == b@),
{
    let r = bytes_match(a.as_bytes(), b.as_bytes());
    proof {
        encode_utf8_decode_utf8(a@);
        encode_utf8_decode_utf8(b@);
    }
    r
}

/// Whether presented credentials equal the configured ones (same comparison
/// as `eq_secret`).
pub fn creds_match(a: &str, b: &str) -> (r: bool)
    ensures
        r == (a@ == b@),
{
    eq_secret(a, b)
}

/// The token of an `Authorization` header value: the trimmed text after a
/// `Bearer ` or `bearer ` prefix.
pub open spec fn bearer_token(auth: Seq<char>) -> Option<Seq<char>> {
    if starts_with(auth, "Bearer "@) || starts_with(auth, "bearer "@) {
        Some(trim(auth.skip(7)))
    } else {
        None
    }
}

/// The bearer token of an `Authorization` header, if it carries one.
pub fn bearer(authorization: Option<&str>) -> (r: Option<String>)
    ensures
        match (authorization, r) {
            (Some(a), Some(t)) => bearer_token(a@) == Some(t@),
            (Some(a), None) => bearer_token(a@) is None,
            (None, r) => r is None,
        },
{
    let a = match authorization {
        Some(a) => chars_of(a),
        None => return None,
    };
    proof {
        reveal_strlit("Bearer ");
        reveal_strlit("bearer ");
    }
    if starts_with_chars(&a, &chars_of("Bearer ")) || starts_with_chars(&a, &chars_of("bearer ")) {
        let rest = sub_chars(&a, 7, a.len());
        assert(rest@ =~= a@.skip(7));
        Some(string_of(&trim_chars(&rest)))
    } else {
        None
    }
}

/// JWT claims: the admin email and the expiry as a Unix timestamp in seconds.
#[derive(Clone, Debug)]
pub struct Claims {
    pub sub: String,
    pub exp: usize,
}

/// Whether a token lifetime can be added to `now_secs` without chrono
/// panicking: the lifetime fits a `TimeDelta` and the expiry lies in
/// chrono's range.
pub open spec fn expiry_in_range(now_secs: int, ttl_hours: int) -> bool {
    let d = ttl_hours * 3600;
    &&& -9223372036854775 <= d <= 9223372036854775
    &&& min_secs() <= now_secs + d <= max_secs()
}

/// Whether a token lifetime of `ttl_hours` can be added to `now_secs` (see
/// `expiry_in_range`).
pub fn expiry_ok(now_secs: i64, ttl_hours: i64) -> (r: bool)
    ensures
        r == expiry_in_range(now_secs as int, ttl_hours as int),
{
    let d: i128 = ttl_hours as i128 * 3600;
    let e: i128 = now_secs as i128 + d;
    -9223372036854775 <= d && d <= 9223372036854775 && -8334601315200 <= e && e <= 8210266876799
}

/// The claims of a token for `email` issued at `now_secs`, valid for
/// `ttl_hours`: the expiry is clamped at zero.
pub fn claims_for(email: &str, now_secs: i64, ttl_hours: i64) -> (c: Claims)
    requires
        expiry_in_range(now_secs as int, ttl_hours as int),
    ensures
        c.sub@ == email@,
        c.exp == (if now_secs + ttl_hours * 3600 > 0 { now_secs + ttl_hours * 3600 } else { 0 }) as usize,
{
    let exp: i64 = now_secs + ttl_hours * 3600;
    let exp: i64 = if exp > 0 { exp } else { 0 };
    Claims { sub: string_of(&chars_of(email)), exp: exp as usize }
}

/// Whether the admin token check applies: a static token is configured and
/// the request presents one equal to it.
pub open spec fn static_token_ok(admin_token: Seq<char>, presented: Option<Seq<char>>) -> bool {
    admin_token.len() > 0 && presented == Some(admin_token)
}

/// The JWT to verify for an admin request: the bearer token, when a signing
/// secret is configured.
pub fn jwt_to_verify(jwt_secret: &str, authorization: Option<&str>) -> (r: Option<String>)
    ensures
        jwt_secret@.len() == 0 ==> r is None,
        jwt_secret@.len() > 0 ==> match (authorization, r) {
            (Some(a), Some(t)) => bearer_token(a@) == Some(t@),
            (Some(a), None) => bearer_token(a@) is None,
            (None, r) => r is None,
        },
{
    if jwt_secret.is_empty() {
        None
    } else {
        bearer(authorization)
    }
}

/// Who an admin request acts as. Admin access is disabled without a signing
/// secret. With one: the subject of a verified JWT when there is one; else
/// the configured admin email when the static admin token matches; else
/// nobody (the request is refused).
pub fn admin_identity(
    jwt_secret: &str,
    verified_sub: Option<String>,
    admin_token: &str,
    presented: Option<&str>,
    admin_email: &str,
) -> (r: Option<String>)
    ensures
        jwt_secret@.len() == 0 ==> r is None,
        jwt_secret@.len() > 0 ==> match verified_sub {
            Some(s) => r == Some(s),
            None => if static_token_ok(admin_token@, match presented { Some(p) => Some(p@), None => None }) {
                r matches Some(e) && e@ == admin_email@
            } else {
                r is None
            },
        },
{
    if jwt_secret.is_empty() {
        return None;
    }
    if let Some(s) = verified_sub {
        return Some(s);
    }
    if !admin_token.is_empty() {
        if let Some(p) = presented {
            if eq_secret(p, admin_token) {
                return Some(string_of(&chars_of(admin_email)));
            }
        }
    }
    None
}

/// The claims a token payload carries, as a `Claims` value deserializes
/// them: a string `sub` and an `exp` that is a non-negative integer fitting
/// a `usize`; other members are ignored.
pub open spec fn payload_claims(p: JsonValue) -> Option<(Seq<char>, usize)> {
    match (p.spec_get("sub"@), p.spec_get("exp"@)) {
        (Some(JsonValue::String(s)), Some(JsonValue::Number(JsonNumber::Unsigned(e)))) => if e <= usize::MAX {
            Some((s@, e as usize))
        } else {
            None
        },
        _ => None,
    }
}

/// The claims of a token payload (see `payload_claims`), or an error
/// message when it does not carry them.
pub fn claims_of(payload: &JsonValue) -> (r: Result<Claims, String>)
    ensures
        match payload_claims(*payload) {
            Some((sub, exp)) => r matches Ok(c) && c.sub@ == sub && c.exp == exp,
            None => r matches Err(e) && e@ == "token claims must hold a string 'sub' and an unsigned 'exp'"@,
        },
{
    let sub = match payload.get("sub") {
        Some(JsonValue::String(s)) => s,
        _ => return Err(string_of(&chars_of("token claims must hold a string 'sub' and an unsigned 'exp'"))),
    };
    match payload.get("exp") {
        Some(JsonValue::Number(JsonNumber::Unsigned(e))) => if *e <= usize::MAX as u64 {
            Ok(Claims { sub: string_of(&chars_of(sub.as_str())), exp: *e as usize })
        } else {
            Err(string_of(&chars_of("token claims must hold a string 'sub' and an unsigned 'exp'")))
        },
        _ => Err(string_of(&chars_of("token claims must hold a string 'sub' and an unsigned 'exp'"))),
    }
}

/// The payload a token carries when its HS256 signature verifies under the
/// key of `secret` (`jsonwebtoken`'s signature check, then the base64 and
/// JSON decoding of its claims part), or `None` when it does not.
pub uninterp spec fn jwt_payload(token: Seq<char>, secret: Seq<char>) -> Option<JsonValue>;

/// `jsonwebtoken::decode` of `token` with the HS256 key of `secret` and the
/// default validation, its payload read as JSON. A token that passes carries
/// the payload `jwt_payload` names; whether it passes also depends on the
/// clock (its `exp` against the current time), which is left unsaid.
#[verifier::external_body]
fn decode_jwt(token: &str, secret: &str) -> (r: Result<JsonValue, String>)
    ensures
        r matches Ok(p) ==> jwt_payload(token@, secret@) == Some(p),
{
    let key = jsonwebtoken::DecodingKey::from_secret(secret.as_bytes());
    match jsonwebtoken::decode::<serde_json::Value>(token, &key, &jsonwebtoken::Validation::default()) {
        Ok(data) => Ok(json_of(data.claims)),
        Err(e) => Err(e.to_string()),
    }
}

/// Verifies a token's signature and expiry against `secret` and reads its
/// claims. Which tokens pass depends on the clock; the claims of one that
/// passes are those its signed payload carries.
pub fn verify_token(token: &str, secret: &str) -> (r: Result<Claims, String>)
    ensures
        r matches Ok(c) ==> (jwt_payload(token@, secret@) matches Some(p) && payload_claims(p) == Some((c.sub@, c.exp))),
{
    match decode_jwt(token, secret) {
        Ok(payload) => claims_of(&payload),
        Err(e) => Err(e),
    }
}

/// The token `jsonwebtoken::encode` makes with the default (HS256) header
/// for the claims `{sub, exp}` and the key of `secret`.
pub uninterp spec fn jwt_text(sub: Seq<char>, exp: usize, secret: Seq<char>) -> Seq<char>;

/// `jsonwebtoken::encode(&Header::default(), claims, &EncodingKey::from_secret(secret))`
/// with the claims written as a JSON object of `sub` and `exp`. With an HMAC
/// key and a JSON object payload the call cannot fail, and the token's signed
/// payload reads back as those claims under the same secret.
#[verifier::external_body]
fn encode_jwt(claims: &Claims, secret: &str) -> (r: Result<String, String>)
    ensures
        r is Ok,
        r matches Ok(t) ==> t@ == jwt_text(claims.sub@, claims.exp, secret@),
        r matches Ok(t) ==> (jwt_payload(t@, secret@) matches Some(p) && payload_claims(p) == Some((claims.sub@, claims.exp))),
{
    let mut m = serde_json::Map::new();
    m.insert("sub".to_string(), serde_json::Value::String(claims.sub.clone()));
    m.insert("exp".to_string(), serde_json::Value::from(claims.exp as u64));
    let key = jsonwebtoken::EncodingKey::from_secret(secret.as_bytes());
    jsonwebtoken::encode(&jsonwebtoken::Header::default(), &serde_json::Value::Object(m), &key)
        .map_err(|e| e.to_string())
}

/// The expiry `claims_for` gives a token issued at `now_secs` for `ttl_hours`.
pub open spec fn expiry_of(now_secs: i64, ttl_hours: i64) -> usize {
    (if now_secs + ttl_hours * 3600 > 0 { now_secs + ttl_hours * 3600 } else { 0 }) as usize
}

/// Mints a signed token for `email`, issued at `now_secs` and valid for
/// `ttl_hours` (claims as `claims_for` makes them). Its signed payload
/// carries `email` and that expiry.
pub fn issue_token(email: &str, secret: &str, ttl_hours: i64, now_secs: i64) -> (r: Result<String, String>)
    requires
        expiry_in_range(now_secs as int, ttl_hours as int),
    ensures
        r is Ok,
        r matches Ok(t) ==> t@ == jwt_text(email@, expiry_of(now_secs, ttl_hours), secret@),
        r matches Ok(t) ==> (jwt_payload(t@, secret@) matches Some(p) && payload_claims(p) == Some((email@, expiry_of(now_secs, ttl_hours)))),
{
    let claims = claims_for(email, now_secs, ttl_hours);
    encode_jwt(&claims, secret)
}

/// A token comes back with the claims it was issued with: when
/// `issue_token` made `t` for `email` with expiry `exp` under `secret`, any
/// claims `verify_token` accepts for `t` under `secret` are `email` and
/// `exp` (whether it accepts them depends on the clock).
pub proof fn lemma_issued_token_reads_back(
    t: Seq<char>,
    secret: Seq<char>,
    email: Seq<char>,
    exp: usize,
    sub: Seq<char>,
    exp2: usize,
)
    requires
        jwt_payload(t, secret) matches Some(p) && payload_claims(p) == Some((email, exp)),
        jwt_payload(t, secret) matches Some(p) && payload_claims(p) == Some((sub, exp2)),
    ensures
        sub == email,
        exp2 == exp,
{
}

/// The subject of the bearer token of an `Authorization` header, when its
/// signature verifies under `secret` and it carries claims.
pub open spec fn bearer_subject(authorization: Option<Seq<char>>, secret: Seq<char>) -> Option<Seq<char>> {
    match authorization {
        Some(a) => match bearer_token(a) {
            Some(t) => match jwt_payload(t, secret) {
                Some(p) => match payload_claims(p) {
                    Some((s, _)) => Some(s),
                    None => None,
                },
                None => None,
            },
            None => None,
        },
        None => None,
    }
}

/// Authorizes an admin request from its `Authorization` and `x-admin-token`
/// headers: nobody without a signing secret; otherwise the subject of a
/// bearer JWT that verifies, else the admin email when the static admin
/// token matches, else nobody.
pub fn admin_request(
    jwt_secret: &str,
    authorization: Option<&str>,
    admin_token: &str,
    x_admin_token: Option<&str>,
    admin_email: &str,
) -> (r: Option<String>)
    ensures
        jwt_secret@.len() == 0 ==> r is None,
        jwt_secret@.len() > 0 && static_token_ok(admin_token@, match x_admin_token { Some(p) => Some(p@), None => None })
            ==> r is Some,
        !static_token_ok(admin_token@, match x_admin_token { Some(p) => Some(p@), None => None }) ==> (r matches Some(e)
            ==> bearer_subject(match authorization { Some(a) => Some(a@), None => None }, jwt_secret@) == Some(e@)),
        r matches Some(e) ==> (e@ == admin_email@ || bearer_subject(
            match authorization { Some(a) => Some(a@), None => None },
            jwt_secret@,
        ) == Some(e@)),
        jwt_secret@.len() > 0 && match authorization { Some(a) => bearer_token(a@) is None, None => true }
            ==> if static_token_ok(admin_token@, match x_admin_token { Some(p) => Some(p@), None => None }) {
                r matches Some(e) && e@ == admin_email@
            } else {
                r is None
            },
{
    let verified = match jwt_to_verify(jwt_secret, authorization) {
        Some(tok) => match verify_token(tok.as_str(), jwt_secret) {
            Ok(c) => Some(c.sub),
            Err(_) => None,
        },
        None => None,
    };
    admin_identity(jwt_secret, verified, admin_token, x_admin_token, admin_email)
}

} // verus!
