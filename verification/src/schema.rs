//! The event standard: what the gateway accepts on `POST /v1/events`.
//!
//! Every event is checked against this before it is queued; any violation
//! rejects it with a list of messages. The field set mirrors the columns of a
//! tenant's `events` table.

use vstd::prelude::*;
use vstd::utf8::encode_utf8;
use crate::json::{find_member, member, JsonNumber, JsonValue};
use crate::text::{
    chars_eq_str, chars_of, decimal, decimal_chars, extend_chars, extend_str, gather, join3,
    lemma_gather_empty,
    push_text, str_views, string_of, texts, trim, trim_chars,
};
use crate::time::{naive_formats, naive_instant, parse_naive, parse_rfc3339, rfc3339_instant};

verus! {

/// Fields that must be present as non-blank strings.
pub open spec fn required_fields() -> Seq<Seq<char>> {
    seq!["category"@, "event_type"@]
}

/// String-typed columns, plus the `attributes` JSON-blob escape hatch.
pub open spec fn string_fields() -> Seq<Seq<char>> {
    seq![
        "source"@, "category"@, "event_type"@, "severity"@, "user_id"@, "user_email"@,
        "session_id"@, "request_id"@, "entity_type"@, "entity_id"@, "message"@,
        "error_code"@, "model"@, "route"@, "app_version"@, "server"@, "ip"@, "user_agent"@,
        "attributes"@,
    ]
}

/// Unsigned-integer columns with their inclusive upper bound.
pub open spec fn numeric_fields() -> Seq<(Seq<char>, u64)> {
    seq![
        ("tokens_input"@, 4294967295u64), ("tokens_output"@, 4294967295u64),
        ("duration_ms"@, 4294967295u64), ("http_status"@, 65535u64),
    ]
}

/// Timestamp columns.
pub open spec fn timestamp_fields() -> Seq<Seq<char>> {
    seq!["ts"@, "received_at"@]
}

/// Allowed `severity` values.
pub open spec fn severities() -> Seq<Seq<char>> {
    seq!["debug"@, "info"@, "warn"@, "error"@]
}

/// Whether `field` is part of the standard.
pub open spec fn known_name(field: Seq<char>) -> bool {
    ||| field == "event_id"@
    ||| string_fields().contains(field)
    ||| timestamp_fields().contains(field)
    ||| exists|i: int| 0 <= i < numeric_fields().len() && #[trigger] numeric_fields()[i].0 == field
}

/// Whether a timestamp column's value is acceptable: any JSON number (epoch
/// seconds or millis), or a non-blank string that parses as RFC 3339 or as one
/// of the accepted naive datetime formats.
pub open spec fn valid_timestamp(v: JsonValue) -> bool {
    match v {
        JsonValue::Number(_) => true,
        JsonValue::String(s) => {
            let t = trim(s@);
            &&& t.len() > 0
            &&& (rfc3339_instant(t) is Some || exists|i: int|
                0 <= i < naive_formats().len() && #[trigger] naive_instant(t, naive_formats()[i])
                    is Some)
        },
        _ => false,
    }
}

/// Whether the bytes of a string are accepted by `uuid::Uuid::parse_str`:
/// 32 hex digits, the hyphenated 8-4-4-4-12 form, that form in braces, or
/// that form after a `urn:uuid:` prefix (any ASCII case).
pub open spec fn uuid_text(b: Seq<u8>) -> bool {
    ||| b.len() == 32 && forall|i: int| 0 <= i < 32 ==> is_hex_byte(#[trigger] b[i])
    ||| hyphenated_uuid(b)
    ||| b.len() == 38 && b[0] == 0x7Bu8 && b[37] == 0x7Du8 && hyphenated_uuid(b.subrange(1, 37))
    ||| b.len() == 45 && urn_prefix(b.take(9)) && hyphenated_uuid(b.skip(9))
}

pub open spec fn is_hex_byte(c: u8) -> bool {
    (0x30 <= c <= 0x39) || (0x41 <= c <= 0x46) || (0x61 <= c <= 0x66)
}

pub open spec fn hyphenated_uuid(b: Seq<u8>) -> bool {
    &&& b.len() == 36
    &&& forall|i: int| 0 <= i < 36 ==> if i == 8 || i == 13 || i == 18 || i == 23 {
        #[trigger] b[i] == 0x2Du8
    } else {
        is_hex_byte(b[i])
    }
}

/// `urn:uuid:` compared ignoring ASCII case.
pub open spec fn urn_prefix(b: Seq<u8>) -> bool {
    let lower = |c: u8| if 0x41 <= c <= 0x5A { (c + 32) as u8 } else { c };
    b.len() == 9 && lower(b[0]) == 0x75u8 && lower(b[1]) == 0x72u8 && lower(b[2]) == 0x6Eu8
        && b[3] == 0x3Au8 && lower(b[4]) == 0x75u8 && lower(b[5]) == 0x75u8 && lower(b[6])
        == 0x69u8 && lower(b[7]) == 0x64u8 && b[8] == 0x3Au8
}

/// Whether `uuid::Uuid::parse_str(s)` succeeds.
#[verifier::external_body]
pub(crate) fn uuid_parses(s: &str) -> (r: bool)
    ensures
        r == uuid_text(encode_utf8(s@)),
{
    uuid::Uuid::parse_str(s).is_ok()
}

pub open spec fn unknown_msg(field: Seq<char>) -> Seq<char> {
    "unknown field '"@ + field + "' (custom data must go inside the 'attributes' string)"@
}

pub open spec fn missing_msg(field: Seq<char>) -> Seq<char> {
    "missing required string field '"@ + field + "'"@
}

pub open spec fn not_string_msg(field: Seq<char>) -> Seq<char> {
    "field '"@ + field + "' must be a string"@
}

pub open spec fn severity_msg(sev: Seq<char>) -> Seq<char> {
    "severity '"@ + sev + "' invalid; allowed: debug, info, warn, error"@
}

pub open spec fn exceeds_msg(field: Seq<char>, n: u64, max: u64) -> Seq<char> {
    "field '"@ + field + "'="@ + decimal(n as nat) + " exceeds max "@ + decimal(max as nat)
}

pub open spec fn not_unsigned_msg(field: Seq<char>) -> Seq<char> {
    "field '"@ + field + "' must be a non-negative integer"@
}

pub open spec fn timestamp_msg(field: Seq<char>) -> Seq<char> {
    "field '"@ + field + "' must be an RFC3339 datetime string or an epoch number"@
}

/// Messages for the members whose names are not part of the standard.
pub open spec fn unknown_errors(entries: Seq<(String, JsonValue)>) -> Seq<Seq<char>> {
    gather(
        entries,
        |e: (String, JsonValue)| if known_name(e.0@) { seq![] } else { seq![unknown_msg(e.0@)] },
    )
}

/// Message for a required field that is absent, not a string, or blank.
pub open spec fn required_error(entries: Seq<(String, JsonValue)>, f: Seq<char>) -> Seq<Seq<char>> {
    match member(entries, f) {
        Some(JsonValue::String(s)) => if trim(s@).len() > 0 { seq![] } else { seq![missing_msg(f)] },
        _ => seq![missing_msg(f)],
    }
}

/// Message for a string column present with a non-string value.
pub open spec fn string_error(entries: Seq<(String, JsonValue)>, f: Seq<char>) -> Seq<Seq<char>> {
    match member(entries, f) {
        Some(JsonValue::String(_)) => seq![],
        Some(_) => seq![not_string_msg(f)],
        None => seq![],
    }
}

/// Message for a `severity` string outside the allowed values.
pub open spec fn severity_error(entries: Seq<(String, JsonValue)>) -> Seq<Seq<char>> {
    match member(entries, "severity"@) {
        Some(JsonValue::String(s)) => if severities().contains(s@) { seq![] } else { seq![severity_msg(s@)] },
        _ => seq![],
    }
}

/// Message for an `event_id` that is not a UUID string.
pub open spec fn event_id_error(entries: Seq<(String, JsonValue)>) -> Seq<Seq<char>> {
    match member(entries, "event_id"@) {
        Some(JsonValue::String(s)) => if uuid_text(encode_utf8(s@)) { seq![] } else {
            seq!["field 'event_id' must be a UUID string"@]
        },
        Some(_) => seq!["field 'event_id' must be a UUID string"@],
        None => seq![],
    }
}

/// Message for a numeric column that is not an unsigned integer within its bound.
pub open spec fn numeric_error(entries: Seq<(String, JsonValue)>, f: (Seq<char>, u64)) -> Seq<Seq<char>> {
    match member(entries, f.0) {
        Some(v) => match v.spec_as_u64() {
            Some(n) => if n <= f.1 { seq![] } else { seq![exceeds_msg(f.0, n, f.1)] },
            None => seq![not_unsigned_msg(f.0)],
        },
        None => seq![],
    }
}

/// Message for a timestamp column whose value is not acceptable.
pub open spec fn timestamp_error(entries: Seq<(String, JsonValue)>, f: Seq<char>) -> Seq<Seq<char>> {
    match member(entries, f) {
        Some(v) => if valid_timestamp(v) { seq![] } else { seq![timestamp_msg(f)] },
        None => seq![],
    }
}

pub open spec fn required_errors(e: Seq<(String, JsonValue)>, fields: Seq<Seq<char>>) -> Seq<Seq<char>> {
    gather(fields, |f: Seq<char>| required_error(e, f))
}

pub open spec fn string_errors(e: Seq<(String, JsonValue)>, fields: Seq<Seq<char>>) -> Seq<Seq<char>> {
    gather(fields, |f: Seq<char>| string_error(e, f))
}

pub open spec fn numeric_errors(e: Seq<(String, JsonValue)>, fields: Seq<(Seq<char>, u64)>) -> Seq<Seq<char>> {
    gather(fields, |f: (Seq<char>, u64)| numeric_error(e, f))
}

pub open spec fn timestamp_errors(e: Seq<(String, JsonValue)>, fields: Seq<Seq<char>>) -> Seq<Seq<char>> {
    gather(fields, |f: Seq<char>| timestamp_error(e, f))
}

/// Every violation of the standard by the members `e` of an object, in the
/// order they are reported.
pub open spec fn object_violations(e: Seq<(String, JsonValue)>) -> Seq<Seq<char>> {
    unknown_errors(e) + required_errors(e, required_fields()) + string_errors(e, string_fields())
        + severity_error(e) + event_id_error(e) + numeric_errors(e, numeric_fields())
        + timestamp_errors(e, timestamp_fields())
}

/// Every violation of the standard by `v`, in the order they are reported;
/// empty exactly when `v` is a valid event.
pub open spec fn violations(v: JsonValue) -> Seq<Seq<char>> {
    match v {
        JsonValue::Object(obj) => object_violations(obj@),
        _ => seq!["event must be a JSON object"@],
    }
}

/// Whether `v` meets every rule of the standard: an object whose members
/// are all standard fields; `category` and `event_type` non-blank strings;
/// every string column present only as a string; `severity`, if a string,
/// one of the allowed values; `event_id`, if present, a UUID string; every
/// numeric column present only as an unsigned integer within its bound; and
/// every timestamp column present only with an acceptable value.
pub open spec fn satisfies_standard(v: JsonValue) -> bool {
    match v {
        JsonValue::Object(obj) => {
            let e = obj@;
            &&& forall|i: int| 0 <= i < e.len() ==> known_name(#[trigger] e[i].0@)
            &&& forall|i: int| 0 <= i < required_fields().len() ==> (member(e, #[trigger] required_fields()[i]) matches Some(
                JsonValue::String(s),
            ) && trim(s@).len() > 0)
            &&& forall|i: int| 0 <= i < string_fields().len() ==> (member(e, #[trigger] string_fields()[i]) matches Some(x)
                ==> x is String)
            &&& (member(e, "severity"@) matches Some(JsonValue::String(s)) ==> severities().contains(s@))
            &&& (member(e, "event_id"@) matches Some(x) ==> (x matches JsonValue::String(s) && uuid_text(encode_utf8(s@))))
            &&& forall|i: int| 0 <= i < numeric_fields().len() ==> (member(e, #[trigger] numeric_fields()[i].0) matches Some(x)
                ==> (x.spec_as_u64() matches Some(n) && n <= numeric_fields()[i].1))
            &&& forall|i: int| 0 <= i < timestamp_fields().len() ==> (member(e, #[trigger] timestamp_fields()[i]) matches Some(x)
                ==> valid_timestamp(x))
        },
        _ => false,
    }
}

/// An event has no violation exactly when it meets every rule of the
/// standard: `validate_event` returns an empty list exactly for the events
/// that `satisfies_standard` accepts.
pub proof fn lemma_valid_iff_no_violations(v: JsonValue)
    ensures
        violations(v).len() == 0 <==> satisfies_standard(v),
{
    if let JsonValue::Object(obj) = v {
        let e = obj@;
        let uf = |x: (String, JsonValue)| if known_name(x.0@) { seq![] } else { seq![unknown_msg(x.0@)] };
        let rf = |f: Seq<char>| required_error(e, f);
        assert(unknown_errors(e) == gather(e, uf));
        assert(required_errors(e, required_fields()) == gather(required_fields(), rf));
        lemma_gather_empty(e, uf);
        lemma_gather_empty(required_fields(), rf);
        assert((forall|i: int| 0 <= i < e.len() ==> #[trigger] uf(e[i]).len() == 0) <==> (forall|i: int|
            0 <= i < e.len() ==> known_name(#[trigger] e[i].0@))) by {
            if forall|i: int| 0 <= i < e.len() ==> known_name(#[trigger] e[i].0@) {
                assert forall|i: int| 0 <= i < e.len() implies #[trigger] uf(e[i]).len() == 0 by {
                    assert(known_name(e[i].0@));
                }
            }
            if forall|i: int| 0 <= i < e.len() ==> #[trigger] uf(e[i]).len() == 0 {
                assert forall|i: int| 0 <= i < e.len() implies known_name(#[trigger] e[i].0@) by {
                    assert(uf(e[i]).len() == 0);
                }
            }
        }
        assert((forall|i: int| 0 <= i < required_fields().len() ==> #[trigger] rf(required_fields()[i]).len() == 0) <==> (
        forall|i: int| 0 <= i < required_fields().len() ==> (member(e, #[trigger] required_fields()[i]) matches Some(
            JsonValue::String(s),
        ) && trim(s@).len() > 0))) by {
            assert(rf(required_fields()[0]) == required_error(e, required_fields()[0]));
            assert(rf(required_fields()[1]) == required_error(e, required_fields()[1]));
        }
        let sf = |f: Seq<char>| string_error(e, f);
        let nf = |f: (Seq<char>, u64)| numeric_error(e, f);
        let tf = |f: Seq<char>| timestamp_error(e, f);
        assert(string_errors(e, string_fields()) == gather(string_fields(), sf));
        assert(numeric_errors(e, numeric_fields()) == gather(numeric_fields(), nf));
        assert(timestamp_errors(e, timestamp_fields()) == gather(timestamp_fields(), tf));
        lemma_gather_empty(string_fields(), sf);
        lemma_gather_empty(numeric_fields(), nf);
        lemma_gather_empty(timestamp_fields(), tf);
        let fs = string_fields();
        assert((forall|i: int| 0 <= i < fs.len() ==> #[trigger] sf(fs[i]).len() == 0) <==> (forall|i: int|
            0 <= i < fs.len() ==> (member(e, #[trigger] fs[i]) matches Some(x) ==> x is String))) by {
            if forall|i: int| 0 <= i < fs.len() ==> (member(e, #[trigger] fs[i]) matches Some(x) ==> x is String) {
                assert forall|i: int| 0 <= i < fs.len() implies #[trigger] sf(fs[i]).len() == 0 by {
                    assert(member(e, fs[i]) matches Some(x) ==> x is String);
                }
            }
            if forall|i: int| 0 <= i < fs.len() ==> #[trigger] sf(fs[i]).len() == 0 {
                assert forall|i: int| 0 <= i < fs.len() implies (member(e, #[trigger] fs[i]) matches Some(x) ==> x is String) by {
                    assert(sf(fs[i]).len() == 0);
                }
            }
        }
        let ns = numeric_fields();
        assert((forall|i: int| 0 <= i < ns.len() ==> #[trigger] nf(ns[i]).len() == 0) <==> (forall|i: int|
            0 <= i < ns.len() ==> (member(e, #[trigger] ns[i].0) matches Some(x) ==> (x.spec_as_u64() matches Some(n) && n
            <= ns[i].1)))) by {
            if forall|i: int| 0 <= i < ns.len() ==> (member(e, #[trigger] ns[i].0) matches Some(x) ==> (x.spec_as_u64()
                matches Some(n) && n <= ns[i].1)) {
                assert forall|i: int| 0 <= i < ns.len() implies #[trigger] nf(ns[i]).len() == 0 by {
                    assert(member(e, ns[i].0) matches Some(x) ==> (x.spec_as_u64() matches Some(n) && n <= ns[i].1));
                }
            }
            if forall|i: int| 0 <= i < ns.len() ==> #[trigger] nf(ns[i]).len() == 0 {
                assert forall|i: int| 0 <= i < ns.len() implies (member(e, #[trigger] ns[i].0) matches Some(x) ==> (
                x.spec_as_u64() matches Some(n) && n <= ns[i].1)) by {
                    assert(nf(ns[i]).len() == 0);
                }
            }
        }
        let ts = timestamp_fields();
        assert((forall|i: int| 0 <= i < ts.len() ==> #[trigger] tf(ts[i]).len() == 0) <==> (forall|i: int|
            0 <= i < ts.len() ==> (member(e, #[trigger] ts[i]) matches Some(x) ==> valid_timestamp(x)))) by {
            if forall|i: int| 0 <= i < ts.len() ==> (member(e, #[trigger] ts[i]) matches Some(x) ==> valid_timestamp(x)) {
                assert forall|i: int| 0 <= i < ts.len() implies #[trigger] tf(ts[i]).len() == 0 by {
                    assert(member(e, ts[i]) matches Some(x) ==> valid_timestamp(x));
                }
            }
            if forall|i: int| 0 <= i < ts.len() ==> #[trigger] tf(ts[i]).len() == 0 {
                assert forall|i: int| 0 <= i < ts.len() implies (member(e, #[trigger] ts[i]) matches Some(x) ==> valid_timestamp(
                    x,
                )) by {
                    assert(tf(ts[i]).len() == 0);
                }
            }
        }
    }
}

proof fn lemma_member_found(e: Seq<(String, JsonValue)>, key: Seq<char>)
    ensures
        member(e, key) matches Some(x) ==> exists|j: int| 0 <= j < e.len() && e[j].0@ == key && #[trigger] e[j].1 == x,
    decreases e.len(),
{
    if e.len() > 0 && e[0].0@ != key {
        lemma_member_found(e.drop_first(), key);
        if let Some(x) = member(e, key) {
            let j = choose|j: int| 0 <= j < e.drop_first().len() && e.drop_first()[j].0@ == key && #[trigger] e.drop_first()[j].1 == x;
            assert(e[j + 1].1 == x);
        }
    }
}

/// The allowed severities are exactly `debug`, `info`, `warn` and `error`:
/// an event with non-blank string `category` and `event_type` and a string
/// `severity` (and nothing else) has no violation exactly when its severity
/// is one of those four words.
pub proof fn lemma_severity_words(v: JsonValue)
    requires
        v matches JsonValue::Object(o) && o@.len() == 3 && o@[0].0@ == "category"@ && o@[1].0@ == "event_type"@
            && o@[2].0@ == "severity"@,
        v matches JsonValue::Object(o) && o@.len() == 3 && (o@[0].1 matches JsonValue::String(c) && trim(c@).len() > 0),
        v matches JsonValue::Object(o) && o@.len() == 3 && (o@[1].1 matches JsonValue::String(t) && trim(t@).len() > 0),
        v matches JsonValue::Object(o) && o@.len() == 3 && o@[2].1 is String,
    ensures
        v matches JsonValue::Object(o) && o@[2].1 matches JsonValue::String(s) && (violations(v).len() == 0 <==> (s@
            == "debug"@ || s@ == "info"@ || s@ == "warn"@ || s@ == "error"@)),
{
    reveal_strlit("category");
    reveal_strlit("event_type");
    reveal_strlit("severity");
    reveal_strlit("event_id");
    reveal_strlit("debug");
    reveal_strlit("info");
    reveal_strlit("warn");
    reveal_strlit("error");
    reveal_strlit("tokens_input");
    reveal_strlit("tokens_output");
    reveal_strlit("duration_ms");
    reveal_strlit("http_status");
    reveal_strlit("ts");
    reveal_strlit("received_at");
    reveal_with_fuel(member, 4);
    lemma_valid_iff_no_violations(v);
    let e = v->Object_0@;
    let s = e[2].1->String_0;
    assert(e[0].1 is String && e[1].1 is String);
    assert(known_name(e[0].0@)) by {
        assert(string_fields()[1] == e[0].0@);
    }
    assert(known_name(e[1].0@)) by {
        assert(string_fields()[2] == e[1].0@);
    }
    assert(known_name(e[2].0@)) by {
        assert(string_fields()[3] == e[2].0@);
    }
    assert forall|i: int| 0 <= i < e.len() implies known_name(#[trigger] e[i].0@) by {
        if i == 0 {
        } else if i == 1 {
        } else {
        }
    }
    let e1 = e.drop_first();
    let e2 = e1.drop_first();
    assert(e1[0] == e[1] && e1.len() == 2);
    assert(e2[0] == e[2] && e2.len() == 1);
    assert(e2.drop_first().len() == 0);
    assert(("category"@)[0] != ("event_id"@)[0] && ("severity"@)[0] != ("event_id"@)[0]);
    assert(("category"@)[0] != ("severity"@)[0] && ("event_type"@)[0] != ("severity"@)[0]);
    assert(e[0].0@ != "event_type"@ && e[0].0@ != "event_id"@ && e[1].0@ != "event_id"@ && e[2].0@ != "event_id"@);
    assert(e[0].0@ != "severity"@ && e[1].0@ != "severity"@);
    assert(member(e1, "event_type"@) == Some(e[1].1));
    assert(member(e2.drop_first(), "event_id"@) is None);
    assert(member(e2, "event_id"@) is None);
    assert(member(e1, "event_id"@) is None);
    assert(member(e, "category"@) == Some(e[0].1));
    assert(member(e, "event_type"@) == Some(e[1].1));
    assert(member(e, "severity"@) == Some(e[2].1));
    assert(member(e, "event_id"@) is None);
    assert forall|i: int| 0 <= i < string_fields().len() implies (member(e, #[trigger] string_fields()[i]) matches Some(x)
        ==> x is String) by {
        lemma_member_found(e, string_fields()[i]);
    }
    assert forall|i: int| 0 <= i < numeric_fields().len() implies member(e, #[trigger] numeric_fields()[i].0) is None by {
        let k = numeric_fields()[i].0;
        assert(k != e[0].0@ && k != e[1].0@ && k != e[2].0@);
    }
    assert forall|i: int| 0 <= i < timestamp_fields().len() implies member(e, #[trigger] timestamp_fields()[i]) is None by {
        let k = timestamp_fields()[i];
        assert(k != e[0].0@ && k != e[1].0@ && k != e[2].0@);
    }
    assert(severities().contains(s@) <==> (s@ == "debug"@ || s@ == "info"@ || s@ == "warn"@ || s@ == "error"@)) by {
        if s@ == "debug"@ {
            assert(severities()[0] == s@);
        } else if s@ == "info"@ {
            assert(severities()[1] == s@);
        } else if s@ == "warn"@ {
            assert(severities()[2] == s@);
        } else if s@ == "error"@ {
            assert(severities()[3] == s@);
        }
    }
}

fn required_list() -> (r: Vec<&'static str>)
    ensures
        str_views(r@) == required_fields(),
{
    let r = vec!["category", "event_type"];
    assert(str_views(r@) =~= required_fields());
    r
}

fn string_field_list() -> (r: Vec<&'static str>)
    ensures
        str_views(r@) == string_fields(),
{
    let r = vec![
        "source", "category", "event_type", "severity", "user_id", "user_email", "session_id",
        "request_id", "entity_type", "entity_id", "message", "error_code", "model", "route",
        "app_version", "server", "ip", "user_agent", "attributes",
    ];
    assert(str_views(r@) =~= string_fields());
    r
}

/// Views of a list of `(name, bound)` pairs.
pub open spec fn bound_views(v: Seq<(&str, u64)>) -> Seq<(Seq<char>, u64)> {
    Seq::new(v.len(), |i: int| (v[i].0@, v[i].1))
}

fn numeric_field_list() -> (r: Vec<(&'static str, u64)>)
    ensures
        bound_views(r@) == numeric_fields(),
{
    let r = vec![
        ("tokens_input", 4294967295u64), ("tokens_output", 4294967295u64),
        ("duration_ms", 4294967295u64), ("http_status", 65535u64),
    ];
    assert(r@[0].0@ == numeric_fields()[0].0);
    assert(r@[1].0@ == numeric_fields()[1].0);
    assert(r@[2].0@ == numeric_fields()[2].0);
    assert(r@[3].0@ == numeric_fields()[3].0);
    assert(bound_views(r@) =~= numeric_fields());
    r
}

fn timestamp_field_list() -> (r: Vec<&'static str>)
    ensures
        str_views(r@) == timestamp_fields(),
{
    let r = vec!["ts", "received_at"];
    assert(str_views(r@) =~= timestamp_fields());
    r
}

fn severity_list() -> (r: Vec<&'static str>)
    ensures
        str_views(r@) == severities(),
{
    let r = vec!["debug", "info", "warn", "error"];
    assert(str_views(r@) =~= severities());
    r
}

/// Whether the characters `x` are one of the names in `list`.
fn in_list(x: &Vec<char>, list: &Vec<&str>) -> (r: bool)
    ensures
        r == str_views(list@).contains(x@),
{
    let mut i: usize = 0;
    while i < list.len()
        invariant
            i <= list.len(),
            forall|j: int| 0 <= j < i ==> str_views(list@)[j] != x@,
        decreases list.len() - i,
    {
        if chars_eq_str(x, list[i]) {
            assert(str_views(list@)[i as int] == x@);
            return true;
        }
        i = i + 1;
    }
    false
}

/// Whether `field` is part of the standard.
fn known_field(field: &Vec<char>) -> (r: bool)
    ensures
        r == known_name(field@),
{
    if chars_eq_str(field, "event_id") {
        return true;
    }
    if in_list(field, &string_field_list()) || in_list(field, &timestamp_field_list()) {
        return true;
    }
    let nums = numeric_field_list();
    let mut i: usize = 0;
    while i < nums.len()
        invariant
            i <= nums.len(),
            bound_views(nums@) == numeric_fields(),
            forall|j: int| 0 <= j < i ==> numeric_fields()[j].0 != field@,
        decreases nums.len() - i,
    {
        assert(bound_views(nums@)[i as int].0 == nums@[i as int].0@);
        if chars_eq_str(field, nums[i].0) {
            assert(numeric_fields()[i as int].0 == field@);
            return true;
        }
        i = i + 1;
    }
    false
}

/// Whether `field` is a column of the standard (or `event_id`).
pub fn is_known(field: &str) -> (r: bool)
    ensures
        r == known_name(field@),
{
    let c = chars_of(field);
    known_field(&c)
}

/// Whether a timestamp column's value is acceptable (see `valid_timestamp`).
fn timestamp_ok(v: &JsonValue) -> (r: bool)
    ensures
        r == valid_timestamp(*v),
{
    match v {
        JsonValue::Number(_) => true,
        JsonValue::String(s) => {
            let c = chars_of(s.as_str());
            let t = trim_chars(&c);
            if t.len() == 0 {
                return false;
            }
            let text = string_of(&t);
            if parse_rfc3339(text.as_str()).is_some() {
                return true;
            }
            let formats = crate::time::naive_format_list();
            let mut i: usize = 0;
            while i < formats.len()
                invariant
                    formats@.len() == naive_formats().len(),
                    forall|j: int| 0 <= j < formats@.len() ==> #[trigger] formats@[j]@ == naive_formats()[j],
                    i <= formats.len(),
                    valid_timestamp(*v) <==> exists|j: int|
                        0 <= j < naive_formats().len() && #[trigger] naive_instant(text@, naive_formats()[j]) is Some,
                    forall|j: int| 0 <= j < i ==> #[trigger] naive_instant(text@, naive_formats()[j]) is None,
                decreases formats.len() - i,
            {
                if parse_naive(text.as_str(), formats[i]).is_some() {
                    return true;
                }
                i = i + 1;
            }
            false
        },
        _ => false,
    }
}

fn message(text: &str) -> (r: String)
    ensures
        r@ == text@,
{
    let c = chars_of(text);
    string_of(&c)
}

/// Validates one event against the standard. Returns every violation, in
/// order; the list is empty exactly when the event is valid.
pub fn validate_event(v: &JsonValue) -> (errs: Vec<String>)
    ensures
        texts(errs@) == violations(*v),
{
    let entries = match v {
        JsonValue::Object(entries) => entries,
        _ => {
            let mut errs: Vec<String> = Vec::new();
            push_text(&mut errs, message("event must be a JSON object"));
            assert(texts(errs@) =~= violations(*v));
            return errs;
        },
    };
    let ghost e = entries@;
    let mut errs: Vec<String> = Vec::new();

    // Unknown fields.
    let mut i: usize = 0;
    assert(texts(errs@) =~= unknown_errors(e.take(0)));
    while i < entries.len()
        invariant
            e == entries@,
            i <= entries.len(),
            texts(errs@) == unknown_errors(e.take(i as int)),
        decreases entries.len() - i,
    {
        let key = chars_of(entries[i].0.as_str());
        assert(e.take(i + 1).drop_last() =~= e.take(i as int));
        if !known_field(&key) {
            push_text(&mut errs, join3("unknown field '", &key, "' (custom data must go inside the 'attributes' string)"));
        }
        i = i + 1;
    }
    assert(e.take(entries.len() as int) =~= e);
    let ghost after_unknown = texts(errs@);

    // Required fields.
    let req = required_list();
    let mut i: usize = 0;
    assert(required_fields().take(0) =~= Seq::<Seq<char>>::empty());
    while i < req.len()
        invariant
            e == entries@,
            str_views(req@) == required_fields(),
            i <= req.len(),
            texts(errs@) == after_unknown + required_errors(e, required_fields().take(i as int)),
        decreases req.len() - i,
    {
        assert(required_fields().take(i + 1).drop_last() =~= required_fields().take(i as int));
        let name = chars_of(req[i]);
        let ok = match find_member(entries, req[i]) {
            Some(JsonValue::String(s)) => {
                let c = chars_of(s.as_str());
                trim_chars(&c).len() > 0
            },
            _ => false,
        };
        if !ok {
            push_text(&mut errs, join3("missing required string field '", &name, "'"));
        }
        assert(texts(errs@) =~= after_unknown + required_errors(e, required_fields().take(i + 1)));
        i = i + 1;
    }
    assert(required_fields().take(2) =~= required_fields());
    let ghost after_required = texts(errs@);

    // String columns hold strings.
    let strs = string_field_list();
    let mut i: usize = 0;
    assert(string_fields().take(0) =~= Seq::<Seq<char>>::empty());
    while i < strs.len()
        invariant
            e == entries@,
            str_views(strs@) == string_fields(),
            i <= strs.len(),
            texts(errs@) == after_required + string_errors(e, string_fields().take(i as int)),
        decreases strs.len() - i,
    {
        assert(string_fields().take(i + 1).drop_last() =~= string_fields().take(i as int));
        let name = chars_of(strs[i]);
        match find_member(entries, strs[i]) {
            Some(val) => if !val.is_string() {
                push_text(&mut errs, join3("field '", &name, "' must be a string"));
            },
            None => {},
        }
        assert(texts(errs@) =~= after_required + string_errors(e, string_fields().take(i + 1)));
        i = i + 1;
    }
    assert(string_fields().take(19) =~= string_fields());
    let ghost after_strings = texts(errs@);

    // Severity is one of the allowed values.
    match find_member(entries, "severity") {
        Some(JsonValue::String(sev)) => {
            let c = chars_of(sev.as_str());
            if !in_list(&c, &severity_list()) {
                push_text(&mut errs, join3("severity '", &c, "' invalid; allowed: debug, info, warn, error"));
            }
        },
        _ => {},
    }
    assert(texts(errs@) =~= after_strings + severity_error(e));
    let ghost after_severity = texts(errs@);

    // event_id is a UUID.
    match find_member(entries, "event_id") {
        Some(JsonValue::String(id)) => {
            if !uuid_parses(id.as_str()) {
                push_text(&mut errs, message("field 'event_id' must be a UUID string"));
            }
        },
        Some(_) => {
            push_text(&mut errs, message("field 'event_id' must be a UUID string"));
        },
        None => {},
    }
    assert(texts(errs@) =~= after_severity + event_id_error(e));
    let ghost after_id = texts(errs@);

    // Numeric columns are unsigned integers within range.
    let nums = numeric_field_list();
    let mut i: usize = 0;
    assert(numeric_fields().take(0) =~= Seq::<(Seq<char>, u64)>::empty());
    while i < nums.len()
        invariant
            e == entries@,
            bound_views(nums@) == numeric_fields(),
            i <= nums.len(),
            texts(errs@) == after_id + numeric_errors(e, numeric_fields().take(i as int)),
        decreases nums.len() - i,
    {
        assert(numeric_fields().take(i + 1).drop_last() =~= numeric_fields().take(i as int));
        let (f, max) = nums[i];
        assert(bound_views(nums@)[i as int] == (f@, max));
        let name = chars_of(f);
        match find_member(entries, f) {
            Some(val) => match val.as_u64() {
                Some(n) => if n > max {
                    let mut m: Vec<char> = Vec::new();
                    extend_str(&mut m, "field '");
                    extend_chars(&mut m, &name);
                    extend_str(&mut m, "'=");
                    extend_chars(&mut m, &decimal_chars(n));
                    extend_str(&mut m, " exceeds max ");
                    extend_chars(&mut m, &decimal_chars(max));
                    assert(m@ =~= exceeds_msg(f@, n, max));
                    push_text(&mut errs, string_of(&m));
                },
                None => {
                    push_text(&mut errs, join3("field '", &name, "' must be a non-negative integer"));
                },
            },
            None => {},
        }
        assert(texts(errs@) =~= after_id + numeric_errors(e, numeric_fields().take(i + 1)));
        i = i + 1;
    }
    assert(numeric_fields().take(4) =~= numeric_fields());
    let ghost after_numbers = texts(errs@);

    // Timestamps parse.
    let tss = timestamp_field_list();
    let mut i: usize = 0;
    assert(timestamp_fields().take(0) =~= Seq::<Seq<char>>::empty());
    while i < tss.len()
        invariant
            e == entries@,
            str_views(tss@) == timestamp_fields(),
            i <= tss.len(),
            texts(errs@) == after_numbers + timestamp_errors(e, timestamp_fields().take(i as int)),
        decreases tss.len() - i,
    {
        assert(timestamp_fields().take(i + 1).drop_last() =~= timestamp_fields().take(i as int));
        let name = chars_of(tss[i]);
        match find_member(entries, tss[i]) {
            Some(val) => if !timestamp_ok(val) {
                push_text(&mut errs, join3("field '", &name, "' must be an RFC3339 datetime string or an epoch number"));
            },
            None => {},
        }
        assert(texts(errs@) =~= after_numbers + timestamp_errors(e, timestamp_fields().take(i + 1)));
        i = i + 1;
    }
    assert(timestamp_fields().take(2) =~= timestamp_fields());
    errs
}

} // verus!
