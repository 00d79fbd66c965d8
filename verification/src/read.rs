//! Read API results and tenant selection: keyset paging over event rows,
//! single-event lookup, and which tenants an admin query covers.

use vstd::prelude::*;
use vstd::utf8::encode_utf8;
use crate::json::{find_member, JsonValue};
use crate::query::{cursor_clause, ident_ok, keyset_clause, param, param_name, placeholder, safe_ident, FilterState, Params};
use crate::schema::{uuid_parses, uuid_text};
use crate::text::{
    chars_eq_str, chars_of, extend_chars, extend_str, gather, lemma_signed_decimal_parses,
    lemma_split_once_joined, parse_i64, parse_i64_chars,
    push_text, signed_decimal, signed_decimal_chars, string_of, texts, trim, trim_chars,
};

verus! {

/// The paging key of a row's `_ts_ms` value: an integer, or a string that
/// parses as one (ClickHouse quotes 64-bit integers).
pub open spec fn millis_of(v: JsonValue) -> Option<int> {
    match v.spec_as_i64() {
        Some(x) => Some(x as int),
        None => match v.spec_as_str() {
            Some(s) => parse_i64(s),
            None => None,
        },
    }
}

/// The paging key of the last row: its `_ts_ms` milliseconds and its
/// `event_id`, when both are there.
pub open spec fn last_key(rows: Seq<JsonValue>) -> Option<(int, Seq<char>)> {
    let r = rows.last();
    match r.spec_get("_ts_ms"@) {
        Some(m) => match millis_of(m) {
            Some(ms) => match r.spec_get("event_id"@) {
                Some(i) => match i.spec_as_str() {
                    Some(id) => Some((ms, id)),
                    None => None,
                },
                None => None,
            },
            None => None,
        },
        None => None,
    }
}

/// The cursor for the next page: when a full page came back, `<ms>:<id>`
/// from the last row's paging key; otherwise none.
pub open spec fn next_cursor(rows: Seq<JsonValue>, limit: nat) -> Option<Seq<char>> {
    if rows.len() == limit && rows.len() > 0 {
        match last_key(rows) {
            Some((ms, id)) => Some(signed_decimal(ms) + ":"@ + id),
            None => None,
        }
    } else {
        None
    }
}

/// Paging resumes right after the page: when a full page yields a cursor and
/// the next request passes it back as `cursor`, the keyset clause is added
/// and binds exactly the last row's milliseconds and event id.
pub proof fn lemma_cursor_resumes_after_last_row(
    rows: Seq<JsonValue>,
    limit: nat,
    q: Seq<(String, String)>,
    desc: bool,
    st: FilterState,
)
    requires
        next_cursor(rows, limit) is Some,
        param(q, "cursor"@) == next_cursor(rows, limit),
    ensures
        last_key(rows) matches Some((ms, id)) && cursor_clause(q, desc, st) == (
            st.0.push(keyset_clause(desc, st.1.len())),
            st.1.push((param_name(st.1.len()), signed_decimal(ms))).push((param_name(st.1.len() + 1), id)),
        ),
{
    let (ms, id) = last_key(rows).unwrap();
    assert(i64::MIN <= ms <= i64::MAX);
    lemma_signed_decimal_parses(ms);
    reveal_strlit(":");
    assert(signed_decimal(ms) + ":"@ + id =~= signed_decimal(ms) + seq![':'] + id);
    lemma_split_once_joined(signed_decimal(ms), ':', id);
}

/// `entries` without the members named `key`.
pub open spec fn without_key(entries: Seq<(String, JsonValue)>, key: Seq<char>) -> Seq<(String, JsonValue)>
    decreases entries.len(),
{
    if entries.len() == 0 {
        entries
    } else {
        let r = without_key(entries.drop_last(), key);
        if entries.last().0@ == key {
            r
        } else {
            r.push(entries.last())
        }
    }
}

/// Whether `b` is row `a` with its `_ts_ms` helper column removed.
pub open spec fn stripped(a: JsonValue, b: JsonValue) -> bool {
    match a {
        JsonValue::Object(e) => b matches JsonValue::Object(e2) && e2@ == without_key(e@, "_ts_ms"@),
        _ => b == a,
    }
}

fn millis_value(v: &JsonValue) -> (r: Option<i64>)
    ensures
        match millis_of(*v) {
            Some(x) => r matches Some(y) && y as int == x,
            None => r is None,
        },
{
    match v.as_i64() {
        Some(x) => Some(x),
        None => match v.as_str() {
            Some(s) => parse_i64_chars(&chars_of(s.as_str())),
            None => None,
        },
    }
}

/// The next-page cursor for `rows` (see `next_cursor`).
pub fn page_cursor(rows: &Vec<JsonValue>, limit: usize) -> (r: Option<String>)
    ensures
        match next_cursor(rows@, limit as nat) {
            Some(c) => r matches Some(x) && x@ == c,
            None => r is None,
        },
{
    if rows.len() != limit || rows.len() == 0 {
        return None;
    }
    let last = &rows[rows.len() - 1];
    let m = match last.get("_ts_ms") {
        Some(m) => m,
        None => return None,
    };
    let ms = match millis_value(m) {
        Some(ms) => ms,
        None => return None,
    };
    let id = match last.get("event_id") {
        Some(i) => match i.as_str() {
            Some(id) => id,
            None => return None,
        },
        None => return None,
    };
    let mut c = signed_decimal_chars(ms);
    extend_str(&mut c, ":");
    extend_str(&mut c, id.as_str());
    Some(string_of(&c))
}

/// `entries` without the members named `key`.
fn remove_key(entries: Vec<(String, JsonValue)>, key: &str) -> (r: Vec<(String, JsonValue)>)
    ensures
        r@ == without_key(entries@, key@),
{
    let ghost orig = entries@;
    let total = entries.len();
    assert(orig.len() == total);
    let k = chars_of(key);
    let mut rest = entries;
    let mut out: Vec<(String, JsonValue)> = Vec::new();
    let mut n: usize = 0;
    assert(orig.take(0) =~= Seq::<(String, JsonValue)>::empty());
    while rest.len() > 0
        invariant
            n <= orig.len() <= usize::MAX,
            rest@ == orig.skip(n as int),
            out@ == without_key(orig.take(n as int), k@),
            k@ == key@,
        decreases rest.len(),
    {
        let item = rest.remove(0);
        assert(orig.take(n + 1).drop_last() =~= orig.take(n as int));
        assert(item == orig[n as int]);
        let name = chars_of(item.0.as_str());
        if !crate::text::chars_eq(&name, &k) {
            out.push(item);
        }
        assert(orig.skip(n as int).drop_first() =~= orig.skip(n + 1));
        n = n + 1;
    }
    assert(orig.take(orig.len() as int) =~= orig);
    out
}

/// Splits a page of event rows into the rows to return (each without its
/// `_ts_ms` helper column) and the cursor for the next page.
pub fn events_page(rows: Vec<JsonValue>, limit: usize) -> (r: (Vec<JsonValue>, Option<String>))
    ensures
        match next_cursor(rows@, limit as nat) {
            Some(c) => r.1 matches Some(x) && x@ == c,
            None => r.1 is None,
        },
        r.0@.len() == rows@.len(),
        forall|i: int| 0 <= i < rows@.len() ==> stripped(rows@[i], #[trigger] r.0@[i]),
{
    let cursor = page_cursor(&rows, limit);
    let ghost orig = rows@;
    let mut rest = rows;
    let mut out: Vec<JsonValue> = Vec::new();
    while rest.len() > 0
        invariant
            out.len() <= orig.len(),
            rest@ == orig.skip(out.len() as int),
            forall|i: int| 0 <= i < out.len() ==> stripped(orig[i], #[trigger] out@[i]),
        decreases rest.len(),
    {
        let row = rest.remove(0);
        assert(row == orig[out.len() as int]);
        assert(orig.skip(out.len() as int).drop_first() =~= orig.skip(out.len() + 1));
        let cleaned = match row {
            JsonValue::Object(entries) => JsonValue::Object(remove_key(entries, "_ts_ms")),
            other => other,
        };
        out.push(cleaned);
    }
    (out, cursor)
}

/// The lookup of one event by id: its SELECT and the bound id, or the error
/// message when the id is not a UUID.
pub open spec fn event_lookup(tenant: Seq<char>, id: Seq<char>) -> Result<(Seq<char>, Seq<(Seq<char>, Seq<char>)>), Seq<char>> {
    if !uuid_text(encode_utf8(id)) {
        Err("event_id must be a UUID"@)
    } else {
        Ok((
            "SELECT * FROM `"@ + tenant + "`.events WHERE event_id = "@ + placeholder(0, "UUID"@)
                + " LIMIT 1 FORMAT JSONEachRow"@,
            seq![(param_name(0), id)],
        ))
    }
}

/// Plans the lookup of one event by id in `tenant` (see `event_lookup`).
pub fn event_query(tenant: &str, id: &str) -> (r: Result<(String, Params), String>)
    ensures
        match event_lookup(tenant@, id@) {
            Ok((sql, ps)) => r matches Ok((s, p)) && s@ == sql && p@ == ps,
            Err(m) => r matches Err(x) && x@ == m,
        },
{
    if !uuid_parses(id) {
        return Err(string_of(&chars_of("event_id must be a UUID")));
    }
    let mut p = Params::new();
    let ph = p.add("UUID", id);
    let mut c: Vec<char> = Vec::new();
    extend_str(&mut c, "SELECT * FROM `");
    extend_str(&mut c, tenant);
    extend_str(&mut c, "`.events WHERE event_id = ");
    extend_str(&mut c, ph.as_str());
    extend_str(&mut c, " LIMIT 1 FORMAT JSONEachRow");
    assert(p@ =~= seq![(param_name(0), id@)]);
    Ok((string_of(&c), p))
}

/// Which tenants an admin query covers.
#[derive(Clone, Debug)]
pub enum TenantSelection {
    /// Every tenant that has an `events` table (rows tagged with their tenant).
    All,
    /// One named tenant.
    One(String),
    /// The named tenant is not a safe identifier.
    Invalid,
}

/// The selection an admin `tenant` parameter makes: absent, blank, `*` or
/// `all` select every tenant; another (trimmed) name selects that tenant if
/// it is a safe identifier.
pub open spec fn tenant_selection(p: Option<Seq<char>>) -> (bool, Option<Seq<char>>) {
    match p {
        None => (true, None),
        Some(s) => {
            let t = trim(s);
            if t == "*"@ || t == "all"@ || t.len() == 0 {
                (true, None)
            } else if ident_ok(t) {
                (false, Some(t))
            } else {
                (false, None)
            }
        },
    }
}

/// Resolves an admin `tenant` parameter (see `tenant_selection`).
pub fn select_tenants(p: Option<&String>) -> (r: TenantSelection)
    ensures
        match tenant_selection(match p { Some(s) => Some(s@), None => None }) {
            (true, _) => r is All,
            (false, Some(t)) => r matches TenantSelection::One(x) && x@ == t,
            (false, None) => r is Invalid,
        },
{
    match p {
        None => TenantSelection::All,
        Some(s) => {
            let t = trim_chars(&chars_of(s.as_str()));
            if chars_eq_str(&t, "*") || chars_eq_str(&t, "all") || t.len() == 0 {
                TenantSelection::All
            } else {
                let name = string_of(&t);
                if safe_ident(name.as_str()) {
                    TenantSelection::One(name)
                } else {
                    TenantSelection::Invalid
                }
            }
        },
    }
}

/// Safety cap on how many tenant databases one cross-tenant query covers.
pub open spec fn max_union_tenants() -> nat {
    64
}

/// The first 64 tenants of `tenants` (`Vec::truncate`).
pub fn cap_tenants(tenants: Vec<String>) -> (r: Vec<String>)
    ensures
        r@ == if tenants@.len() > max_union_tenants() { tenants@.take(max_union_tenants() as int) } else { tenants@ },
{
    let mut t = tenants;
    t.truncate(64);
    t
}

/// Tenant names from `system.tables` rows: each row's `database` string that
/// is a safe identifier.
pub open spec fn tenants_from_rows(rows: Seq<JsonValue>) -> Seq<Seq<char>> {
    gather(
        rows,
        |r: JsonValue| match r.spec_get("database"@) {
            Some(v) => match v.spec_as_str() {
                Some(s) => if ident_ok(s) { seq![s] } else { seq![] },
                None => seq![],
            },
            None => seq![],
        },
    )
}

/// Tenant names from `system.tables` rows (see `tenants_from_rows`).
pub fn event_tenants(rows: &Vec<JsonValue>) -> (r: Vec<String>)
    ensures
        texts(r@) == tenants_from_rows(rows@),
{
    let mut out: Vec<String> = Vec::new();
    let mut i: usize = 0;
    assert(rows@.take(0) =~= Seq::<JsonValue>::empty());
    while i < rows.len()
        invariant
            i <= rows.len(),
            texts(out@) == tenants_from_rows(rows@.take(i as int)),
        decreases rows.len() - i,
    {
        assert(rows@.take(i + 1).drop_last() =~= rows@.take(i as int));
        match rows[i].get("database") {
            Some(v) => match v.as_str() {
                Some(s) => if safe_ident(s.as_str()) {
                    push_text(&mut out, string_of(&chars_of(s.as_str())));
                },
                None => {},
            },
            None => {},
        }
        assert(texts(out@) =~= tenants_from_rows(rows@.take(i + 1)));
        i = i + 1;
    }
    assert(rows@.take(rows.len() as int) =~= rows@);
    out
}

/// The tenant an admin single-event lookup names: the trimmed `tenant`
/// parameter when it is a concrete safe identifier (not blank, `*` or `all`).
pub open spec fn concrete_tenant(p: Option<Seq<char>>) -> Option<Seq<char>> {
    match p {
        Some(s) => {
            let t = trim(s);
            if t.len() > 0 && t != "*"@ && t != "all"@ && ident_ok(t) {
                Some(t)
            } else {
                None
            }
        },
        None => None,
    }
}

/// The tenant an admin single-event lookup names (see `concrete_tenant`).
pub fn admin_event_tenant(p: Option<&String>) -> (r: Option<String>)
    ensures
        match concrete_tenant(match p { Some(s) => Some(s@), None => None }) {
            Some(t) => r matches Some(x) && x@ == t,
            None => r is None,
        },
{
    match p {
        Some(s) => {
            let t = trim_chars(&chars_of(s.as_str()));
            let name = string_of(&t);
            if t.len() > 0 && !chars_eq_str(&t, "*") && !chars_eq_str(&t, "all") && safe_ident(name.as_str()) {
                Some(name)
            } else {
                None
            }
        },
        None => None,
    }
}

/// Tenant database names only reach SQL text as safe identifiers: a named
/// admin selection, every tenant found with an `events` table, and the
/// tenant of a single-event lookup all satisfy `ident_ok`.
pub proof fn lemma_selected_tenants_are_safe(p: Option<Seq<char>>, rows: Seq<JsonValue>)
    ensures
        tenant_selection(p).1 matches Some(t) ==> ident_ok(t),
        concrete_tenant(p) matches Some(t) ==> ident_ok(t),
        forall|i: int| 0 <= i < tenants_from_rows(rows).len() ==> ident_ok(#[trigger] tenants_from_rows(rows)[i]),
    decreases rows.len(),
{
    if rows.len() > 0 {
        lemma_selected_tenants_are_safe(p, rows.drop_last());
        let prev = tenants_from_rows(rows.drop_last());
        let all = tenants_from_rows(rows);
        assert forall|i: int| 0 <= i < all.len() implies ident_ok(#[trigger] all[i]) by {
            if i < prev.len() {
                assert(all[i] == prev[i]);
            }
        }
    }
}

proof fn lemma_without_key_keeps_the_rest(e: Seq<(String, JsonValue)>)
    ensures
        without_key(e, "_ts_ms"@) == e.filter(|m: (String, JsonValue)| m.0@ != "_ts_ms"@),
    decreases e.len(),
{
    reveal(Seq::filter);
    if e.len() > 0 {
        lemma_without_key_keeps_the_rest(e.drop_last());
    }
}

/// A page keeps every row's data: each returned row is its input row with
/// the members named `_ts_ms` removed and nothing else changed — every other
/// member (a cross-tenant row's `_tenant` among them) stays, with its value
/// and in its place; rows that are not objects come back as they were.
pub proof fn lemma_page_rows_drop_only_ts_ms(a: JsonValue, b: JsonValue)
    requires
        stripped(a, b),
    ensures
        match a {
            JsonValue::Object(e) => b matches JsonValue::Object(e2) && e2@ == e@.filter(
                |m: (String, JsonValue)| m.0@ != "_ts_ms"@,
            ),
            _ => b == a,
        },
{
    if let JsonValue::Object(e) = a {
        lemma_without_key_keeps_the_rest(e@);
    }
}

} // verus!
