//! The admin dashboard's rules: login, and the tenant overview.

use vstd::prelude::*;
use crate::auth::creds_match;
use crate::json::JsonValue;
use crate::text::{chars_of, string_of, texts, trim, trim_chars};

verus! {

/// A login request.
#[derive(Clone, Debug)]
pub struct LoginReq {
    pub email: String,
    pub password: String,
}

/// What a login attempt comes to.
#[derive(Clone, Debug)]
pub enum LoginOutcome {
    /// No signing secret or no seeded credentials: login is disabled.
    NotConfigured,
    /// The credentials do not match.
    Refused,
    /// Issue a token for this (trimmed) email.
    Issue(String),
}

/// Decides a login: disabled unless a signing secret, a non-blank admin email
/// and an admin password are configured; then the trimmed email must equal
/// the trimmed admin email and the password the admin password.
pub fn login_check(jwt_secret: &str, admin_email: &str, admin_password: &str, req: &LoginReq) -> (r: LoginOutcome)
    ensures
        jwt_secret@.len() == 0 || trim(admin_email@).len() == 0 || admin_password@.len() == 0 ==> r is NotConfigured,
        !(jwt_secret@.len() == 0 || trim(admin_email@).len() == 0 || admin_password@.len() == 0) ==> if trim(req.email@) == trim(admin_email@) && req.password@ == admin_password@ {
            r matches LoginOutcome::Issue(e) && e@ == trim(req.email@)
        } else {
            r is Refused
        },
{
    let admin = string_of(&trim_chars(&chars_of(admin_email)));
    if jwt_secret.is_empty() || admin.as_str().is_empty() || admin_password.is_empty() {
        return LoginOutcome::NotConfigured;
    }
    let email = string_of(&trim_chars(&chars_of(req.email.as_str())));
    if creds_match(email.as_str(), admin.as_str()) && creds_match(req.password.as_str(), admin_password) {
        LoginOutcome::Issue(email)
    } else {
        LoginOutcome::Refused
    }
}

/// Lexicographic order of character sequences by code point (the order of
/// `String`, since UTF-8 preserves code point order).
pub open spec fn lex_lt(a: Seq<char>, b: Seq<char>) -> bool
    decreases a.len(),
{
    if b.len() == 0 {
        false
    } else if a.len() == 0 {
        true
    } else if a[0] != b[0] {
        (a[0] as u32) < (b[0] as u32)
    } else {
        lex_lt(a.drop_first(), b.drop_first())
    }
}

pub proof fn lemma_lex_total(a: Seq<char>, b: Seq<char>)
    ensures
        a == b || lex_lt(a, b) || lex_lt(b, a),
        !(lex_lt(a, b) && lex_lt(b, a)),
        !lex_lt(a, a),
    decreases a.len(),
{
    if a.len() > 0 && b.len() > 0 {
        lemma_lex_total(a.drop_first(), b.drop_first());
        lemma_lex_total(a.drop_first(), a.drop_first());
        if a[0] == b[0] && a.drop_first() == b.drop_first() {
            assert forall|i: int| 0 <= i < a.len() implies a[i] == b[i] by {
                if i > 0 {
                    assert(a[i] == a.drop_first()[i - 1]);
                    assert(b[i] == b.drop_first()[i - 1]);
                }
            }
            assert(a =~= b);
        }
        if a[0] != b[0] {
            vstd::utf8::char_u32_cast(a[0], a[0] as u32);
            vstd::utf8::char_u32_cast(b[0], b[0] as u32);
        }
    } else if a.len() > 0 {
        lemma_lex_total(a.drop_first(), a.drop_first());
    } else if b.len() == 0 {
        assert(a =~= b);
    }
}

pub proof fn lemma_lex_trans(a: Seq<char>, b: Seq<char>, c: Seq<char>)
    requires
        lex_lt(a, b),
        lex_lt(b, c),
    ensures
        lex_lt(a, c),
    decreases a.len(),
{
    if a.len() > 0 && b.len() > 0 && c.len() > 0 && a[0] == b[0] && b[0] == c[0] {
        lemma_lex_trans(a.drop_first(), b.drop_first(), c.drop_first());
    }
}

/// Whether `a` sorts before `b` (see `lex_lt`).
fn lex_less(a: &Vec<char>, b: &Vec<char>) -> (r: bool)
    ensures
        r == lex_lt(a@, b@),
{
    let mut i: usize = 0;
    assert(a@.skip(0) =~= a@ && b@.skip(0) =~= b@);
    while i < a.len() && i < b.len() && a[i] == b[i]
        invariant
            i <= a.len(),
            i <= b.len(),
            lex_lt(a@, b@) == lex_lt(a@.skip(i as int), b@.skip(i as int)),
        decreases a.len() - i,
    {
        assert(a@.skip(i as int).drop_first() =~= a@.skip(i + 1));
        assert(b@.skip(i as int).drop_first() =~= b@.skip(i + 1));
        i = i + 1;
    }
    if i == b.len() {
        false
    } else if i == a.len() {
        true
    } else {
        (a[i] as u32) < (b[i] as u32)
    }
}


/// Whether `s` is strictly increasing (so sorted, without repeats).
pub open spec fn strictly_sorted(s: Seq<Seq<char>>) -> bool {
    forall|i: int, j: int| 0 <= i < j < s.len() ==> lex_lt(#[trigger] s[i], #[trigger] s[j])
}

/// Adds `t` to the strictly sorted `names` unless already there.
fn insert_sorted(names: &mut Vec<String>, t: &String)
    requires
        strictly_sorted(texts(old(names)@)),
    ensures
        strictly_sorted(texts(final(names)@)),
        forall|x: Seq<char>| #[trigger] texts(final(names)@).contains(x) <==> (texts(old(names)@).contains(x) || x == t@),
{
    let tv = chars_of(t.as_str());
    let mut k: usize = 0;
    while k < names.len() && lex_less(&chars_of(names[k].as_str()), &tv)
        invariant
            k <= names.len(),
            tv@ == t@,
            forall|i: int| 0 <= i < k ==> lex_lt(#[trigger] texts(names@)[i], t@),
        decreases names.len() - k,
    {
        k = k + 1;
    }
    let ghost old_names = texts(names@);
    if k < names.len() && crate::text::chars_eq(&chars_of(names[k].as_str()), &tv) {
        assert(old_names.contains(t@)) by {
            assert(old_names[k as int] == t@);
        }
        return;
    }
    proof {
        if k < names.len() {
            lemma_lex_total(old_names[k as int], t@);
        }
    }
    assert(k < old_names.len() ==> lex_lt(t@, old_names[k as int]));
    names.insert(k, string_of(&tv));
    let ghost new_names = texts(names@);
    assert(new_names =~= old_names.insert(k as int, t@));
    assert(strictly_sorted(new_names)) by {
        assert forall|i: int, j: int| 0 <= i < j < new_names.len() implies lex_lt(#[trigger] new_names[i], #[trigger] new_names[j]) by {
            if j < k {
                assert(new_names[i] == old_names[i] && new_names[j] == old_names[j]);
            } else if j == k {
                assert(new_names[i] == old_names[i]);
            } else if i == k {
                assert(new_names[j] == old_names[j - 1]);
                if j - 1 > k {
                    lemma_lex_trans(t@, old_names[k as int], old_names[j - 1]);
                }
            } else if i < k {
                assert(new_names[i] == old_names[i] && new_names[j] == old_names[j - 1]);
                if j - 1 > k {
                    lemma_lex_trans(t@, old_names[k as int], old_names[j - 1]);
                }
                lemma_lex_trans(old_names[i], t@, old_names[j - 1]);
            } else {
                assert(new_names[i] == old_names[i - 1] && new_names[j] == old_names[j - 1]);
            }
        }
    }
    assert forall|x: Seq<char>| #[trigger] new_names.contains(x) <==> (old_names.contains(x) || x == t@) by {
        if new_names.contains(x) {
            let i = choose|i: int| 0 <= i < new_names.len() && new_names[i] == x;
            if i < k {
                assert(old_names[i] == x);
            } else if i > k {
                assert(old_names[i - 1] == x);
            }
        }
        if old_names.contains(x) {
            let i = choose|i: int| 0 <= i < old_names.len() && old_names[i] == x;
            if i < k {
                assert(new_names[i] == x);
            } else {
                assert(new_names[i + 1] == x);
            }
        }
        if x == t@ {
            assert(new_names[k as int] == x);
        }
    }
}


/// The tenant a key row names.
pub open spec fn row_tenant(r: JsonValue) -> Option<Seq<char>> {
    match r.spec_get("tenant"@) {
        Some(v) => v.spec_as_str(),
        None => None,
    }
}

/// Whether a key row is active (`active` is 1).
pub open spec fn row_active(r: JsonValue) -> bool {
    match r.spec_get("active"@) {
        Some(v) => v.spec_as_u64() == Some(1u64),
        None => false,
    }
}

/// Whether some key row names tenant `t`.
pub open spec fn has_key(rows: Seq<JsonValue>, t: Seq<char>) -> bool {
    exists|k: int| 0 <= k < rows.len() && #[trigger] row_tenant(rows[k]) == Some(t)
}

/// How many key rows name tenant `t`.
pub open spec fn key_count(rows: Seq<JsonValue>, t: Seq<char>) -> nat
    decreases rows.len(),
{
    if rows.len() == 0 {
        0
    } else {
        key_count(rows.drop_last(), t) + if row_tenant(rows.last()) == Some(t) { 1nat } else { 0nat }
    }
}

/// How many active key rows name tenant `t`.
pub open spec fn active_count(rows: Seq<JsonValue>, t: Seq<char>) -> nat
    decreases rows.len(),
{
    if rows.len() == 0 {
        0
    } else {
        active_count(rows.drop_last(), t) + if row_tenant(rows.last()) == Some(t) && row_active(rows.last()) {
            1nat
        } else {
            0nat
        }
    }
}

/// One line of the tenant overview.
#[derive(Clone, Debug)]
pub struct TenantSummary {
    pub tenant: String,
    pub keys: u64,
    pub active_keys: u64,
    pub has_events: bool,
}

/// The tenant names of an overview, in order.
pub open spec fn summary_names(s: Seq<TenantSummary>) -> Seq<Seq<char>> {
    Seq::new(s.len(), |i: int| s[i].tenant@)
}

fn key_tenant(row: &JsonValue) -> (r: Option<&String>)
    ensures
        r is Some == row_tenant(*row) is Some,
        r matches Some(t) ==> row_tenant(*row) == Some(t@),
{
    match row.get("tenant") {
        Some(v) => v.as_str(),
        None => None,
    }
}

/// How many of `rows` name `t`, and how many of those are active.
fn count_keys(rows: &Vec<JsonValue>, t: &String) -> (r: (u64, u64))
    ensures
        r.0 == key_count(rows@, t@),
        r.1 == active_count(rows@, t@),
{
    let tv = chars_of(t.as_str());
    let mut keys: u64 = 0;
    let mut active: u64 = 0;
    let mut j: usize = 0;
    assert(rows@.take(0) =~= Seq::<JsonValue>::empty());
    while j < rows.len()
        invariant
            j <= rows.len(),
            tv@ == t@,
            keys <= j,
            active <= keys,
            keys == key_count(rows@.take(j as int), t@),
            active == active_count(rows@.take(j as int), t@),
        decreases rows.len() - j,
    {
        assert(rows@.take(j + 1).drop_last() =~= rows@.take(j as int));
        assert(rows@.take(j + 1).last() == rows@[j as int]);
        if let Some(name) = key_tenant(&rows[j]) {
            if crate::text::chars_eq(&chars_of(name.as_str()), &tv) {
                keys = keys + 1;
                let is_active = match rows[j].get("active") {
                    Some(v) => match v.as_u64() {
                        Some(n) => n == 1,
                        None => false,
                    },
                    None => false,
                };
                if is_active {
                    active = active + 1;
                }
            }
        }
        j = j + 1;
    }
    assert(rows@.take(rows.len() as int) =~= rows@);
    (keys, active)
}

/// The tenant overview: every tenant that has a key or an `events` table,
/// in name order, with its key counts and whether it has events.
pub fn tenant_overview(key_rows: &Vec<JsonValue>, event_tenants: &Vec<String>) -> (r: Vec<TenantSummary>)
    ensures
        strictly_sorted(summary_names(r@)),
        forall|t: Seq<char>| #[trigger] summary_names(r@).contains(t) <==> (has_key(key_rows@, t) || texts(event_tenants@).contains(t)),
        forall|i: int| 0 <= i < r@.len() ==> (#[trigger] r@[i]).keys == key_count(key_rows@, r@[i].tenant@)
            && r@[i].active_keys == active_count(key_rows@, r@[i].tenant@)
            && r@[i].has_events == texts(event_tenants@).contains(r@[i].tenant@),
{
    let mut names: Vec<String> = Vec::new();
    let mut i: usize = 0;
    while i < key_rows.len()
        invariant
            i <= key_rows.len(),
            strictly_sorted(texts(names@)),
            forall|x: Seq<char>| #[trigger] texts(names@).contains(x) <==> has_key(key_rows@.take(i as int), x),
        decreases key_rows.len() - i,
    {
        let ghost before = texts(names@);
        let row_t = key_tenant(&key_rows[i]);
        if let Some(t) = row_t {
            insert_sorted(&mut names, t);
        }
        assert forall|x: Seq<char>| #[trigger] texts(names@).contains(x) <==> has_key(key_rows@.take(i + 1), x) by {
            let pre = key_rows@.take(i as int);
            let post = key_rows@.take(i + 1);
            if has_key(post, x) {
                let k = choose|k: int| 0 <= k < post.len() && #[trigger] row_tenant(post[k]) == Some(x);
                if k < i {
                    assert(row_tenant(pre[k]) == Some(x));
                }
            }
            if has_key(pre, x) {
                let k = choose|k: int| 0 <= k < pre.len() && #[trigger] row_tenant(pre[k]) == Some(x);
                assert(row_tenant(post[k]) == Some(x));
            }
            if row_tenant(key_rows@[i as int]) == Some(x) {
                assert(row_tenant(post[i as int]) == Some(x));
            }
        }
        i = i + 1;
    }
    assert(key_rows@.take(key_rows.len() as int) =~= key_rows@);
    let mut m: usize = 0;
    while m < event_tenants.len()
        invariant
            m <= event_tenants.len(),
            strictly_sorted(texts(names@)),
            forall|x: Seq<char>| #[trigger] texts(names@).contains(x) <==> (has_key(key_rows@, x) || texts(event_tenants@).take(m as int).contains(x)),
        decreases event_tenants.len() - m,
    {
        insert_sorted(&mut names, &event_tenants[m]);
        assert forall|x: Seq<char>| #[trigger] texts(names@).contains(x) <==> (has_key(key_rows@, x) || texts(event_tenants@).take(m + 1).contains(x)) by {
            let pre = texts(event_tenants@).take(m as int);
            let post = texts(event_tenants@).take(m + 1);
            if post.contains(x) {
                let k = choose|k: int| 0 <= k < post.len() && post[k] == x;
                if k < m {
                    assert(pre[k] == x);
                }
            }
            if pre.contains(x) {
                let k = choose|k: int| 0 <= k < pre.len() && pre[k] == x;
                assert(post[k] == x);
            }
            if x == event_tenants@[m as int]@ {
                assert(post[m as int] == x);
            }
        }
        m = m + 1;
    }
    assert(texts(event_tenants@).take(event_tenants.len() as int) =~= texts(event_tenants@));
    let mut out: Vec<TenantSummary> = Vec::new();
    let mut n: usize = 0;
    while n < names.len()
        invariant
            n <= names.len(),
            out@.len() == n,
            forall|k: int| 0 <= k < n ==> (#[trigger] out@[k]).tenant@ == texts(names@)[k],
            forall|k: int| 0 <= k < n ==> (#[trigger] out@[k]).keys == key_count(key_rows@, out@[k].tenant@)
                && out@[k].active_keys == active_count(key_rows@, out@[k].tenant@)
                && out@[k].has_events == texts(event_tenants@).contains(out@[k].tenant@),
        decreases names.len() - n,
    {
        let (keys, active_keys) = count_keys(key_rows, &names[n]);
        let has_events = crate::text::contains_text(event_tenants, names[n].as_str());
        out.push(TenantSummary { tenant: names[n].clone(), keys, active_keys, has_events });
        n = n + 1;
    }
    assert(summary_names(out@) =~= texts(names@));
    out
}

} // verus!
