//! Read API query building: callers send structured parameters, never SQL.
//! Filter values are bound as `{pN:Type}` parameters; column names come only
//! from fixed allowlists and tenant database names only through `ident_ok`.

use vstd::prelude::*;
use crate::time::{
    clock_instant, format_utc, is_clock_instant, parse_time, time_param_ok, time_param_resolvable, time_value,
    utc_text, Instant,
};
use crate::text::{
    chars_eq_str, chars_of, contains_chars, contains_seq, decimal, decimal_chars, extend_chars,
    extend_str, gather, join, join3, join_chars, push_text, split, split_chars, str_views, string_of,
    texts, trim, trim_chars, views,
};

verus! {

/// Character views of `(name, value)` pairs.
pub open spec fn pairs(v: Seq<(String, String)>) -> Seq<(Seq<char>, Seq<char>)> {
    Seq::new(v.len(), |i: int| (v[i].0@, v[i].1@))
}

/// The value of the first query parameter named `key`.
pub open spec fn param(q: Seq<(String, String)>, key: Seq<char>) -> Option<Seq<char>>
    decreases q.len(),
{
    if q.len() == 0 {
        None
    } else if q[0].0@ == key {
        Some(q[0].1@)
    } else {
        param(q.drop_first(), key)
    }
}

/// The value of the first query parameter named `key`.
pub fn get_param<'a>(q: &'a Vec<(String, String)>, key: &str) -> (r: Option<&'a String>)
    ensures
        r is Some == param(q@, key@) is Some,
        r matches Some(v) ==> param(q@, key@) == Some(v@),
{
    let k = chars_of(key);
    let mut i: usize = 0;
    assert(q@.skip(0) =~= q@);
    while i < q.len()
        invariant
            i <= q.len(),
            k@ == key@,
            param(q@, k@) == param(q@.skip(i as int), k@),
        decreases q.len() - i,
    {
        let name = chars_of(q[i].0.as_str());
        assert(q@.skip(i as int)[0] == q@[i as int]);
        if crate::text::chars_eq(&name, &k) {
            return Some(&q[i].1);
        }
        assert(q@.skip(i as int).drop_first() =~= q@.skip(i + 1));
        i = i + 1;
    }
    None
}

/// Name of the `n`-th bound parameter.
pub open spec fn param_name(n: nat) -> Seq<char> {
    "p"@ + decimal(n)
}

/// Placeholder `{pN:Type}` of the `n`-th bound parameter.
pub open spec fn placeholder(n: nat, ty: Seq<char>) -> Seq<char> {
    "{"@ + param_name(n) + ":"@ + ty + "}"@
}

/// Accumulates bound query parameters and hands back their placeholders, so
/// no caller-supplied value is ever put into SQL text.
#[derive(Clone, Debug)]
pub struct Params {
    pub items: Vec<(String, String)>,
}

impl View for Params {
    type V = Seq<(Seq<char>, Seq<char>)>;

    open spec fn view(&self) -> Seq<(Seq<char>, Seq<char>)> {
        pairs(self.items@)
    }
}

impl Params {
    /// Whether every parameter is named after its position (`p0`, `p1`, ...).
    pub open spec fn well_named(self) -> bool {
        forall|i: int| 0 <= i < self@.len() ==> #[trigger] self@[i].0 == param_name(i as nat)
    }

    pub fn new() -> (p: Self)
        ensures
            p@ == Seq::<(Seq<char>, Seq<char>)>::empty(),
            p.well_named(),
    {
        Params { items: Vec::new() }
    }

    /// Binds `val` as parameter `p<n>` of type `ty` (`n` the number bound so
    /// far) and returns its placeholder `{p<n>:<ty>}`.
    pub fn add(&mut self, ty: &str, val: &str) -> (r: String)
        ensures
            final(self)@ == old(self)@.push((param_name(old(self)@.len()), val@)),
            r@ == placeholder(old(self)@.len(), ty@),
            old(self).well_named() ==> final(self).well_named(),
    {
        let n = self.items.len();
        let digits = decimal_chars(n as u64);
        let mut name: Vec<char> = Vec::new();
        name.push('p');
        extend_chars(&mut name, &digits);
        assert(name@ =~= param_name(n as nat)) by {
            reveal_strlit("p");
        }
        let mut ph: Vec<char> = Vec::new();
        extend_str(&mut ph, "{");
        extend_chars(&mut ph, &name);
        extend_str(&mut ph, ":");
        extend_str(&mut ph, ty);
        extend_str(&mut ph, "}");
        let value = string_of(&chars_of(val));
        let ghost before = self.items@;
        self.items.push((string_of(&name), value));
        assert(pairs(self.items@) =~= pairs(before).push((param_name(n as nat), val@)));
        assert(ph@ =~= placeholder(n as nat, ty@));
        string_of(&ph)
    }
}

/// Whether `c` is an ASCII letter.
pub open spec fn is_ascii_alpha(c: char) -> bool {
    ('a' as u32 <= c as u32 <= 'z' as u32) || ('A' as u32 <= c as u32 <= 'Z' as u32)
}

/// Whether `c` is an ASCII letter or digit.
pub open spec fn is_ascii_alnum(c: char) -> bool {
    is_ascii_alpha(c) || ('0' as u32 <= c as u32 <= '9' as u32)
}

/// A safe SQL identifier: 1 to 64 ASCII letters, digits and underscores, not
/// starting with a digit. Tenant database names must be one.
pub open spec fn ident_ok(s: Seq<char>) -> bool {
    &&& 0 < s.len() <= 64
    &&& (s[0] == '_' || is_ascii_alpha(s[0]))
    &&& forall|i: int| 0 <= i < s.len() ==> #[trigger] s[i] == '_' || is_ascii_alnum(s[i])
}

fn ident_char(c: char) -> (r: bool)
    ensures
        r == (c == '_' || is_ascii_alnum(c)),
{
    let u = c as u32;
    c == '_' || ('a' as u32 <= u && u <= 'z' as u32) || ('A' as u32 <= u && u <= 'Z' as u32) || (
    '0' as u32 <= u && u <= '9' as u32)
}

/// Whether `s` is a safe SQL identifier (see `ident_ok`).
pub fn safe_ident(s: &str) -> (r: bool)
    ensures
        r == ident_ok(s@),
{
    let v = chars_of(s);
    if v.len() == 0 || v.len() > 64 {
        return false;
    }
    let c0 = v[0];
    let u0 = c0 as u32;
    if !(c0 == '_' || ('a' as u32 <= u0 && u0 <= 'z' as u32) || ('A' as u32 <= u0 && u0 <= 'Z' as u32)) {
        return false;
    }
    let mut i: usize = 0;
    while i < v.len()
        invariant
            i <= v.len(),
            v@ == s@,
            forall|j: int| 0 <= j < i ==> #[trigger] v@[j] == '_' || is_ascii_alnum(v@[j]),
        decreases v.len() - i,
    {
        if !ident_char(v[i]) {
            return false;
        }
        i = i + 1;
    }
    true
}

/// Whether a ClickHouse error says the table or database does not exist.
pub open spec fn missing_table_error(err: Seq<char>) -> bool {
    contains_seq(err, "UNKNOWN_TABLE"@) || contains_seq(err, "UNKNOWN_DATABASE"@) || contains_seq(
        err,
        "doesn't exist"@,
    )
}

/// Whether a ClickHouse error says the table or database does not exist.
pub fn is_missing(err: &str) -> (r: bool)
    ensures
        r == missing_table_error(err@),
{
    let e = chars_of(err);
    contains_chars(&e, &chars_of("UNKNOWN_TABLE")) || contains_chars(&e, &chars_of("UNKNOWN_DATABASE"))
        || contains_chars(&e, &chars_of("doesn't exist"))
}


/// Trimmed, non-blank pieces of a comma-separated list.
pub open spec fn nonblank_pieces(pieces: Seq<Seq<char>>) -> Seq<Seq<char>> {
    gather(pieces, |x: Seq<char>| if trim(x).len() > 0 { seq![trim(x)] } else { seq![] })
}

/// The values of a comma-separated filter: split at `,`, trimmed, blanks dropped.
pub open spec fn filter_values(v: Seq<char>) -> Seq<Seq<char>> {
    nonblank_pieces(split(v, ','))
}

/// The values of a comma-separated filter (see `filter_values`).
pub fn split_values(v: &str) -> (r: Vec<String>)
    ensures
        texts(r@) == filter_values(v@),
{
    let c = chars_of(v);
    let pieces = split_chars(&c, ',');
    let mut out: Vec<String> = Vec::new();
    let mut i: usize = 0;
    assert(views(pieces@).take(0) =~= Seq::<Seq<char>>::empty());
    assert(texts(out@) =~= Seq::<Seq<char>>::empty());
    while i < pieces.len()
        invariant
            i <= pieces.len(),
            texts(out@) == nonblank_pieces(views(pieces@).take(i as int)),
        decreases pieces.len() - i,
    {
        let t = trim_chars(&pieces[i]);
        assert(views(pieces@)[i as int] == pieces@[i as int]@);
        assert(views(pieces@).take(i + 1).drop_last() =~= views(pieces@).take(i as int));
        if t.len() > 0 {
            push_text(&mut out, string_of(&t));
        }
        assert(texts(out@) =~= nonblank_pieces(views(pieces@).take(i + 1)));
        i = i + 1;
    }
    assert(views(pieces@).take(pieces.len() as int) =~= views(pieces@));
    out
}

/// Placeholders of `count` parameters of type `ty` bound from position `start` on.
pub open spec fn placeholders(start: nat, ty: Seq<char>, count: nat) -> Seq<Seq<char>> {
    Seq::new(count, |i: int| placeholder((start + i) as nat, ty))
}

/// The parameters `items` with each of `vals` bound after them, in order.
pub open spec fn bind_all(
    items: Seq<(Seq<char>, Seq<char>)>,
    vals: Seq<Seq<char>>,
) -> Seq<(Seq<char>, Seq<char>)> {
    items + Seq::new(vals.len(), |i: int| (param_name((items.len() + i) as nat), vals[i]))
}

impl Params {
    /// Binds each of `vals` in turn with type `ty`; returns their placeholders.
    pub fn add_all(&mut self, ty: &str, vals: &Vec<String>) -> (phs: Vec<String>)
        ensures
            final(self)@ == bind_all(old(self)@, texts(vals@)),
            texts(phs@) == placeholders(old(self)@.len(), ty@, vals@.len()),
            old(self).well_named() ==> final(self).well_named(),
    {
        let ghost start = self@;
        let mut phs: Vec<String> = Vec::new();
        let mut j: usize = 0;
        assert(texts(vals@).take(0) =~= Seq::<Seq<char>>::empty());
        assert(bind_all(start, texts(vals@).take(0)) =~= start);
        assert(texts(phs@) =~= placeholders(start.len(), ty@, 0));
        while j < vals.len()
            invariant
                j <= vals.len(),
                self@ == bind_all(start, texts(vals@).take(j as int)),
                texts(phs@) == placeholders(start.len(), ty@, j as nat),
                old(self).well_named() ==> self.well_named(),
                start == old(self)@,
            decreases vals.len() - j,
        {
            let ph = self.add(ty, vals[j].as_str());
            push_text(&mut phs, ph);
            assert(bind_all(start, texts(vals@).take(j + 1)) =~= bind_all(start, texts(vals@).take(j as int)).push((param_name((start.len() + j) as nat), vals@[j as int]@)));
            assert(texts(phs@) =~= placeholders(start.len(), ty@, (j + 1) as nat));
            j = j + 1;
        }
        assert(texts(vals@).take(vals.len() as int) =~= texts(vals@));
        phs
    }
}

/// `col IN (ph1, ph2, ...)`.
pub open spec fn in_clause(col: Seq<char>, phs: Seq<Seq<char>>) -> Seq<char> {
    col + " IN ("@ + join(phs, ", "@) + ")"@
}

fn in_clause_text(col: &str, phs: &Vec<String>) -> (r: String)
    ensures
        r@ == in_clause(col@, texts(phs@)),
{
    let mut v: Vec<char> = Vec::new();
    extend_str(&mut v, col);
    extend_str(&mut v, " IN (");
    extend_chars(&mut v, &join_chars(phs, ", "));
    extend_str(&mut v, ")");
    assert(v@ =~= in_clause(col@, texts(phs@)));
    string_of(&v)
}

/// Columns that accept exact-match string filters (parameter name == column).
pub open spec fn string_filter_fields() -> Seq<Seq<char>> {
    seq![
        "category"@, "event_type"@, "severity"@, "source"@, "model"@, "user_id"@,
        "session_id"@, "request_id"@, "entity_type"@, "entity_id"@, "error_code"@, "route"@,
        "server"@, "app_version"@, "ip"@,
    ]
}

fn string_filter_list() -> (r: Vec<&'static str>)
    ensures
        str_views(r@) == string_filter_fields(),
{
    let r = vec![
        "category", "event_type", "severity", "source", "model", "user_id", "session_id",
        "request_id", "entity_type", "entity_id", "error_code", "route", "server", "app_version",
        "ip",
    ];
    assert(str_views(r@) =~= string_filter_fields());
    r
}

/// WHERE clauses and bound parameters built so far.
pub type FilterState = (Seq<Seq<char>>, Seq<(Seq<char>, Seq<char>)>);

/// `st` extended with a string filter for each of `fields` that has values.
pub open spec fn string_filters(q: Seq<(String, String)>, fields: Seq<Seq<char>>, st: FilterState) -> FilterState
    decreases fields.len(),
{
    if fields.len() == 0 {
        st
    } else {
        let s = string_filters(q, fields.drop_last(), st);
        let f = fields.last();
        match param(q, f) {
            Some(v) => {
                let vals = filter_values(v);
                if vals.len() == 0 {
                    s
                } else {
                    (s.0.push(in_clause(f, placeholders(s.1.len(), "String"@, vals.len()))), bind_all(s.1, vals))
                }
            },
            None => s,
        }
    }
}

/// `st` extended with the `http_status` filter, or the error when one of its
/// values is not a number.
pub open spec fn status_filter(q: Seq<(String, String)>, st: FilterState) -> Result<FilterState, Seq<char>> {
    match param(q, "http_status"@) {
        Some(v) => {
            let vals = filter_values(v);
            if exists|i: int| 0 <= i < vals.len() && parse_unsigned_u64(#[trigger] vals[i]) is None {
                Err("filter 'http_status' must be a number"@)
            } else if vals.len() == 0 {
                Ok(st)
            } else {
                Ok((st.0.push(in_clause("http_status"@, placeholders(st.1.len(), "UInt16"@, vals.len()))), bind_all(st.1, vals)))
            }
        },
        None => Ok(st),
    }
}

/// Whether `s` parses as a `u64`.
pub open spec fn parse_unsigned_u64(s: Seq<char>) -> Option<nat> {
    crate::text::parse_unsigned(s, u64::MAX as nat)
}

/// `st` extended with the case-insensitive message search `q`, when non-empty.
pub open spec fn search_filter(q: Seq<(String, String)>, st: FilterState) -> FilterState {
    match param(q, "q"@) {
        Some(v) => if v.len() > 0 {
            (st.0.push("positionCaseInsensitive(message, "@ + placeholder(st.1.len(), "String"@) + ") > 0"@),
             st.1.push((param_name(st.1.len()), v)))
        } else {
            st
        },
        None => st,
    }
}

/// The instant a time-range bound resolves to: its parameter's value, or
/// `default` when absent.
pub open spec fn range_bound(q: Seq<(String, String)>, key: Seq<char>, now: Instant, default: (int, int)) -> Option<(int, int)> {
    match param(q, key) {
        Some(s) => time_value(s, now),
        None => Some(default),
    }
}

/// The shared WHERE clauses (time range, allowlisted filters, message search)
/// and the parameters bound after `items`, or the error message for a bad
/// filter value. The range defaults to the last hour.
pub open spec fn filters(q: Seq<(String, String)>, items: Seq<(Seq<char>, Seq<char>)>, now: Instant) -> Result<FilterState, Seq<char>> {
    match range_bound(q, "from"@, now, (now.secs - 3600, now.nanos as int)) {
        None => Err("invalid 'from' (use -1h / -7d / RFC3339)"@),
        Some(from) => match range_bound(q, "to"@, now, (now.secs as int, now.nanos as int)) {
            None => Err("invalid 'to' (use 'now' default / -1h / RFC3339)"@),
            Some(to) => {
                let n = items.len();
                let st0: FilterState = (
                    seq!["ts >= "@ + placeholder(n, "DateTime64(3)"@), "ts <= "@ + placeholder(n + 1, "DateTime64(3)"@)],
                    items.push((param_name(n), utc_text(from.0 as i64, from.1 as u32))).push(
                        (param_name(n + 1), utc_text(to.0 as i64, to.1 as u32)),
                    ),
                );
                match status_filter(q, string_filters(q, string_filter_fields(), st0)) {
                    Ok(st) => Ok(search_filter(q, st)),
                    Err(e) => Err(e),
                }
            },
        },
    }
}

/// How many values the filter `f` of `q` holds (none when it is absent).
pub open spec fn filter_count(q: Seq<(String, String)>, f: Seq<char>) -> nat {
    match param(q, f) {
        Some(v) => filter_values(v).len(),
        None => 0,
    }
}

/// Whether `q` asks for a message search.
pub open spec fn searches(q: Seq<(String, String)>) -> bool {
    param(q, "q"@) matches Some(v) && v.len() > 0
}

/// Whether two queries ask for the same filters with as many values each.
pub open spec fn same_shape(q1: Seq<(String, String)>, q2: Seq<(String, String)>) -> bool {
    &&& forall|i: int| 0 <= i < string_filter_fields().len()
        ==> filter_count(q1, #[trigger] string_filter_fields()[i]) == filter_count(q2, string_filter_fields()[i])
    &&& filter_count(q1, "http_status"@) == filter_count(q2, "http_status"@)
    &&& searches(q1) == searches(q2)
}

proof fn lemma_string_filters_shape(
    q1: Seq<(String, String)>,
    q2: Seq<(String, String)>,
    fields: Seq<Seq<char>>,
    st1: FilterState,
    st2: FilterState,
)
    requires
        forall|i: int| 0 <= i < fields.len() ==> filter_count(q1, #[trigger] fields[i]) == filter_count(q2, fields[i]),
        st1.0 == st2.0,
        st1.1.len() == st2.1.len(),
    ensures
        string_filters(q1, fields, st1).0 == string_filters(q2, fields, st2).0,
        string_filters(q1, fields, st1).1.len() == string_filters(q2, fields, st2).1.len(),
    decreases fields.len(),
{
    if fields.len() > 0 {
        let init = fields.drop_last();
        assert forall|i: int| 0 <= i < init.len() implies filter_count(q1, #[trigger] init[i]) == filter_count(q2, init[i]) by {
            assert(init[i] == fields[i]);
        }
        lemma_string_filters_shape(q1, q2, init, st1, st2);
        assert(filter_count(q1, fields[fields.len() - 1]) == filter_count(q2, fields[fields.len() - 1]));
    }
}

/// Filter values never shape the SQL: two queries that ask for the same
/// filters with as many values each get the same WHERE clauses (over the
/// same number of already bound parameters), whatever the values are; the
/// values only go into the bound parameters, and as many of them.
pub proof fn lemma_clauses_ignore_values(
    q1: Seq<(String, String)>,
    q2: Seq<(String, String)>,
    items1: Seq<(Seq<char>, Seq<char>)>,
    items2: Seq<(Seq<char>, Seq<char>)>,
    now1: Instant,
    now2: Instant,
)
    requires
        same_shape(q1, q2),
        items1.len() == items2.len(),
    ensures
        (filters(q1, items1, now1), filters(q2, items2, now2)) matches (Ok(a), Ok(b)) ==> a.0 == b.0 && a.1.len()
            == b.1.len(),
{
    match (filters(q1, items1, now1), filters(q2, items2, now2)) {
        (Ok(a), Ok(b)) => {
            let from1 = range_bound(q1, "from"@, now1, (now1.secs - 3600, now1.nanos as int)).unwrap();
            let to1 = range_bound(q1, "to"@, now1, (now1.secs as int, now1.nanos as int)).unwrap();
            let from2 = range_bound(q2, "from"@, now2, (now2.secs - 3600, now2.nanos as int)).unwrap();
            let to2 = range_bound(q2, "to"@, now2, (now2.secs as int, now2.nanos as int)).unwrap();
            let n = items1.len();
            let st1: FilterState = (
                seq!["ts >= "@ + placeholder(n, "DateTime64(3)"@), "ts <= "@ + placeholder(n + 1, "DateTime64(3)"@)],
                items1.push((param_name(n), utc_text(from1.0 as i64, from1.1 as u32))).push(
                    (param_name(n + 1), utc_text(to1.0 as i64, to1.1 as u32)),
                ),
            );
            let st2: FilterState = (
                seq!["ts >= "@ + placeholder(n, "DateTime64(3)"@), "ts <= "@ + placeholder(n + 1, "DateTime64(3)"@)],
                items2.push((param_name(n), utc_text(from2.0 as i64, from2.1 as u32))).push(
                    (param_name(n + 1), utc_text(to2.0 as i64, to2.1 as u32)),
                ),
            );
            lemma_string_filters_shape(q1, q2, string_filter_fields(), st1, st2);
            let s1 = string_filters(q1, string_filter_fields(), st1);
            let s2 = string_filters(q2, string_filter_fields(), st2);
            let t1 = status_filter(q1, s1)->Ok_0;
            let t2 = status_filter(q2, s2)->Ok_0;
            assert(t1.0 == t2.0 && t1.1.len() == t2.1.len());
        },
        _ => {},
    }
}

/// Whether resolving the time range of `q` against `now` cannot make chrono
/// panic: `now` is a clock reading; `from`, when given, is resolvable; and
/// `to`, when given, is resolvable unless an invalid `from` already ends the
/// request (the range is read `from` first).
pub open spec fn times_resolvable(q: Seq<(String, String)>, now: Instant) -> bool {
    &&& clock_instant(now)
    &&& param(q, "from"@) matches Some(s) ==> time_param_ok(s, now)
    &&& (match param(q, "from"@) {
        Some(s) => time_value(s, now) is Some,
        None => true,
    }) ==> (param(q, "to"@) matches Some(s) ==> time_param_ok(s, now))
}

/// Whether the time range of `q` can be resolved against `now` (see
/// `times_resolvable`).
pub fn filters_resolvable(q: &Vec<(String, String)>, now: Instant) -> (r: bool)
    ensures
        r == times_resolvable(q@, now),
{
    if !is_clock_instant(now) {
        return false;
    }
    let from_parses = match get_param(q, "from") {
        Some(s) => {
            if !time_param_resolvable(s.as_str(), now) {
                return false;
            }
            parse_time(s.as_str(), now).is_some()
        },
        None => true,
    };
    if !from_parses {
        return true;
    }
    match get_param(q, "to") {
        Some(s) => time_param_resolvable(s.as_str(), now),
        None => true,
    }
}

/// Whether planning the stats query `q` cannot make chrono panic: the time
/// range is only read once the group, metric and interval are valid.
pub open spec fn stats_times_resolvable(q: Seq<(String, String)>, cross: bool, now: Instant) -> bool {
    group_column(q, cross) is Ok && metric_expr(param(q, "metric"@)) is Ok && bucket_expr(q) is Ok
        ==> times_resolvable(q, now)
}

/// Whether the stats query `q` can be planned against `now` (see
/// `stats_times_resolvable`).
pub fn stats_resolvable(q: &Vec<(String, String)>, cross: bool, now: Instant) -> (r: bool)
    ensures
        r == stats_times_resolvable(q@, cross, now),
{
    if group_column_of(q, cross).is_err() || parse_metric(get_param(q, "metric")).is_err() || bucket_of(q).is_err() {
        return true;
    }
    filters_resolvable(q, now)
}

/// Builds the shared WHERE clauses, binding their values in `p`.
pub fn build_filters(q: &Vec<(String, String)>, p: &mut Params, now: Instant) -> (r: Result<Vec<String>, String>)
    requires
        times_resolvable(q@, now),
    ensures
        match filters(q@, old(p)@, now) {
            Ok(st) => r matches Ok(w) && texts(w@) == st.0 && final(p)@ == st.1 && (old(p).well_named() ==> final(p).well_named()),
            Err(m) => r matches Err(e) && e@ == m,
        },
{
    let from = match get_param(q, "from") {
        Some(s) => match parse_time(s.as_str(), now) {
            Some(t) => t,
            None => return Err(string_of(&chars_of("invalid 'from' (use -1h / -7d / RFC3339)"))),
        },
        None => Instant { secs: now.secs - 3600, nanos: now.nanos },
    };
    let to = match get_param(q, "to") {
        Some(s) => match parse_time(s.as_str(), now) {
            Some(t) => t,
            None => return Err(string_of(&chars_of("invalid 'to' (use 'now' default / -1h / RFC3339)"))),
        },
        None => now,
    };
    assert(range_bound(q@, "from"@, now, (now.secs - 3600, now.nanos as int)) == Some((from.secs as int, from.nanos as int)));
    assert(range_bound(q@, "to"@, now, (now.secs as int, now.nanos as int)) == Some((to.secs as int, to.nanos as int)));
    let ghost items0 = p@;
    let ghost n = items0.len();
    let mut wh: Vec<String> = Vec::new();
    let from_text = format_utc(from);
    let from_ph = p.add("DateTime64(3)", from_text.as_str());
    push_text(&mut wh, join3_ph("ts >= ", &from_ph));
    let to_text = format_utc(to);
    let to_ph = p.add("DateTime64(3)", to_text.as_str());
    push_text(&mut wh, join3_ph("ts <= ", &to_ph));

    let ghost st0: FilterState = (texts(wh@), p@);
    assert(st0.0 =~= seq!["ts >= "@ + placeholder(n, "DateTime64(3)"@), "ts <= "@ + placeholder(n + 1, "DateTime64(3)"@)]);
    assert(st0.1 =~= items0.push((param_name(n), utc_text(from.secs, from.nanos))).push((param_name(n + 1), utc_text(to.secs, to.nanos))));
    let ghost spec_st0: FilterState = (
        seq!["ts >= "@ + placeholder(n, "DateTime64(3)"@), "ts <= "@ + placeholder(n + 1, "DateTime64(3)"@)],
        items0.push((param_name(n), utc_text((from.secs as int) as i64, (from.nanos as int) as u32))).push(
            (param_name(n + 1), utc_text((to.secs as int) as i64, (to.nanos as int) as u32)),
        ),
    );
    assert(st0 == spec_st0);
    let fields = string_filter_list();
    let mut i: usize = 0;
    assert(string_filter_fields().take(0) =~= Seq::<Seq<char>>::empty());
    while i < fields.len()
        invariant
            i <= fields.len(),
            str_views(fields@) == string_filter_fields(),
            (texts(wh@), p@) == string_filters(q@, string_filter_fields().take(i as int), st0),
            old(p).well_named() ==> p.well_named(),
        decreases fields.len() - i,
    {
        let f = fields[i];
        assert(string_filter_fields().take(i + 1).drop_last() =~= string_filter_fields().take(i as int));
        assert(string_filter_fields().take(i + 1).last() == f@);
        match get_param(q, f) {
            Some(v) => {
                let vals = split_values(v.as_str());
                if vals.len() > 0 {
                    let phs = p.add_all("String", &vals);
                    push_text(&mut wh, in_clause_text(f, &phs));
                }
            },
            None => {},
        }
        i = i + 1;
    }
    assert(string_filter_fields().take(15) =~= string_filter_fields());
    let ghost st1: FilterState = (texts(wh@), p@);
    assert(st1 == string_filters(q@, string_filter_fields(), st0));
    assert(filters(q@, items0, now) == match status_filter(q@, st1) {
        Ok(st) => Ok(search_filter(q@, st)),
        Err(e) => Err(e),
    });

    match get_param(q, "http_status") {
        Some(v) => {
            let vals = split_values(v.as_str());
            if !all_numbers(&vals) {
                return Err(string_of(&chars_of("filter 'http_status' must be a number")));
            }
            if vals.len() > 0 {
                let phs = p.add_all("UInt16", &vals);
                push_text(&mut wh, in_clause_text("http_status", &phs));
            }
        },
        None => {},
    }
    let ghost st2: FilterState = (texts(wh@), p@);
    assert(status_filter(q@, st1) == Ok::<FilterState, Seq<char>>(st2));

    match get_param(q, "q") {
        Some(text) => if !text.as_str().is_empty() {
            let ph = p.add("String", text.as_str());
            let mut c: Vec<char> = Vec::new();
            extend_str(&mut c, "positionCaseInsensitive(message, ");
            extend_str(&mut c, ph.as_str());
            extend_str(&mut c, ") > 0");
            push_text(&mut wh, string_of(&c));
        },
        None => {},
    }
    assert((texts(wh@), p@) == search_filter(q@, st2));
    Ok(wh)
}

/// Whether every value parses as a `u64`.
fn all_numbers(vals: &Vec<String>) -> (r: bool)
    ensures
        r == forall|j: int| 0 <= j < vals@.len() ==> parse_unsigned_u64(#[trigger] texts(vals@)[j]) is Some,
{
    let mut k: usize = 0;
    while k < vals.len()
        invariant
            k <= vals.len(),
            forall|j: int| 0 <= j < k ==> parse_unsigned_u64(#[trigger] texts(vals@)[j]) is Some,
        decreases vals.len() - k,
    {
        let c = chars_of(vals[k].as_str());
        if crate::text::parse_unsigned_chars(&c, u64::MAX).is_none() {
            assert(parse_unsigned_u64(texts(vals@)[k as int]) is None);
            return false;
        }
        k = k + 1;
    }
    true
}

fn join3_ph(a: &str, ph: &String) -> (r: String)
    ensures
        r@ == a@ + ph@,
{
    let mut c: Vec<char> = Vec::new();
    extend_str(&mut c, a);
    extend_str(&mut c, ph.as_str());
    string_of(&c)
}


/// One branch of a cross-tenant event scan, tagged with the tenant's name.
pub open spec fn event_branch(t: Seq<char>, w: Seq<char>) -> Seq<char> {
    "SELECT *, '"@ + t + "' AS _tenant, toUnixTimestamp64Milli(ts) AS _ts_ms FROM `"@ + t
        + "`.events WHERE "@ + w
}

/// The events SELECT over `tenants` with WHERE clauses `wh`, ordered by
/// `(ts, event_id)` in direction `dir` and limited to `limit` rows. Untagged:
/// a plain scan of the first tenant's table. Tagged: a UNION ALL of every
/// tenant's table, each row carrying its tenant in `_tenant`.
pub open spec fn events_sql_text(tenants: Seq<Seq<char>>, wh: Seq<Seq<char>>, dir: Seq<char>, limit: nat, tag: bool) -> Seq<char> {
    let w = join(wh, " AND "@);
    let tail = " ORDER BY ts "@ + dir + ", event_id "@ + dir + " LIMIT "@ + decimal(limit)
        + " FORMAT JSONEachRow"@;
    if !tag {
        "SELECT *, toUnixTimestamp64Milli(ts) AS _ts_ms FROM `"@ + tenants[0] + "`.events WHERE "@
            + w + tail
    } else {
        "SELECT * FROM ("@ + join(Seq::new(tenants.len(), |i: int| event_branch(tenants[i], w)), " UNION ALL "@)
            + ")"@ + tail
    }
}

/// `pre + t + mid + t + post`.
fn around_twice(pre: &str, t: &String, mid: &str, post: &str, w: &Vec<char>) -> (r: String)
    ensures
        r@ == pre@ + t@ + mid@ + t@ + post@ + w@,
{
    let mut c: Vec<char> = Vec::new();
    extend_str(&mut c, pre);
    extend_str(&mut c, t.as_str());
    extend_str(&mut c, mid);
    extend_str(&mut c, t.as_str());
    extend_str(&mut c, post);
    extend_chars(&mut c, w);
    string_of(&c)
}

/// Builds the events SELECT (see `events_sql_text`).
pub fn events_sql(tenants: &Vec<String>, wh: &Vec<String>, dir: &str, limit: usize, tag: bool) -> (r: String)
    requires
        !tag ==> tenants.len() > 0,
    ensures
        r@ == events_sql_text(texts(tenants@), texts(wh@), dir@, limit as nat, tag),
{
    let w = join_chars(wh, " AND ");
    let mut tail: Vec<char> = Vec::new();
    extend_str(&mut tail, " ORDER BY ts ");
    extend_str(&mut tail, dir);
    extend_str(&mut tail, ", event_id ");
    extend_str(&mut tail, dir);
    extend_str(&mut tail, " LIMIT ");
    extend_chars(&mut tail, &decimal_chars(limit as u64));
    extend_str(&mut tail, " FORMAT JSONEachRow");
    let mut c: Vec<char> = Vec::new();
    if !tag {
        extend_str(&mut c, "SELECT *, toUnixTimestamp64Milli(ts) AS _ts_ms FROM `");
        extend_str(&mut c, tenants[0].as_str());
        extend_str(&mut c, "`.events WHERE ");
    } else {
        let mut branches: Vec<String> = Vec::new();
        let mut i: usize = 0;
        while i < tenants.len()
            invariant
                i <= tenants.len(),
                texts(branches@) =~= Seq::new(i as nat, |j: int| event_branch(texts(tenants@)[j], w@)),
            decreases tenants.len() - i,
        {
            push_text(&mut branches, around_twice("SELECT *, '", &tenants[i], "' AS _tenant, toUnixTimestamp64Milli(ts) AS _ts_ms FROM `", "`.events WHERE ", &w));
            i = i + 1;
        }
        extend_str(&mut c, "SELECT * FROM (");
        extend_chars(&mut c, &join_chars(&branches, " UNION ALL "));
        extend_str(&mut c, ")");
        extend_chars(&mut c, &tail);
        assert(c@ =~= events_sql_text(texts(tenants@), texts(wh@), dir@, limit as nat, tag));
        return string_of(&c);
    }
    extend_chars(&mut c, &w);
    extend_chars(&mut c, &tail);
    assert(c@ =~= events_sql_text(texts(tenants@), texts(wh@), dir@, limit as nat, tag));
    string_of(&c)
}

/// One branch of a cross-tenant stats source, tagged with the tenant's name.
pub open spec fn stats_branch(t: Seq<char>, w: Seq<char>) -> Seq<char> {
    "SELECT *, '"@ + t + "' AS _tenant FROM `"@ + t + "`.events WHERE "@ + w
}

/// The stats FROM source: untagged, the first tenant's table with the WHERE
/// clause inline; tagged, a UNION ALL subquery with a `_tenant` per branch.
pub open spec fn stats_from_text(tenants: Seq<Seq<char>>, w: Seq<char>, tag: bool) -> Seq<char> {
    if !tag {
        "`"@ + tenants[0] + "`.events WHERE "@ + w
    } else {
        "("@ + join(Seq::new(tenants.len(), |i: int| stats_branch(tenants[i], w)), " UNION ALL "@) + ")"@
    }
}

/// Builds the stats FROM source (see `stats_from_text`).
pub fn stats_from(tenants: &Vec<String>, where_clause: &str, tag: bool) -> (r: String)
    requires
        !tag ==> tenants.len() > 0,
    ensures
        r@ == stats_from_text(texts(tenants@), where_clause@, tag),
{
    let w = chars_of(where_clause);
    let mut c: Vec<char> = Vec::new();
    if !tag {
        extend_str(&mut c, "`");
        extend_str(&mut c, tenants[0].as_str());
        extend_str(&mut c, "`.events WHERE ");
        extend_chars(&mut c, &w);
    } else {
        let mut branches: Vec<String> = Vec::new();
        let mut i: usize = 0;
        while i < tenants.len()
            invariant
                i <= tenants.len(),
                w@ == where_clause@,
                texts(branches@) =~= Seq::new(i as nat, |j: int| stats_branch(texts(tenants@)[j], w@)),
            decreases tenants.len() - i,
        {
            push_text(&mut branches, around_twice("SELECT *, '", &tenants[i], "' AS _tenant FROM `", "`.events WHERE ", &w));
            i = i + 1;
        }
        extend_str(&mut c, "(");
        extend_chars(&mut c, &join_chars(&branches, " UNION ALL "));
        extend_str(&mut c, ")");
    }
    assert(c@ =~= stats_from_text(texts(tenants@), where_clause@, tag));
    string_of(&c)
}

/// Numeric columns allowed as the field of a `sum`/`avg`/`min`/`max` metric.
pub open spec fn metric_fields() -> Seq<Seq<char>> {
    seq!["tokens_input"@, "tokens_output"@, "duration_ms"@, "http_status"@]
}

/// Aggregations allowed in a metric.
pub open spec fn metric_aggs() -> Seq<Seq<char>> {
    seq!["sum"@, "avg"@, "min"@, "max"@]
}

/// The aggregate expression for a `metric` parameter (default `count`):
/// `count()`, or `<agg>(<field>)` for `<agg>:<field>` with an allowed
/// aggregation and field; otherwise the error message.
pub open spec fn metric_expr(opt: Option<Seq<char>>) -> Result<Seq<char>, Seq<char>> {
    let m = match opt {
        Some(s) => s,
        None => "count"@,
    };
    if m == "count"@ {
        Ok("count()"@)
    } else {
        match crate::text::split_once(m, ':') {
            None => Err("metric must be 'count' or '<agg>:<field>'"@),
            Some((agg, field)) => if !metric_fields().contains(field) {
                Err("metric field '"@ + field + "' not allowed"@)
            } else if metric_aggs().contains(agg) {
                Ok(agg + "("@ + field + ")"@)
            } else {
                Err("metric agg must be sum|avg|min|max"@)
            },
        }
    }
}

fn list4(a: &'static str, b: &'static str, c: &'static str, d: &'static str) -> (r: Vec<&'static str>)
    ensures
        str_views(r@) == seq![a@, b@, c@, d@],
{
    let r = vec![a, b, c, d];
    assert(str_views(r@) =~= seq![a@, b@, c@, d@]);
    r
}

/// Whether `x` is one of the names in `list`.
fn listed(x: &Vec<char>, list: &Vec<&str>) -> (r: bool)
    ensures
        r == str_views(list@).contains(x@),
{
    let mut i: usize = 0;
    while i < list.len()
        invariant
            i <= list.len(),
            forall|j: int| 0 <= j < i ==> str_views(list@)[j] != x@,
        decreases list.len() - i,
    {
        if chars_eq_str(x, list[i]) {
            assert(str_views(list@)[i as int] == x@);
            return true;
        }
        i = i + 1;
    }
    false
}

/// The aggregate expression for a `metric` parameter (see `metric_expr`).
pub fn parse_metric(opt: Option<&String>) -> (r: Result<String, String>)
    ensures
        match metric_expr(match opt { Some(s) => Some(s@), None => None }) {
            Ok(e) => r matches Ok(x) && x@ == e,
            Err(m) => r matches Err(x) && x@ == m,
        },
{
    let m = match opt {
        Some(s) => chars_of(s.as_str()),
        None => chars_of("count"),
    };
    if chars_eq_str(&m, "count") {
        return Ok(string_of(&chars_of("count()")));
    }
    match crate::text::split_once_chars(&m, ':') {
        None => Err(string_of(&chars_of("metric must be 'count' or '<agg>:<field>'"))),
        Some((agg, field)) => {
            if !listed(&field, &list4("tokens_input", "tokens_output", "duration_ms", "http_status")) {
                return Err(join3("metric field '", &field, "' not allowed"));
            }
            if listed(&agg, &list4("sum", "avg", "min", "max")) {
                let mut c: Vec<char> = Vec::new();
                extend_chars(&mut c, &agg);
                extend_str(&mut c, "(");
                extend_chars(&mut c, &field);
                extend_str(&mut c, ")");
                Ok(string_of(&c))
            } else {
                Err(string_of(&chars_of("metric agg must be sum|avg|min|max")))
            }
        },
    }
}

/// The ClickHouse bucket expression for an `interval` token.
pub open spec fn interval_bucket(s: Seq<char>) -> Option<Seq<char>> {
    if s == "1m"@ {
        Some("toStartOfInterval(ts, INTERVAL 1 MINUTE)"@)
    } else if s == "5m"@ {
        Some("toStartOfInterval(ts, INTERVAL 5 MINUTE)"@)
    } else if s == "15m"@ {
        Some("toStartOfInterval(ts, INTERVAL 15 MINUTE)"@)
    } else if s == "30m"@ {
        Some("toStartOfInterval(ts, INTERVAL 30 MINUTE)"@)
    } else if s == "1h"@ {
        Some("toStartOfInterval(ts, INTERVAL 1 HOUR)"@)
    } else if s == "6h"@ {
        Some("toStartOfInterval(ts, INTERVAL 6 HOUR)"@)
    } else if s == "12h"@ {
        Some("toStartOfInterval(ts, INTERVAL 12 HOUR)"@)
    } else if s == "1d"@ {
        Some("toStartOfInterval(ts, INTERVAL 1 DAY)"@)
    } else {
        None
    }
}

/// The ClickHouse bucket expression for an `interval` token.
pub fn interval_expr(s: &str) -> (r: Option<&'static str>)
    ensures
        match interval_bucket(s@) {
            Some(e) => r matches Some(x) && x@ == e,
            None => r is None,
        },
{
    let v = chars_of(s);
    if chars_eq_str(&v, "1m") {
        Some("toStartOfInterval(ts, INTERVAL 1 MINUTE)")
    } else if chars_eq_str(&v, "5m") {
        Some("toStartOfInterval(ts, INTERVAL 5 MINUTE)")
    } else if chars_eq_str(&v, "15m") {
        Some("toStartOfInterval(ts, INTERVAL 15 MINUTE)")
    } else if chars_eq_str(&v, "30m") {
        Some("toStartOfInterval(ts, INTERVAL 30 MINUTE)")
    } else if chars_eq_str(&v, "1h") {
        Some("toStartOfInterval(ts, INTERVAL 1 HOUR)")
    } else if chars_eq_str(&v, "6h") {
        Some("toStartOfInterval(ts, INTERVAL 6 HOUR)")
    } else if chars_eq_str(&v, "12h") {
        Some("toStartOfInterval(ts, INTERVAL 12 HOUR)")
    } else if chars_eq_str(&v, "1d") {
        Some("toStartOfInterval(ts, INTERVAL 1 DAY)")
    } else {
        None
    }
}


/// The page size: the `limit` parameter when it parses as a `usize`, else
/// 100; then clamped to 1..=1000.
pub open spec fn page_limit(q: Seq<(String, String)>) -> nat {
    let l = match param(q, "limit"@) {
        Some(s) => match crate::text::parse_unsigned(s, usize::MAX as nat) {
            Some(n) => n,
            None => 100,
        },
        None => 100,
    };
    if l < 1 {
        1
    } else if l > 1000 {
        1000
    } else {
        l
    }
}

/// Whether events are listed newest first: unless `order` is exactly `asc`.
pub open spec fn descending(q: Seq<(String, String)>) -> bool {
    match param(q, "order"@) {
        Some(o) => o != "asc"@,
        None => true,
    }
}

/// The keyset-paging condition on `(ts, event_id)` against the bound
/// parameters `n` (milliseconds) and `n + 1` (event id): rows after the
/// cursor in the listing order.
pub open spec fn keyset_clause(desc: bool, n: nat) -> Seq<char> {
    let op = if desc { "<"@ } else { ">"@ };
    let ms_ph = placeholder(n, "Int64"@);
    let id_ph = placeholder(n + 1, "String"@);
    "(toUnixTimestamp64Milli(ts) "@ + op + " "@ + ms_ph + " OR (toUnixTimestamp64Milli(ts) = "@ + ms_ph
        + " AND toString(event_id) "@ + op + " "@ + id_ph + "))"@
}

/// `st` extended with the keyset-paging clause for a `cursor` parameter of
/// the form `<unix_millis>:<event_id>` (ignored when malformed).
pub open spec fn cursor_clause(q: Seq<(String, String)>, desc: bool, st: FilterState) -> FilterState {
    match param(q, "cursor"@) {
        Some(c) => match crate::text::split_once(c, ':') {
            Some((ms, id)) => if crate::text::parse_i64(ms) is Some {
                let n = st.1.len();
                (st.0.push(keyset_clause(desc, n)), st.1.push((param_name(n), ms)).push((param_name(n + 1), id)))
            } else {
                st
            },
            None => st,
        },
        None => st,
    }
}

/// What an events search runs: nothing when there are no tenants; otherwise
/// the SELECT, its bound parameters and the page size; or the error message
/// for a bad parameter.
pub open spec fn events_plan(tenants: Seq<Seq<char>>, cross: bool, q: Seq<(String, String)>, now: Instant) -> Result<Option<(Seq<char>, Seq<(Seq<char>, Seq<char>)>, nat)>, Seq<char>> {
    if tenants.len() == 0 {
        Ok(None)
    } else {
        let limit = page_limit(q);
        let desc = descending(q);
        match filters(q, Seq::<(Seq<char>, Seq<char>)>::empty(), now) {
            Err(e) => Err(e),
            Ok(st) => {
                let st2 = cursor_clause(q, desc, st);
                let dir = if desc { "DESC"@ } else { "ASC"@ };
                Ok(Some((events_sql_text(tenants, st2.0, dir, limit, cross), st2.1, limit)))
            },
        }
    }
}

/// A planned events search.
#[derive(Clone, Debug)]
pub struct EventsQuery {
    pub sql: String,
    pub params: Params,
    pub limit: usize,
}

/// Plans an events search over `tenants` (see `events_plan`); `cross` tags
/// rows with their tenant.
pub fn events_query(tenants: &Vec<String>, cross: bool, q: &Vec<(String, String)>, now: Instant) -> (r: Result<Option<EventsQuery>, String>)
    requires
        tenants@.len() > 0 ==> times_resolvable(q@, now),
    ensures
        match events_plan(texts(tenants@), cross, q@, now) {
            Ok(None) => r matches Ok(None),
            Ok(Some(plan)) => r matches Ok(Some(e)) && e.sql@ == plan.0 && e.params@ == plan.1
                && e.limit == plan.2 && e.params.well_named(),
            Err(m) => r matches Err(x) && x@ == m,
        },
{
    if tenants.len() == 0 {
        return Ok(None);
    }
    let limit: usize = match get_param(q, "limit") {
        Some(s) => match crate::text::parse_unsigned_chars(&chars_of(s.as_str()), usize::MAX as u64) {
            Some(n) => n as usize,
            None => 100,
        },
        None => 100,
    };
    let limit: usize = if limit < 1 { 1 } else if limit > 1000 { 1000 } else { limit };
    let desc = match get_param(q, "order") {
        Some(o) => !crate::text::str_eq(o.as_str(), "asc"),
        None => true,
    };
    let mut p = Params::new();
    let mut wh = match build_filters(q, &mut p, now) {
        Ok(w) => w,
        Err(e) => return Err(e),
    };
    let ghost st: FilterState = (texts(wh@), p@);
    match get_param(q, "cursor") {
        Some(cur) => match crate::text::split_once_chars(&chars_of(cur.as_str()), ':') {
            Some((ms, id)) => if crate::text::parse_i64_chars(&ms).is_some() {
                let op = if desc { "<" } else { ">" };
                let ms_ph = p.add("Int64", string_of(&ms).as_str());
                let id_ph = p.add("String", string_of(&id).as_str());
                let mut c: Vec<char> = Vec::new();
                extend_str(&mut c, "(toUnixTimestamp64Milli(ts) ");
                extend_str(&mut c, op);
                extend_str(&mut c, " ");
                extend_str(&mut c, ms_ph.as_str());
                extend_str(&mut c, " OR (toUnixTimestamp64Milli(ts) = ");
                extend_str(&mut c, ms_ph.as_str());
                extend_str(&mut c, " AND toString(event_id) ");
                extend_str(&mut c, op);
                extend_str(&mut c, " ");
                extend_str(&mut c, id_ph.as_str());
                extend_str(&mut c, "))");
                push_text(&mut wh, string_of(&c));
            },
            None => {},
        },
        None => {},
    }
    assert((texts(wh@), p@) == cursor_clause(q@, desc, st));
    let dir = if desc { "DESC" } else { "ASC" };
    let sql = events_sql(tenants, &wh, dir, limit, cross);
    Ok(Some(EventsQuery { sql, params: p, limit }))
}

/// Dimensions allowed in `group_by`.
pub open spec fn group_dims() -> Seq<Seq<char>> {
    seq![
        "category"@, "event_type"@, "severity"@, "source"@, "model"@, "entity_type"@,
        "http_status"@, "route"@, "server"@, "app_version"@,
    ]
}

fn group_dim_list() -> (r: Vec<&'static str>)
    ensures
        str_views(r@) == group_dims(),
{
    let r = vec![
        "category", "event_type", "severity", "source", "model", "entity_type", "http_status",
        "route", "server", "app_version",
    ];
    assert(str_views(r@) =~= group_dims());
    r
}

/// The column a stats query groups by: an allowed dimension, or `_tenant`
/// for `tenant` on a cross-tenant query; otherwise the error message.
pub open spec fn group_column(q: Seq<(String, String)>, cross: bool) -> Result<Seq<char>, Seq<char>> {
    match param(q, "group_by"@) {
        Some(g) => if g == "tenant"@ {
            if cross {
                Ok("_tenant"@)
            } else {
                Err("group_by=tenant requires the 'all' tenant selection"@)
            }
        } else if group_dims().contains(g) {
            Ok(g)
        } else {
            Err("invalid group_by"@)
        },
        None => Err("group_by is required"@),
    }
}

/// The time-bucket expression for an `interval` parameter, or the error message.
pub open spec fn bucket_expr(q: Seq<(String, String)>) -> Result<Option<Seq<char>>, Seq<char>> {
    match param(q, "interval"@) {
        Some(i) => match interval_bucket(i) {
            Some(e) => Ok(Some(e)),
            None => Err("invalid interval (1m|5m|15m|30m|1h|6h|12h|1d)"@),
        },
        None => Ok(None),
    }
}

/// The stats SELECT for group column `g`, metric `m`, optional bucket `b`,
/// over `from`.
pub open spec fn stats_sql_text(g: Seq<char>, m: Seq<char>, b: Option<Seq<char>>, from: Seq<char>) -> Seq<char> {
    let (select, group_by, order) = match b {
        Some(b) => (g + " AS group_value, "@ + b + " AS bucket"@, "group_value, bucket"@, "bucket ASC, value DESC"@),
        None => (g + " AS group_value"@, "group_value"@, "value DESC"@),
    };
    "SELECT "@ + select + ", "@ + m + " AS value"@ + " FROM "@ + from + " GROUP BY "@ + group_by
        + " ORDER BY "@ + order + " LIMIT 5000 FORMAT JSONEachRow"@
}

/// What a stats query runs: nothing when there are no tenants; otherwise the
/// SELECT and its bound parameters; or the error message for a bad parameter.
pub open spec fn stats_plan(tenants: Seq<Seq<char>>, cross: bool, q: Seq<(String, String)>, now: Instant) -> Result<Option<(Seq<char>, Seq<(Seq<char>, Seq<char>)>)>, Seq<char>> {
    if tenants.len() == 0 {
        Ok(None)
    } else {
        match group_column(q, cross) {
            Err(e) => Err(e),
            Ok(g) => match metric_expr(param(q, "metric"@)) {
                Err(e) => Err(e),
                Ok(m) => match bucket_expr(q) {
                    Err(e) => Err(e),
                    Ok(b) => match filters(q, Seq::<(Seq<char>, Seq<char>)>::empty(), now) {
                        Err(e) => Err(e),
                        Ok(st) => Ok(Some((stats_sql_text(g, m, b, stats_from_text(tenants, join(st.0, " AND "@), cross)), st.1))),
                    },
                },
            },
        }
    }
}

/// A planned stats query.
#[derive(Clone, Debug)]
pub struct StatsQuery {
    pub sql: String,
    pub params: Params,
}

/// The column a stats query groups by (see `group_column`).
fn group_column_of(q: &Vec<(String, String)>, cross: bool) -> (r: Result<Vec<char>, String>)
    ensures
        match group_column(q@, cross) {
            Ok(g) => r matches Ok(x) && x@ == g,
            Err(m) => r matches Err(x) && x@ == m,
        },
{
    match get_param(q, "group_by") {
        Some(g) => {
            let gv = chars_of(g.as_str());
            if chars_eq_str(&gv, "tenant") {
                if cross {
                    Ok(chars_of("_tenant"))
                } else {
                    Err(string_of(&chars_of("group_by=tenant requires the 'all' tenant selection")))
                }
            } else if listed(&gv, &group_dim_list()) {
                Ok(gv)
            } else {
                Err(string_of(&chars_of("invalid group_by")))
            }
        },
        None => Err(string_of(&chars_of("group_by is required"))),
    }
}

/// The time-bucket expression of a stats query (see `bucket_expr`).
fn bucket_of(q: &Vec<(String, String)>) -> (r: Result<Option<&'static str>, String>)
    ensures
        match bucket_expr(q@) {
            Ok(Some(e)) => r matches Ok(Some(x)) && x@ == e,
            Ok(None) => r matches Ok(None),
            Err(m) => r matches Err(x) && x@ == m,
        },
{
    match get_param(q, "interval") {
        Some(i) => match interval_expr(i.as_str()) {
            Some(e) => Ok(Some(e)),
            None => Err(string_of(&chars_of("invalid interval (1m|5m|15m|30m|1h|6h|12h|1d)"))),
        },
        None => Ok(None),
    }
}

/// Assembles the stats SELECT (see `stats_sql_text`).
fn stats_sql(group: &Vec<char>, metric: &String, bucket: Option<&'static str>, from: &String) -> (r: String)
    ensures
        r@ == stats_sql_text(group@, metric@, match bucket { Some(b) => Some(b@), None => None }, from@),
{
    let mut c: Vec<char> = Vec::new();
    extend_str(&mut c, "SELECT ");
    extend_chars(&mut c, group);
    let (group_by, order) = match bucket {
        Some(b) => {
            extend_str(&mut c, " AS group_value, ");
            extend_str(&mut c, b);
            extend_str(&mut c, " AS bucket");
            ("group_value, bucket", "bucket ASC, value DESC")
        },
        None => {
            extend_str(&mut c, " AS group_value");
            ("group_value", "value DESC")
        },
    };
    extend_str(&mut c, ", ");
    extend_str(&mut c, metric.as_str());
    extend_str(&mut c, " AS value");
    extend_str(&mut c, " FROM ");
    extend_str(&mut c, from.as_str());
    extend_str(&mut c, " GROUP BY ");
    extend_str(&mut c, group_by);
    extend_str(&mut c, " ORDER BY ");
    extend_str(&mut c, order);
    extend_str(&mut c, " LIMIT 5000 FORMAT JSONEachRow");
    let ghost b_spec: Option<Seq<char>> = match bucket { Some(b) => Some(b@), None => None };
    assert(c@ =~= stats_sql_text(group@, metric@, b_spec, from@));
    string_of(&c)
}

/// Plans a stats query over `tenants` (see `stats_plan`); `cross` enables the
/// `tenant` dimension.
pub fn stats_query(tenants: &Vec<String>, cross: bool, q: &Vec<(String, String)>, now: Instant) -> (r: Result<Option<StatsQuery>, String>)
    requires
        tenants@.len() > 0 ==> stats_times_resolvable(q@, cross, now),
    ensures
        match stats_plan(texts(tenants@), cross, q@, now) {
            Ok(None) => r matches Ok(None),
            Ok(Some(plan)) => r matches Ok(Some(e)) && e.sql@ == plan.0 && e.params@ == plan.1 && e.params.well_named(),
            Err(m) => r matches Err(x) && x@ == m,
        },
{
    if tenants.len() == 0 {
        return Ok(None);
    }
    let group = match group_column_of(q, cross) {
        Ok(g) => g,
        Err(e) => return Err(e),
    };
    let metric = match parse_metric(get_param(q, "metric")) {
        Ok(m) => m,
        Err(e) => return Err(e),
    };
    let bucket = match bucket_of(q) {
        Ok(b) => b,
        Err(e) => return Err(e),
    };
    let mut p = Params::new();
    let wh = match build_filters(q, &mut p, now) {
        Ok(w) => w,
        Err(e) => return Err(e),
    };
    let from = stats_from(tenants, string_of(&join_chars(&wh, " AND ")).as_str(), cross);
    let sql = stats_sql(&group, &metric, bucket, &from);
    Ok(Some(StatsQuery { sql, params: p }))
}

/// The interval tokens map to their buckets: exactly `1m`, `5m`, `15m`,
/// `30m`, `1h`, `6h`, `12h` and `1d` are accepted, and the token `<k><u>`
/// buckets by `toStartOfInterval(ts, INTERVAL <k> <U>)`, where `<U>` is
/// `MINUTE`, `HOUR` or `DAY` for `m`, `h` or `d`.
pub proof fn lemma_interval_buckets(s: Seq<char>)
    ensures
        interval_bucket(s) is Some <==> (s == "1m"@ || s == "5m"@ || s == "15m"@ || s == "30m"@ || s == "1h"@
            || s == "6h"@ || s == "12h"@ || s == "1d"@),
        interval_bucket(s) matches Some(t) ==> t == "toStartOfInterval(ts, INTERVAL "@ + s.drop_last() + " "@ + (
        if s.last() == 'm' {
            "MINUTE"@
        } else if s.last() == 'h' {
            "HOUR"@
        } else {
            "DAY"@
        }) + ")"@,
{
    reveal_strlit("1m");
    reveal_strlit("5m");
    reveal_strlit("15m");
    reveal_strlit("30m");
    reveal_strlit("1h");
    reveal_strlit("6h");
    reveal_strlit("12h");
    reveal_strlit("1d");
    reveal_strlit("toStartOfInterval(ts, INTERVAL ");
    reveal_strlit(" ");
    reveal_strlit(")");
    reveal_strlit("MINUTE");
    reveal_strlit("HOUR");
    reveal_strlit("DAY");
    reveal_strlit("toStartOfInterval(ts, INTERVAL 1 MINUTE)");
    reveal_strlit("toStartOfInterval(ts, INTERVAL 5 MINUTE)");
    reveal_strlit("toStartOfInterval(ts, INTERVAL 15 MINUTE)");
    reveal_strlit("toStartOfInterval(ts, INTERVAL 30 MINUTE)");
    reveal_strlit("toStartOfInterval(ts, INTERVAL 1 HOUR)");
    reveal_strlit("toStartOfInterval(ts, INTERVAL 6 HOUR)");
    reveal_strlit("toStartOfInterval(ts, INTERVAL 12 HOUR)");
    reveal_strlit("toStartOfInterval(ts, INTERVAL 1 DAY)");
    if let Some(t) = interval_bucket(s) {
        let u = if s.last() == 'm' {
            "MINUTE"@
        } else if s.last() == 'h' {
            "HOUR"@
        } else {
            "DAY"@
        };
        assert(t =~= "toStartOfInterval(ts, INTERVAL "@ + s.drop_last() + " "@ + u + ")"@);
    }
}

/// The page size of an events search: a `limit` that reads as a number `n`
/// gives `n` when `1 <= n <= 1000`, 1 below that and 1000 above; an absent
/// or unreadable `limit` gives 100. The SQL ends with that `LIMIT`.
pub proof fn lemma_page_size(tenants: Seq<Seq<char>>, cross: bool, q: Seq<(String, String)>, now: Instant)
    ensures
        events_plan(tenants, cross, q, now) matches Ok(Some(plan)) ==> {
            &&& 1 <= plan.2 <= 1000
            &&& (param(q, "limit"@) matches Some(l) ==> (crate::text::parse_unsigned(l, usize::MAX as nat) matches Some(n)
                ==> ((1 <= n <= 1000 ==> plan.2 == n) && (n < 1 ==> plan.2 == 1) && (n > 1000 ==> plan.2 == 1000))))
            &&& (param(q, "limit"@) is None || crate::text::parse_unsigned(param(q, "limit"@)->Some_0, usize::MAX as nat)
                is None ==> plan.2 == 100)
            &&& plan.0.len() >= (" LIMIT "@ + decimal(plan.2) + " FORMAT JSONEachRow"@).len()
            &&& plan.0.skip(plan.0.len() - (" LIMIT "@ + decimal(plan.2) + " FORMAT JSONEachRow"@).len())
                == " LIMIT "@ + decimal(plan.2) + " FORMAT JSONEachRow"@
        },
{
    if let Ok(Some(plan)) = events_plan(tenants, cross, q, now) {
        let st = filters(q, Seq::<(Seq<char>, Seq<char>)>::empty(), now)->Ok_0;
        let st2 = cursor_clause(q, descending(q), st);
        let w = join(st2.0, " AND "@);
        let dir = if descending(q) { "DESC"@ } else { "ASC"@ };
        let tail = " LIMIT "@ + decimal(plan.2) + " FORMAT JSONEachRow"@;
        let order = " ORDER BY ts "@ + dir + ", event_id "@ + dir;
        assert(plan.2 == page_limit(q));
        let head = if !cross {
            "SELECT *, toUnixTimestamp64Milli(ts) AS _ts_ms FROM `"@ + tenants[0] + "`.events WHERE "@ + w + order
        } else {
            "SELECT * FROM ("@ + join(Seq::new(tenants.len(), |i: int| event_branch(tenants[i], w)), " UNION ALL "@)
                + ")"@ + order
        };
        assert(plan.0 =~= head + tail);
        assert(plan.0.skip(plan.0.len() - tail.len()) =~= tail);
    }
}

/// The `count` string placeholders `{p<n>:String}`, `{p<n+1>:String}`, ...
/// written out.
pub open spec fn string_slots(n: nat, count: nat) -> Seq<Seq<char>> {
    Seq::new(count, |i: int| "{"@ + "p"@ + decimal((n + i) as nat) + ":"@ + "String"@ + "}"@)
}

proof fn lemma_sf_grows(q: Seq<(String, String)>, fields: Seq<Seq<char>>, st: FilterState)
    ensures
        ({
            let r = string_filters(q, fields, st);
            &&& r.0.len() >= st.0.len() && r.1.len() >= st.1.len()
            &&& forall|i: int| 0 <= i < st.0.len() ==> r.0[i] == st.0[i]
            &&& forall|i: int| 0 <= i < st.1.len() ==> r.1[i] == st.1[i]
        }),
    decreases fields.len(),
{
    if fields.len() > 0 {
        lemma_sf_grows(q, fields.drop_last(), st);
    }
}

proof fn lemma_sf_has(q: Seq<(String, String)>, fields: Seq<Seq<char>>, st: FilterState, f: Seq<char>)
    requires
        fields.contains(f),
        param(q, f) is Some,
        filter_values(param(q, f)->Some_0).len() > 0,
    ensures
        ({
            let r = string_filters(q, fields, st);
            let vals = filter_values(param(q, f)->Some_0);
            exists|n: nat| {
                &&& r.0.contains(in_clause(f, placeholders(n, "String"@, vals.len())))
                &&& n + vals.len() <= r.1.len()
                &&& forall|i: int| 0 <= i < vals.len() ==> #[trigger] r.1[n + i] == (param_name((n + i) as nat), vals[i])
            }
        }),
    decreases fields.len(),
{
    let r = string_filters(q, fields, st);
    let vals = filter_values(param(q, f)->Some_0);
    let init = fields.drop_last();
    let s = string_filters(q, init, st);
    if fields.last() == f {
        let n = s.1.len();
        assert(r.0[r.0.len() - 1] == in_clause(f, placeholders(n, "String"@, vals.len())));
        assert forall|i: int| 0 <= i < vals.len() implies #[trigger] r.1[n + i] == (param_name((n + i) as nat), vals[i]) by {
        }
    } else {
        let k = choose|k: int| 0 <= k < fields.len() && fields[k] == f;
        assert(init[k] == f);
        lemma_sf_has(q, init, st, f);
        let n = choose|n: nat| {
            &&& s.0.contains(in_clause(f, placeholders(n, "String"@, vals.len())))
            &&& n + vals.len() <= s.1.len()
            &&& forall|i: int| 0 <= i < vals.len() ==> #[trigger] s.1[n + i] == (param_name((n + i) as nat), vals[i])
        };
        let c = in_clause(f, placeholders(n, "String"@, vals.len()));
        let j = choose|j: int| 0 <= j < s.0.len() && s.0[j] == c;
        assert(r.0[j] == c);
        assert forall|i: int| 0 <= i < vals.len() implies #[trigger] r.1[n + i] == (param_name((n + i) as nat), vals[i]) by {
            assert(s.1[n + i] == (param_name((n + i) as nat), vals[i]));
        }
    }
}

/// Every allowlisted string filter is applied: for each of `category`,
/// `event_type`, `severity`, `source`, `model`, `user_id`, `session_id`,
/// `request_id`, `entity_type`, `entity_id`, `error_code`, `route`,
/// `server`, `app_version` and `ip`, when the query gives it at least one
/// non-blank comma-separated value, the WHERE clauses hold
/// `<name> IN ({p<n>:String}, {p<n+1>:String}, ...)` and the parameters
/// `p<n>`, `p<n+1>`, ... are bound to exactly those trimmed values, in order.
pub proof fn lemma_string_filters_are_applied(
    q: Seq<(String, String)>,
    items: Seq<(Seq<char>, Seq<char>)>,
    now: Instant,
    f: Seq<char>,
)
    requires
        f == "category"@ || f == "event_type"@ || f == "severity"@ || f == "source"@ || f == "model"@ ||
            f == "user_id"@ || f == "session_id"@ || f == "request_id"@ || f == "entity_type"@ ||
            f == "entity_id"@ || f == "error_code"@ || f == "route"@ || f == "server"@ ||
            f == "app_version"@ || f == "ip"@,
        param(q, f) is Some,
        filter_values(param(q, f)->Some_0).len() > 0,
    ensures
        filters(q, items, now) matches Ok(st) ==> ({
            let vals = filter_values(param(q, f)->Some_0);
            exists|n: nat| {
                &&& #[trigger] st.0.contains(f + " IN ("@ + join(string_slots(n, vals.len()), ", "@) + ")"@)
                &&& n + vals.len() <= st.1.len()
                &&& forall|i: int| 0 <= i < vals.len() ==> #[trigger] st.1[n + i] == ("p"@ + decimal((n + i) as nat), vals[i])
            }
        }),
{
    if f == "category"@ {
        assert(string_filter_fields()[0] == f);
    }
    if f == "event_type"@ {
        assert(string_filter_fields()[1] == f);
    }
    if f == "severity"@ {
        assert(string_filter_fields()[2] == f);
    }
    if f == "source"@ {
        assert(string_filter_fields()[3] == f);
    }
    if f == "model"@ {
        assert(string_filter_fields()[4] == f);
    }
    if f == "user_id"@ {
        assert(string_filter_fields()[5] == f);
    }
    if f == "session_id"@ {
        assert(string_filter_fields()[6] == f);
    }
    if f == "request_id"@ {
        assert(string_filter_fields()[7] == f);
    }
    if f == "entity_type"@ {
        assert(string_filter_fields()[8] == f);
    }
    if f == "entity_id"@ {
        assert(string_filter_fields()[9] == f);
    }
    if f == "error_code"@ {
        assert(string_filter_fields()[10] == f);
    }
    if f == "route"@ {
        assert(string_filter_fields()[11] == f);
    }
    if f == "server"@ {
        assert(string_filter_fields()[12] == f);
    }
    if f == "app_version"@ {
        assert(string_filter_fields()[13] == f);
    }
    if f == "ip"@ {
        assert(string_filter_fields()[14] == f);
    }
    if let Ok(st) = filters(q, items, now) {
        let vals = filter_values(param(q, f)->Some_0);
        let from = range_bound(q, "from"@, now, (now.secs - 3600, now.nanos as int)).unwrap();
        let to = range_bound(q, "to"@, now, (now.secs as int, now.nanos as int)).unwrap();
        let m = items.len();
        let st0: FilterState = (
            seq!["ts >= "@ + placeholder(m, "DateTime64(3)"@), "ts <= "@ + placeholder(m + 1, "DateTime64(3)"@)],
            items.push((param_name(m), utc_text(from.0 as i64, from.1 as u32))).push(
                (param_name(m + 1), utc_text(to.0 as i64, to.1 as u32)),
            ),
        );
        lemma_sf_has(q, string_filter_fields(), st0, f);
        let s = string_filters(q, string_filter_fields(), st0);
        let t = status_filter(q, s)->Ok_0;
        assert(st == search_filter(q, t));
        let n = choose|n: nat| {
            &&& s.0.contains(in_clause(f, placeholders(n, "String"@, vals.len())))
            &&& n + vals.len() <= s.1.len()
            &&& forall|i: int| 0 <= i < vals.len() ==> #[trigger] s.1[n + i] == (param_name((n + i) as nat), vals[i])
        };
        let c = in_clause(f, placeholders(n, "String"@, vals.len()));
        let j = choose|j: int| 0 <= j < s.0.len() && s.0[j] == c;
        assert(t.0.len() >= s.0.len() && t.1.len() >= s.1.len());
        assert(t.0[j] == s.0[j]);
        assert(forall|i: int| 0 <= i < s.1.len() ==> t.1[i] == s.1[i]);
        assert(st.0.len() >= t.0.len() && st.1.len() >= t.1.len());
        assert(st.0[j] == t.0[j]);
        assert(forall|i: int| 0 <= i < t.1.len() ==> st.1[i] == t.1[i]);
        assert(st.0[j] == c);
        assert(placeholders(n, "String"@, vals.len()) =~= string_slots(n, vals.len())) by {
            assert forall|i: int| 0 <= i < vals.len() implies placeholders(n, "String"@, vals.len())[i] == "{"@ + "p"@
                + decimal((n + i) as nat) + ":"@ + "String"@ + "}"@ by {
                assert(placeholder((n + i) as nat, "String"@) =~= "{"@ + "p"@ + decimal((n + i) as nat) + ":"@ + "String"@
                    + "}"@);
            }
        }
        assert forall|i: int| 0 <= i < vals.len() implies #[trigger] st.1[n + i] == ("p"@ + decimal((n + i) as nat), vals[i]) by {
            assert(s.1[n + i] == (param_name((n + i) as nat), vals[i]));
            assert(t.1[n + i] == s.1[n + i]);
        }
        assert(c == f + " IN ("@ + join(string_slots(n, vals.len()), ", "@) + ")"@);
        assert(st.0.contains(f + " IN ("@ + join(string_slots(n, vals.len()), ", "@) + ")"@));
    }
}

} // verus!
