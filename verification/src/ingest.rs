//! The ingest endpoint's rules: which key a request presents, how a body
//! becomes a list of events, and whether a batch is accepted.

use vstd::prelude::*;
use crate::auth::{bearer, bearer_token};
use crate::json::{json_document, json_error, parse_json, JsonValue};
use crate::schema::{validate_event, violations};
use crate::text::{
    chars_of, decimal, decimal_chars, extend_chars, extend_str, lines, lines_chars, string_of,
    texts, trim, trim_chars, views,
};

verus! {

/// Max events accepted in one request.
pub open spec fn max_batch() -> nat {
    1000
}

/// Max per-event validation reports echoed back in one response.
pub open spec fn max_reported() -> nat {
    20
}

/// The API key a request presents: a non-empty `x-api-key` header, else the
/// bearer token of `Authorization`.
pub open spec fn presented_key(x_api_key: Option<Seq<char>>, authorization: Option<Seq<char>>) -> Option<Seq<char>> {
    match x_api_key {
        Some(k) if k.len() > 0 => Some(k),
        _ => match authorization {
            Some(a) => bearer_token(a),
            None => None,
        },
    }
}

/// The API key a request presents (see `presented_key`).
pub fn bearer_or_apikey(x_api_key: Option<&str>, authorization: Option<&str>) -> (r: Option<String>)
    ensures
        match presented_key(
            match x_api_key { Some(k) => Some(k@), None => None },
            match authorization { Some(a) => Some(a@), None => None },
        ) {
            Some(k) => r matches Some(x) && x@ == k,
            None => r is None,
        },
{
    if let Some(k) = x_api_key {
        if !k.is_empty() {
            return Some(string_of(&chars_of(k)));
        }
    }
    bearer(authorization)
}

/// The trimmed request body, or `empty body` when nothing is left.
pub fn body_text(body: &str) -> (r: Result<String, String>)
    ensures
        trim(body@).len() > 0 ==> (r matches Ok(t) && t@ == trim(body@)),
        trim(body@).len() == 0 ==> (r matches Err(e) && e@ == "empty body"@),
{
    let t = trim_chars(&chars_of(body));
    if t.len() == 0 {
        Err(string_of(&chars_of("empty body")))
    } else {
        Ok(string_of(&t))
    }
}

/// The events of a body that parsed as one JSON document: the items of an
/// array, or the object itself; anything else is refused.
pub fn document_events(doc: JsonValue) -> (r: Result<Vec<JsonValue>, String>)
    ensures
        match doc {
            JsonValue::Array(items) => r matches Ok(v) && v@ == items@,
            JsonValue::Object(_) => r matches Ok(v) && v@ == seq![doc],
            _ => r matches Err(e) && e@ == "body must be a JSON object or an array of objects"@,
        },
{
    match doc {
        JsonValue::Array(items) => Ok(items),
        JsonValue::Object(members) => {
            let mut v: Vec<JsonValue> = Vec::new();
            v.push(JsonValue::Object(members));
            Ok(v)
        },
        _ => Err(string_of(&chars_of("body must be a JSON object or an array of objects"))),
    }
}

/// The non-blank lines of a newline-delimited body with their 1-based line
/// numbers, counting blank lines.
pub open spec fn ndjson_lines_of(ls: Seq<Seq<char>>) -> Seq<(nat, Seq<char>)>
    decreases ls.len(),
{
    if ls.len() == 0 {
        Seq::empty()
    } else {
        let prev = ndjson_lines_of(ls.drop_last());
        if trim(ls.last()).len() == 0 {
            prev
        } else {
            prev.push((ls.len(), ls.last()))
        }
    }
}

/// The non-blank lines of `body` with their 1-based line numbers.
pub fn ndjson_lines(body: &str) -> (r: Vec<(usize, String)>)
    ensures
        r@.len() == ndjson_lines_of(lines(body@)).len(),
        forall|i: int| 0 <= i < r@.len() ==> (#[trigger] r@[i]).0 as nat == ndjson_lines_of(lines(body@))[i].0
            && r@[i].1@ == ndjson_lines_of(lines(body@))[i].1,
{
    let ls = lines_chars(&chars_of(body));
    let mut out: Vec<(usize, String)> = Vec::new();
    let mut i: usize = 0;
    assert(views(ls@).take(0) =~= Seq::<Seq<char>>::empty());
    while i < ls.len()
        invariant
            i <= ls.len(),
            views(ls@) == lines(body@),
            out@.len() == ndjson_lines_of(views(ls@).take(i as int)).len(),
            forall|k: int| 0 <= k < out@.len() ==> (#[trigger] out@[k]).0 as nat == ndjson_lines_of(views(ls@).take(i as int))[k].0
                && out@[k].1@ == ndjson_lines_of(views(ls@).take(i as int))[k].1,
        decreases ls.len() - i,
    {
        let ghost t = views(ls@).take(i + 1);
        assert(t.drop_last() =~= views(ls@).take(i as int));
        assert(t.last() == ls@[i as int]@);
        if trim_chars(&ls[i]).len() > 0 {
            out.push((i + 1, string_of(&ls[i])));
        }
        i = i + 1;
    }
    assert(views(ls@).take(ls.len() as int) =~= views(ls@));
    out
}

/// The message for a line that is not valid JSON.
pub open spec fn line_error(n: nat, e: Seq<char>) -> Seq<char> {
    "line "@ + decimal(n) + ": invalid JSON: "@ + e
}

/// The documents of the numbered lines `ls`, parsed in order, or the
/// message for the first line that is not valid JSON: the parser's message,
/// after `line <n>: invalid JSON: ` when `numbered`.
pub open spec fn parse_lines(ls: Seq<(nat, Seq<char>)>, numbered: bool) -> Result<Seq<JsonValue>, Seq<char>>
    decreases ls.len(),
{
    if ls.len() == 0 {
        Ok(Seq::empty())
    } else {
        match parse_lines(ls.drop_last(), numbered) {
            Err(e) => Err(e),
            Ok(vals) => match json_document(ls.last().1) {
                Some(v) => Ok(vals.push(v)),
                None => Err(
                    if numbered {
                        line_error(ls.last().0, json_error(ls.last().1))
                    } else {
                        json_error(ls.last().1)
                    },
                ),
            },
        }
    }
}

/// The events of a body that parsed as one JSON document.
pub open spec fn document_outcome(doc: JsonValue) -> Result<Seq<JsonValue>, Seq<char>> {
    match doc {
        JsonValue::Array(items) => Ok(items@),
        JsonValue::Object(_) => Ok(seq![doc]),
        _ => Err("body must be a JSON object or an array of objects"@),
    }
}

/// The events of a request body, strictly: a blank body is refused; a body
/// that is one JSON document gives its events; otherwise every non-blank line
/// must be a JSON document (newline-delimited JSON), and there must be one.
pub open spec fn body_events(body: Seq<char>) -> Result<Seq<JsonValue>, Seq<char>> {
    let t = trim(body);
    if t.len() == 0 {
        Err("empty body"@)
    } else {
        match json_document(t) {
            Some(doc) => document_outcome(doc),
            None => {
                let ls = ndjson_lines_of(lines(t));
                match parse_lines(ls, true) {
                    Err(e) => Err(e),
                    Ok(vals) => if vals.len() == 0 {
                        Err("no events"@)
                    } else {
                        Ok(vals)
                    },
                }
            },
        }
    }
}

/// The rows of a `JSONEachRow` response: the document of each non-blank
/// line, or the parser's message for the first line that is not one.
pub open spec fn body_rows(body: Seq<char>) -> Result<Seq<JsonValue>, Seq<char>> {
    parse_lines(ndjson_lines_of(lines(body)), false)
}

/// The numbered lines as plain values.
pub open spec fn numbered_view(nl: Seq<(usize, String)>) -> Seq<(nat, Seq<char>)> {
    Seq::new(nl.len(), |i: int| (nl[i].0 as nat, nl[i].1@))
}

proof fn lemma_parse_error_sticks(ls: Seq<(nat, Seq<char>)>, numbered: bool, k: int)
    requires
        0 < k <= ls.len(),
        parse_lines(ls.take(k), numbered) is Err,
    ensures
        parse_lines(ls, numbered) == parse_lines(ls.take(k), numbered),
    decreases ls.len() - k,
{
    if k < ls.len() {
        let t = ls.take(k + 1);
        assert(t.drop_last() =~= ls.take(k));
        lemma_parse_error_sticks(ls, numbered, k + 1);
    } else {
        assert(ls.take(k) =~= ls);
    }
}

/// Parses each numbered line in order (see `parse_lines`).
fn parse_each(nl: &Vec<(usize, String)>, numbered: bool) -> (r: Result<Vec<JsonValue>, String>)
    ensures
        match parse_lines(numbered_view(nl@), numbered) {
            Ok(vals) => r matches Ok(v) && v@ == vals,
            Err(m) => r matches Err(x) && x@ == m,
        },
{
    let ghost ls = numbered_view(nl@);
    let mut out: Vec<JsonValue> = Vec::new();
    let mut i: usize = 0;
    assert(ls.take(0) =~= Seq::<(nat, Seq<char>)>::empty());
    while i < nl.len()
        invariant
            i <= nl.len(),
            ls == numbered_view(nl@),
            parse_lines(ls.take(i as int), numbered) == Ok::<Seq<JsonValue>, Seq<char>>(out@),
        decreases nl.len() - i,
    {
        let ghost t = ls.take(i + 1);
        assert(t.drop_last() =~= ls.take(i as int));
        assert(t.last() == (nl@[i as int].0 as nat, nl@[i as int].1@));
        match parse_json(nl[i].1.as_str()) {
            Ok(v) => {
                out.push(v);
            },
            Err(e) => {
                let mut c: Vec<char> = Vec::new();
                if numbered {
                    extend_str(&mut c, "line ");
                    extend_chars(&mut c, &decimal_chars(nl[i].0 as u64));
                    extend_str(&mut c, ": invalid JSON: ");
                }
                extend_str(&mut c, e.as_str());
                proof {
                    lemma_parse_error_sticks(ls, numbered, i + 1);
                }
                assert(c@ =~= parse_lines(t, numbered)->Err_0);
                return Err(string_of(&c));
            },
        }
        i = i + 1;
    }
    assert(ls.take(nl.len() as int) =~= ls);
    Ok(out)
}

/// Parses a request body into its events (see `body_events`).
pub fn parse_events(body: &str) -> (r: Result<Vec<JsonValue>, String>)
    ensures
        match body_events(body@) {
            Ok(vals) => r matches Ok(v) && v@ == vals,
            Err(m) => r matches Err(x) && x@ == m,
        },
{
    let t = match body_text(body) {
        Ok(t) => t,
        Err(e) => return Err(e),
    };
    match parse_json(t.as_str()) {
        Ok(doc) => document_events(doc),
        Err(_) => {
            let nl = ndjson_lines(t.as_str());
            assert(numbered_view(nl@) =~= ndjson_lines_of(lines(t@)));
            match parse_each(&nl, true) {
                Ok(vals) => if vals.len() == 0 {
                    Err(string_of(&chars_of("no events")))
                } else {
                    Ok(vals)
                },
                Err(e) => Err(e),
            }
        },
    }
}

/// Parses a `JSONEachRow` response body into its rows (see `body_rows`).
pub fn parse_rows(body: &str) -> (r: Result<Vec<JsonValue>, String>)
    ensures
        match body_rows(body@) {
            Ok(vals) => r matches Ok(v) && v@ == vals,
            Err(m) => r matches Err(x) && x@ == m,
        },
{
    let nl = ndjson_lines(body);
    assert(numbered_view(nl@) =~= ndjson_lines_of(lines(body@)));
    parse_each(&nl, false)
}

/// The violations reported for the invalid events among `values`, with
/// each event's index, in order.
pub open spec fn invalid_reports(values: Seq<JsonValue>) -> Seq<(nat, Seq<Seq<char>>)>
    decreases values.len(),
{
    if values.len() == 0 {
        Seq::empty()
    } else {
        let prev = invalid_reports(values.drop_last());
        let errs = violations(values.last());
        if errs.len() == 0 {
            prev
        } else {
            prev.push(((values.len() - 1) as nat, errs))
        }
    }
}

/// The reports of a batch are those of its invalid events, in order: each
/// names an event and gives that event's (non-empty) violations, and every
/// invalid event is named. So a batch has no report, and is accepted,
/// exactly when every one of its events satisfies the standard.
pub proof fn lemma_reports_are_the_invalid_events(values: Seq<JsonValue>)
    ensures
        ({
            let r = invalid_reports(values);
            &&& forall|k: int| 0 <= k < r.len() ==> (#[trigger] r[k]).0 < values.len()
                && r[k].1 == violations(values[r[k].0 as int]) && r[k].1.len() > 0
            &&& forall|k1: int, k2: int| 0 <= k1 < k2 < r.len() ==> r[k1].0 < r[k2].0
            &&& forall|i: int| 0 <= i < values.len() && violations(#[trigger] values[i]).len() > 0
                ==> exists|k: int| 0 <= k < r.len() && r[k].0 == i
            &&& (r.len() == 0 <==> forall|i: int| 0 <= i < values.len() ==> violations(#[trigger] values[i]).len() == 0)
        }),
    decreases values.len(),
{
    if values.len() > 0 {
        let init = values.drop_last();
        lemma_reports_are_the_invalid_events(init);
        let p = invalid_reports(init);
        let r = invalid_reports(values);
        let n = values.len() - 1;
        assert forall|k: int| 0 <= k < r.len() implies (#[trigger] r[k]).0 < values.len()
            && r[k].1 == violations(values[r[k].0 as int]) && r[k].1.len() > 0 by {
            if k < p.len() {
                assert(r[k] == p[k]);
                assert(values[p[k].0 as int] == init[p[k].0 as int]);
            }
        }
        assert forall|i: int| 0 <= i < values.len() && violations(#[trigger] values[i]).len() > 0
            implies exists|k: int| 0 <= k < r.len() && r[k].0 == i by {
            if i < n {
                assert(init[i] == values[i]);
                let k = choose|k: int| 0 <= k < p.len() && p[k].0 == i;
                assert(r[k] == p[k]);
            } else {
                assert(r[p.len() as int].0 == i);
            }
        }
        if r.len() == 0 {
            assert forall|i: int| 0 <= i < values.len() implies violations(#[trigger] values[i]).len() == 0 by {
                if violations(values[i]).len() > 0 {
                    let k = choose|k: int| 0 <= k < r.len() && r[k].0 == i;
                }
            }
        } else {
            let i = r[0].0 as int;
            assert(violations(values[i]).len() > 0);
        }
    }
}

/// At most the first `max_reported()` items of `s`.
pub open spec fn capped<A>(s: Seq<A>) -> Seq<A> {
    if s.len() <= max_reported() {
        s
    } else {
        s.take(max_reported() as int)
    }
}

/// What becomes of a batch.
#[derive(Clone, Debug)]
pub enum BatchVerdict {
    /// Nothing to ingest.
    NoEvents,
    /// More events than one request may carry.
    TooMany,
    /// At least one event violates the standard; the whole batch is refused.
    /// `details` holds the index and violations of the first invalid events.
    Rejected { rejected: usize, details: Vec<(usize, Vec<String>)>, truncated: bool },
    /// Every event is valid; all of them are queued.
    Accepted { count: usize },
}

/// Whether the reports in `details` are those of `expected`.
pub open spec fn reports_match(details: Seq<(usize, Vec<String>)>, expected: Seq<(nat, Seq<Seq<char>>)>) -> bool {
    &&& details.len() == expected.len()
    &&& forall|i: int| 0 <= i < details.len() ==> (#[trigger] details[i]).0 as nat == expected[i].0
        && texts(details[i].1@) == expected[i].1
}

/// Judges a batch against the standard: empty and oversized batches are
/// refused; otherwise any invalid event rejects the whole batch (with the
/// first 20 reports); else every event is accepted.
pub fn batch_verdict(values: &Vec<JsonValue>) -> (r: BatchVerdict)
    ensures
        values@.len() == 0 ==> r is NoEvents,
        values@.len() > max_batch() ==> r is TooMany,
        0 < values@.len() <= max_batch() ==> {
            let reports = invalid_reports(values@);
            if reports.len() == 0 {
                r matches BatchVerdict::Accepted { count } && count == values@.len()
            } else {
                r matches BatchVerdict::Rejected { rejected, details, truncated }
                    && rejected == values@.len() && reports_match(details@, capped(reports))
                    && truncated == (details@.len() >= max_reported())
            }
        },
{
    if values.len() == 0 {
        return BatchVerdict::NoEvents;
    }
    if values.len() > 1000 {
        return BatchVerdict::TooMany;
    }
    let mut details: Vec<(usize, Vec<String>)> = Vec::new();
    let mut i: usize = 0;
    assert(values@.take(0) =~= Seq::<JsonValue>::empty());
    while i < values.len()
        invariant
            i <= values.len(),
            reports_match(details@, capped(invalid_reports(values@.take(i as int)))),
        decreases values.len() - i,
    {
        let ghost before = invalid_reports(values@.take(i as int));
        assert(values@.take(i + 1).drop_last() =~= values@.take(i as int));
        assert(values@.take(i + 1).last() == values@[i as int]);
        let errs = validate_event(&values[i]);
        if errs.len() > 0 && details.len() < 20 {
            details.push((i, errs));
            assert(capped(invalid_reports(values@.take(i + 1))) =~= capped(before).push((i as nat, violations(values@[i as int]))));
        } else if errs.len() > 0 {
            assert(capped(invalid_reports(values@.take(i + 1))) =~= capped(before));
        }
        i = i + 1;
    }
    assert(values@.take(values.len() as int) =~= values@);
    if details.len() > 0 {
        let truncated = details.len() >= 20;
        BatchVerdict::Rejected { rejected: values.len(), details, truncated }
    } else {
        BatchVerdict::Accepted { count: values.len() }
    }
}

/// A key-minting request.
#[derive(Clone, Debug)]
pub struct MintReq {
    pub tenant: String,
    pub label: String,
}

/// The tenant and label a mint request names, both trimmed; none when the
/// tenant is blank.
pub fn mint_fields(req: &MintReq) -> (r: Option<(String, String)>)
    ensures
        trim(req.tenant@).len() == 0 ==> r is None,
        trim(req.tenant@).len() > 0 ==> (r matches Some((t, l)) && t@ == trim(req.tenant@) && l@ == trim(req.label@)),
{
    let t = trim_chars(&chars_of(req.tenant.as_str()));
    if t.len() == 0 {
        return None;
    }
    let l = trim_chars(&chars_of(req.label.as_str()));
    Some((string_of(&t), string_of(&l)))
}

} // verus!
