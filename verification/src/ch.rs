//! Request shapes for the ClickHouse HTTP interface.

use vstd::prelude::*;
use vstd::utf8::encode_utf8;
use crate::query::pairs;
use crate::text::{chars_of, extend_str, join, join_strings, push_text, string_of, texts};

verus! {

/// Bytes that `urlencoding::encode` keeps as they are: ASCII letters and
/// digits, `-`, `.`, `_` and `~`.
pub open spec fn url_safe(b: u8) -> bool {
    (0x30 <= b <= 0x39) || (0x41 <= b <= 0x5A) || (0x61 <= b <= 0x7A) || b == 0x2D || b == 0x2E
        || b == 0x5F || b == 0x7E
}

/// The upper-case hexadecimal digit for `d < 16`.
pub open spec fn upper_hex(d: int) -> char {
    if d < 10 {
        ('0' as int + d) as char
    } else {
        ('A' as int + d - 10) as char
    }
}

/// Percent-encoding of the bytes `b`: safe bytes kept, every other byte as
/// `%XX` in upper-case hex.
pub open spec fn url_encoded(b: Seq<u8>) -> Seq<char>
    decreases b.len(),
{
    if b.len() == 0 {
        Seq::<char>::empty()
    } else {
        url_encoded(b.drop_last()) + if url_safe(b.last()) {
            seq![b.last() as char]
        } else {
            seq!['%', upper_hex((b.last() / 16) as int), upper_hex((b.last() % 16) as int)]
        }
    }
}

/// `urlencoding::encode`: the percent-encoding of the UTF-8 bytes of `s`.
#[verifier::external_body]
fn url_encode(s: &str) -> (r: String)
    ensures
        r@ == url_encoded(encode_utf8(s@)),
{
    urlencoding::encode(s).into_owned()
}

/// The URL of a statement scoped to database `db`.
pub open spec fn database_url_text(base: Seq<char>, db: Seq<char>) -> Seq<char> {
    base + "/?database="@ + url_encoded(encode_utf8(db))
}

/// The URL of a statement scoped to database `db`, so that unqualified DDL
/// lands in that database.
pub fn database_url(base: &str, db: &str) -> (r: String)
    ensures
        r@ == database_url_text(base@, db@),
{
    let mut c: Vec<char> = Vec::new();
    extend_str(&mut c, base);
    extend_str(&mut c, "/?database=");
    extend_str(&mut c, url_encode(db).as_str());
    string_of(&c)
}

/// The URL of an NDJSON insert into `db.table`: unknown fields skipped,
/// timestamps parsed best-effort, inserted asynchronously.
pub open spec fn insert_url_text(base: Seq<char>, db: Seq<char>, table: Seq<char>) -> Seq<char> {
    base + "/?database="@ + url_encoded(encode_utf8(db)) + "&query="@ + url_encoded(
        encode_utf8("INSERT INTO "@ + table + " FORMAT JSONEachRow"@),
    )
        + "&input_format_skip_unknown_fields=1&date_time_input_format=best_effort&async_insert=1&wait_for_async_insert=0"@
}

/// The URL of an NDJSON insert into `db.table` (see `insert_url_text`).
pub fn insert_url(base: &str, db: &str, table: &str) -> (r: String)
    ensures
        r@ == insert_url_text(base@, db@, table@),
{
    let mut q: Vec<char> = Vec::new();
    extend_str(&mut q, "INSERT INTO ");
    extend_str(&mut q, table);
    extend_str(&mut q, " FORMAT JSONEachRow");
    let query = string_of(&q);
    let mut c: Vec<char> = Vec::new();
    extend_str(&mut c, base);
    extend_str(&mut c, "/?database=");
    extend_str(&mut c, url_encode(db).as_str());
    extend_str(&mut c, "&query=");
    extend_str(&mut c, url_encode(query.as_str()).as_str());
    extend_str(&mut c, "&input_format_skip_unknown_fields=1&date_time_input_format=best_effort&async_insert=1&wait_for_async_insert=0");
    assert(c@ =~= insert_url_text(base@, db@, table@));
    string_of(&c)
}

/// The body of a SELECT whose rows come back one JSON object per line.
pub fn select_body(sql: &str) -> (r: String)
    ensures
        r@ == sql@ + " FORMAT JSONEachRow"@,
{
    let mut c: Vec<char> = Vec::new();
    extend_str(&mut c, sql);
    extend_str(&mut c, " FORMAT JSONEachRow");
    string_of(&c)
}

/// One bound query parameter as a URL argument: `param_<name>=<value>`,
/// both percent-encoded.
pub open spec fn param_arg(name: Seq<char>, value: Seq<char>) -> Seq<char> {
    "param_"@ + url_encoded(encode_utf8(name)) + "="@ + url_encoded(encode_utf8(value))
}

/// The URL that runs a statement with bound parameters: every parameter as
/// a `param_<name>` argument, joined with `&`.
pub open spec fn query_url_text(base: Seq<char>, params: Seq<(Seq<char>, Seq<char>)>) -> Seq<char> {
    base + "/?"@ + join(Seq::new(params.len(), |i: int| param_arg(params[i].0, params[i].1)), "&"@)
}

pub fn query_url(base: &str, params: &Vec<(String, String)>) -> (r: String)
    ensures
        r@ == query_url_text(base@, pairs(params@)),
{
    let mut args: Vec<String> = Vec::new();
    let mut i: usize = 0;
    while i < params.len()
        invariant
            i <= params.len(),
            texts(args@) =~= Seq::new(i as nat, |j: int| param_arg(params@[j].0@, params@[j].1@)),
        decreases params.len() - i,
    {
        let mut c: Vec<char> = Vec::new();
        extend_str(&mut c, "param_");
        extend_str(&mut c, url_encode(params[i].0.as_str()).as_str());
        extend_str(&mut c, "=");
        extend_str(&mut c, url_encode(params[i].1.as_str()).as_str());
        push_text(&mut args, string_of(&c));
        i = i + 1;
    }
    assert(Seq::new(params@.len(), |j: int| param_arg(params@[j].0@, params@[j].1@)) =~= Seq::new(
        pairs(params@).len(),
        |j: int| param_arg(pairs(params@)[j].0, pairs(params@)[j].1),
    ));
    let joined = join_strings(&args, "&");
    let mut c: Vec<char> = Vec::new();
    extend_str(&mut c, base);
    extend_str(&mut c, "/?");
    extend_str(&mut c, joined.as_str());
    string_of(&c)
}

} // verus!
