//! Points in time: parsing the accepted datetime forms and printing them the
//! way ClickHouse `DateTime64(3)` parameters are written.

use vstd::prelude::*;
use crate::text::{
    all_digits, ascii_lower, chars_eq_str, chars_of, digits_value, eq_ignore_ascii_case_chars,
    is_digit, parse_unsigned, parse_unsigned_chars, string_of, sub_chars, trim, trim_chars,
};

verus! {

/// A UTC instant: seconds since the Unix epoch and the nanoseconds within
/// that second (`1_000_000_000` and more only during a leap second).
#[derive(Clone, Copy, Debug)]
pub struct Instant {
    pub secs: i64,
    pub nanos: u32,
}

/// Seconds of `-262143-01-01T00:00:00Z`, the earliest instant chrono holds.
pub open spec fn min_secs() -> int {
    -8334601315200
}

/// Seconds of `+262142-12-31T23:59:59Z`, the latest second chrono holds.
pub open spec fn max_secs() -> int {
    8210266876799
}

/// Whether chrono can hold the instant `(secs, nanos)` as a `DateTime<Utc>`.
pub open spec fn representable(secs: int, nanos: int) -> bool {
    &&& min_secs() <= secs <= max_secs()
    &&& 0 <= nanos
    &&& (nanos < 1_000_000_000 || (nanos < 2_000_000_000 && secs % 60 == 59))
}

/// The instant that `DateTime::parse_from_rfc3339` reads from `s`, as
/// `(timestamp, subsec_nanos)`, or `None` when it rejects `s`.
pub uninterp spec fn rfc3339_instant(s: Seq<char>) -> Option<(i64, u32)>;

/// The instant that `NaiveDateTime::parse_from_str(s, fmt)` reads, taken as
/// UTC, or `None` when it rejects `s`.
pub uninterp spec fn naive_instant(s: Seq<char>, fmt: Seq<char>) -> Option<(i64, u32)>;

/// The text that chrono's `format("%Y-%m-%d %H:%M:%S%.3f")` gives for an instant.
pub uninterp spec fn utc_text(secs: i64, nanos: u32) -> Seq<char>;

/// `chrono::DateTime::parse_from_rfc3339`: the instant it reads from `s`. A
/// `DateTime` always lies in chrono's range, so a result is representable.
#[verifier::external_body]
pub(crate) fn parse_rfc3339(s: &str) -> (r: Option<Instant>)
    ensures
        r is Some == rfc3339_instant(s@) is Some,
        r matches Some(t) ==> rfc3339_instant(s@) == Some((t.secs, t.nanos)) && representable(
            t.secs as int,
            t.nanos as int,
        ),
{
    match chrono::DateTime::parse_from_rfc3339(s) {
        Ok(dt) => Some(Instant { secs: dt.timestamp(), nanos: dt.timestamp_subsec_nanos() }),
        Err(_) => None,
    }
}

/// `chrono::NaiveDateTime::parse_from_str(s, fmt)`, read as UTC. A
/// `NaiveDateTime` always lies in chrono's range.
#[verifier::external_body]
pub(crate) fn parse_naive(s: &str, fmt: &str) -> (r: Option<Instant>)
    ensures
        r is Some == naive_instant(s@, fmt@) is Some,
        r matches Some(t) ==> naive_instant(s@, fmt@) == Some((t.secs, t.nanos)) && representable(
            t.secs as int,
            t.nanos as int,
        ),
{
    match chrono::NaiveDateTime::parse_from_str(s, fmt) {
        Ok(ndt) => {
            let dt = ndt.and_utc();
            Some(Instant { secs: dt.timestamp(), nanos: dt.timestamp_subsec_nanos() })
        },
        Err(_) => None,
    }
}

/// `DateTime::<Utc>::format("%Y-%m-%d %H:%M:%S%.3f")` of the instant `t`.
#[verifier::external_body]
pub(crate) fn format_utc(t: Instant) -> (r: String)
    requires
        representable(t.secs as int, t.nanos as int),
    ensures
        r@ == utc_text(t.secs, t.nanos),
{
    chrono::DateTime::from_timestamp(t.secs, t.nanos).unwrap().format("%Y-%m-%d %H:%M:%S%.3f").to_string()
}

/// The naive datetime layouts accepted, in the order they are tried.
pub open spec fn naive_formats() -> Seq<Seq<char>> {
    seq!["%Y-%m-%d %H:%M:%S%.f"@, "%Y-%m-%d %H:%M:%S"@, "%Y-%m-%dT%H:%M:%S%.f"@, "%Y-%m-%dT%H:%M:%S"@]
}

pub fn naive_format_list() -> (r: Vec<&'static str>)
    ensures
        r@.len() == naive_formats().len(),
        forall|i: int| 0 <= i < r@.len() ==> #[trigger] r@[i]@ == naive_formats()[i],
{
    let r = vec!["%Y-%m-%d %H:%M:%S%.f", "%Y-%m-%d %H:%M:%S", "%Y-%m-%dT%H:%M:%S%.f", "%Y-%m-%dT%H:%M:%S"];
    assert(r@[0]@ == naive_formats()[0]);
    assert(r@[1]@ == naive_formats()[1]);
    assert(r@[2]@ == naive_formats()[2]);
    assert(r@[3]@ == naive_formats()[3]);
    r
}

/// The first accepted naive layout that reads `t`, from index `i` on.
pub open spec fn naive_from(t: Seq<char>, i: int) -> Option<(i64, u32)>
    decreases naive_formats().len() - i,
{
    if i < 0 || i >= naive_formats().len() {
        None
    } else {
        match naive_instant(t, naive_formats()[i]) {
            Some(x) => Some(x),
            None => naive_from(t, i + 1),
        }
    }
}

/// Whether `t` is `now` in any ASCII case.
pub open spec fn is_now(t: Seq<char>) -> bool {
    t.len() == 3 && forall|i: int| 0 <= i < 3 ==> ascii_lower(#[trigger] t[i]) == "now"@[i] as u32
}

/// Seconds in one of the relative-time units `s`, `m`, `h`, `d`.
pub open spec fn unit_secs(unit: Seq<char>) -> Option<int> {
    if unit == "s"@ {
        Some(1)
    } else if unit == "m"@ {
        Some(60)
    } else if unit == "h"@ {
        Some(3600)
    } else if unit == "d"@ {
        Some(86400)
    } else {
        None
    }
}

/// Whether `k` is the index of the first non-digit of `s`.
pub open spec fn first_non_digit(s: Seq<char>, k: int) -> bool {
    0 <= k < s.len() && !is_digit(s[k]) && all_digits(s.take(k))
}

/// The offset in seconds that a relative time `<digits><unit>` (the text
/// after the leading `-`) stands for, or `None` when it is not of that form or
/// its number does not fit an `i64`.
pub open spec fn relative_secs(rest: Seq<char>) -> Option<int> {
    if all_digits(rest) {
        None
    } else {
        let k = choose|k: int| first_non_digit(rest, k);
        let num = rest.take(k);
        let unit = rest.skip(k);
        match (parse_unsigned(num, i64::MAX as nat), unit_secs(unit)) {
            (Some(n), Some(u)) => Some(n * u),
            _ => None,
        }
    }
}

/// The instant a time parameter denotes relative to `now`: `now` (any
/// case), `-<n><unit>` for `n` units before `now`, an RFC 3339 datetime, or a
/// naive datetime in one of the accepted layouts (taken as UTC).
pub open spec fn time_value(s: Seq<char>, now: Instant) -> Option<(int, int)> {
    let t = trim(s);
    if is_now(t) {
        Some((now.secs as int, now.nanos as int))
    } else if t.len() > 0 && t[0] == '-' {
        match relative_secs(t.drop_first()) {
            Some(d) => Some((now.secs - d, now.nanos as int)),
            None => None,
        }
    } else {
        match rfc3339_instant(t) {
            Some(x) => Some((x.0 as int, x.1 as int)),
            None => match naive_from(t, 0) {
                Some(x) => Some((x.0 as int, x.1 as int)),
                None => None,
            },
        }
    }
}

/// Whether `now` is an instant as the system clock gives it: outside a leap
/// second, and an hour or more after chrono's earliest instant (so that the
/// default one-hour window can be taken before it).
pub open spec fn clock_instant(now: Instant) -> bool {
    &&& representable(now.secs as int, now.nanos as int)
    &&& now.nanos < 1_000_000_000
    &&& now.secs - 3600 >= min_secs()
}

/// Whether a time parameter can be resolved against `now` without chrono
/// panicking: a relative offset must fit a `TimeDelta` (at most `i64::MAX /
/// 1000` seconds) and must not reach before chrono's earliest instant.
pub open spec fn time_param_ok(s: Seq<char>, now: Instant) -> bool {
    let t = trim(s);
    !is_now(t) && t.len() > 0 && t[0] == '-' ==> match relative_secs(t.drop_first()) {
        Some(d) => d <= 9223372036854775 && now.secs - d >= min_secs(),
        None => true,
    }
}

/// Index of the first non-digit of `v` (or `v.len()`).
fn skip_digits(v: &Vec<char>) -> (k: usize)
    ensures
        k <= v.len(),
        all_digits(v@.take(k as int)),
        k < v.len() ==> !is_digit(v@[k as int]),
{
    let mut k: usize = 0;
    while k < v.len() && crate::text::char_is_digit(v[k])
        invariant
            k <= v.len(),
            all_digits(v@.take(k as int)),
        decreases v.len() - k,
    {
        assert(v@.take(k + 1) =~= v@.take(k as int).push(v@[k as int]));
        k = k + 1;
    }
    k
}

proof fn lemma_first_non_digit_unique(s: Seq<char>, k: int, m: int)
    requires
        first_non_digit(s, k),
        first_non_digit(s, m),
    ensures
        k == m,
{
    if k < m {
        assert(is_digit(s.take(m)[k]));
    } else if m < k {
        assert(is_digit(s.take(k)[m]));
    }
}

/// The offset in seconds of a relative time (the text after `-`).
fn relative_offset(rest: &Vec<char>) -> (r: Option<i128>)
    ensures
        r matches Some(d) ==> relative_secs(rest@) == Some(d as int),
        r is None ==> relative_secs(rest@) is None,
{
    let k = skip_digits(rest);
    if k == rest.len() {
        assert(rest@.take(k as int) =~= rest@);
        return None;
    }
    assert(first_non_digit(rest@, k as int));
    assert(!all_digits(rest@));
    proof {
        let m = choose|m: int| first_non_digit(rest@, m);
        lemma_first_non_digit_unique(rest@, k as int, m);
    }
    let num = sub_chars(rest, 0, k);
    let unit = sub_chars(rest, k, rest.len());
    assert(num@ =~= rest@.take(k as int));
    assert(unit@ =~= rest@.skip(k as int));
    let n = match parse_unsigned_chars(&num, 9223372036854775807) {
        Some(n) => n,
        None => return None,
    };
    let u: i128 = if chars_eq_str(&unit, "s") {
        1
    } else if chars_eq_str(&unit, "m") {
        60
    } else if chars_eq_str(&unit, "h") {
        3600
    } else if chars_eq_str(&unit, "d") {
        86400
    } else {
        return None;
    };
    Some(n as i128 * u)
}

/// Resolves a time parameter against `now` (see `time_value`).
pub fn parse_time(s: &str, now: Instant) -> (r: Option<Instant>)
    requires
        clock_instant(now),
        time_param_ok(s@, now),
    ensures
        r is Some == time_value(s@, now) is Some,
        r matches Some(t) ==> time_value(s@, now) == Some((t.secs as int, t.nanos as int))
            && representable(t.secs as int, t.nanos as int),
{
    let v = chars_of(s);
    let t = trim_chars(&v);
    let word = chars_of("now");
    proof {
        reveal_strlit("now");
    }
    if eq_ignore_ascii_case_chars(&t, &word) {
        return Some(now);
    }
    if t.len() > 0 && t[0] == '-' {
        let rest = sub_chars(&t, 1, t.len());
        assert(rest@ =~= t@.drop_first());
        return match relative_offset(&rest) {
            Some(d) => Some(Instant { secs: (now.secs as i128 - d) as i64, nanos: now.nanos }),
            None => None,
        };
    }
    let text = string_of(&t);
    if let Some(x) = parse_rfc3339(text.as_str()) {
        return Some(x);
    }
    let formats = naive_format_list();
    let mut i: usize = 0;
    while i < formats.len()
        invariant
            formats@.len() == naive_formats().len(),
            forall|j: int| 0 <= j < formats@.len() ==> #[trigger] formats@[j]@ == naive_formats()[j],
            i <= formats.len(),
            text@ == trim(s@),
            !is_now(text@),
            !(text@.len() > 0 && text@[0] == '-'),
            rfc3339_instant(text@) is None,
            naive_from(text@, 0) == naive_from(text@, i as int),
        decreases formats.len() - i,
    {
        if let Some(x) = parse_naive(text.as_str(), formats[i]) {
            return Some(x);
        }
        i = i + 1;
    }
    None
}

/// Whether `now` can serve as the current time (see `clock_instant`).
pub fn is_clock_instant(now: Instant) -> (r: bool)
    ensures
        r == clock_instant(now),
{
    -8334601315200 <= now.secs && now.secs <= 8210266876799 && now.nanos < 1_000_000_000 && now.secs
        >= -8334601315200 + 3600
}

/// Whether the time parameter `s` can be resolved against `now` (see
/// `time_param_ok`).
pub fn time_param_resolvable(s: &str, now: Instant) -> (r: bool)
    ensures
        r == time_param_ok(s@, now),
{
    let v = chars_of(s);
    let t = trim_chars(&v);
    let word = chars_of("now");
    proof {
        reveal_strlit("now");
    }
    if eq_ignore_ascii_case_chars(&t, &word) {
        return true;
    }
    if t.len() > 0 && t[0] == '-' {
        let rest = sub_chars(&t, 1, t.len());
        assert(rest@ =~= t@.drop_first());
        return match relative_offset(&rest) {
            Some(d) => d <= 9223372036854775 && now.secs as i128 - d >= -8334601315200,
            None => true,
        };
    }
    true
}

} // verus!
