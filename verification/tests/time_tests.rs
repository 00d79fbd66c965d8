use ingest_api::time::{parse_time, Instant};
use ingest_api::time::{is_clock_instant, time_param_resolvable};

const NOW_SECS: i64 = 1714564800; // 2024-05-01 12:00:00 UTC

fn now() -> Instant {
    Instant { secs: NOW_SECS, nanos: 123_000_000 }
}

fn at(s: &str) -> Option<(i64, u32)> {
    parse_time(s, now()).map(|t| (t.secs, t.nanos))
}

#[test]
fn now_in_any_case() {
    assert_eq!(at("now"), Some((NOW_SECS, 123_000_000)));
    assert_eq!(at(" NoW "), Some((NOW_SECS, 123_000_000)));
}

#[test]
fn relative_times() {
    assert_eq!(at("-15m"), Some((NOW_SECS - 900, 123_000_000)));
    assert_eq!(at("-1h"), Some((NOW_SECS - 3600, 123_000_000)));
    assert_eq!(at("-7d"), Some((1713960000, 123_000_000)));
    assert_eq!(at("-30s"), Some((NOW_SECS - 30, 123_000_000)));
    assert_eq!(at("-0s"), Some((NOW_SECS, 123_000_000)));
    assert!(at("-5").is_none());
    assert!(at("-h").is_none());
    assert!(at("-5w").is_none());
    assert!(at("-99999999999999999999d").is_none());
}

#[test]
fn absolute_times() {
    assert_eq!(at("2024-01-02T03:04:05Z"), Some((1704164645, 0)));
    assert_eq!(at("2024-01-02T03:04:05.678+01:00"), Some((1704161045, 678_000_000)));
    assert_eq!(at("2024-01-02 03:04:05"), Some((1704164645, 0)));
    assert_eq!(at("2024-01-02 03:04:05.9"), Some((1704164645, 900_000_000)));
    assert_eq!(at("2024-01-02T03:04:05"), Some((1704164645, 0)));
    assert!(at("2024-01-02").is_none());
    assert!(at("soon").is_none());
}

#[test]
fn clock_and_parameter_checks() {
    assert!(is_clock_instant(now()));
    assert!(!is_clock_instant(Instant { secs: NOW_SECS, nanos: 1_000_000_000 }));
    assert!(!is_clock_instant(Instant { secs: -8334601315200, nanos: 0 }));
    assert!(is_clock_instant(Instant { secs: -8334601315200 + 3600, nanos: 0 }));
    assert!(time_param_resolvable("-1h", now()));
    assert!(time_param_resolvable("2024-01-02", now()));
    assert!(time_param_resolvable("-99999999999999999999d", now()));
    assert!(time_param_resolvable("-9223372036854775s", now()) == false);
    assert!(!time_param_resolvable("-9223372036854776s", now()));
    assert!(time_param_resolvable("-106751991167d", now()) == false);
    assert!(time_param_resolvable("-1000000d", now()));
}
