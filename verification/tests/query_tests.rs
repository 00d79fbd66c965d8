use ingest_api::query::{
    build_filters, events_query, events_sql, get_param, interval_expr, is_missing, safe_ident,
    parse_metric, split_values, stats_from, stats_query, Params,
};
use ingest_api::time::Instant;
use ingest_api::query::{filters_resolvable, stats_resolvable};
use ingest_api::json::{JsonNumber, JsonValue};
use ingest_api::read::events_page;

fn now() -> Instant {
    Instant { secs: 1714564800, nanos: 0 }
}

fn q(pairs: &[(&str, &str)]) -> Vec<(String, String)> {
    pairs.iter().map(|(k, v)| (k.to_string(), v.to_string())).collect()
}

fn items(p: &Params) -> Vec<(String, String)> {
    p.items.clone()
}

#[test]
fn params_are_numbered() {
    let mut p = Params::new();
    assert_eq!(p.add("String", "a"), "{p0:String}");
    assert_eq!(p.add("UInt16", "200"), "{p1:UInt16}");
    assert_eq!(items(&p), vec![("p0".to_string(), "a".to_string()), ("p1".to_string(), "200".to_string())]);
}

#[test]
fn safe_identifiers() {
    assert!(safe_ident("acme_prod"));
    assert!(safe_ident("_x1"));
    assert!(!safe_ident("1abc"));
    assert!(!safe_ident(""));
    assert!(!safe_ident("a-b"));
    assert!(!safe_ident("a`b"));
    assert!(safe_ident(&"a".repeat(64)));
    assert!(!safe_ident(&"a".repeat(65)));
}

#[test]
fn missing_table_errors() {
    assert!(is_missing("Code: 60. DB::Exception: Table acme.events doesn't exist. (UNKNOWN_TABLE)"));
    assert!(is_missing("UNKNOWN_DATABASE"));
    assert!(!is_missing("clickhouse 500: timeout"));
}

#[test]
fn filter_values_split_and_trim() {
    assert_eq!(split_values(" a, b ,,c , "), vec!["a", "b", "c"]);
    assert!(split_values(" , ").is_empty());
}

#[test]
fn default_filters_cover_last_hour() {
    let mut p = Params::new();
    let wh = build_filters(&q(&[]), &mut p, now()).unwrap();
    assert_eq!(wh, vec!["ts >= {p0:DateTime64(3)}", "ts <= {p1:DateTime64(3)}"]);
    assert_eq!(
        items(&p),
        vec![
            ("p0".to_string(), "2024-05-01 11:00:00.000".to_string()),
            ("p1".to_string(), "2024-05-01 12:00:00.000".to_string()),
        ]
    );
}

#[test]
fn filters_with_values() {
    let mut p = Params::new();
    let wh = build_filters(
        &q(&[("from", "-1d"), ("severity", "warn, error"), ("http_status", "500,502"), ("q", "Boom"), ("route", " ")]),
        &mut p,
        now(),
    )
    .unwrap();
    assert_eq!(
        wh,
        vec![
            "ts >= {p0:DateTime64(3)}",
            "ts <= {p1:DateTime64(3)}",
            "severity IN ({p2:String}, {p3:String})",
            "http_status IN ({p4:UInt16}, {p5:UInt16})",
            "positionCaseInsensitive(message, {p6:String}) > 0",
        ]
    );
    let it = items(&p);
    assert_eq!(it[0].1, "2024-04-30 12:00:00.000");
    assert_eq!(it[2].1, "warn");
    assert_eq!(it[3].1, "error");
    assert_eq!(it[5].1, "502");
    assert_eq!(it[6].1, "Boom");
}

#[test]
fn filter_errors() {
    let mut p = Params::new();
    assert_eq!(
        build_filters(&q(&[("from", "yesterday")]), &mut p, now()).unwrap_err(),
        "invalid 'from' (use -1h / -7d / RFC3339)"
    );
    let mut p = Params::new();
    assert_eq!(
        build_filters(&q(&[("to", "x")]), &mut p, now()).unwrap_err(),
        "invalid 'to' (use 'now' default / -1h / RFC3339)"
    );
    let mut p = Params::new();
    assert_eq!(
        build_filters(&q(&[("http_status", "200,abc")]), &mut p, now()).unwrap_err(),
        "filter 'http_status' must be a number"
    );
}

#[test]
fn events_sql_single_and_cross() {
    let t = vec!["acme".to_string()];
    let wh = vec!["a = 1".to_string(), "b = 2".to_string()];
    assert_eq!(
        events_sql(&t, &wh, "DESC", 100, false),
        "SELECT *, toUnixTimestamp64Milli(ts) AS _ts_ms FROM `acme`.events WHERE a = 1 AND b = 2 ORDER BY ts DESC, event_id DESC LIMIT 100 FORMAT JSONEachRow"
    );
    let t2 = vec!["a".to_string(), "b".to_string()];
    assert_eq!(
        events_sql(&t2, &vec!["x".to_string()], "ASC", 5, true),
        "SELECT * FROM (SELECT *, 'a' AS _tenant, toUnixTimestamp64Milli(ts) AS _ts_ms FROM `a`.events WHERE x UNION ALL SELECT *, 'b' AS _tenant, toUnixTimestamp64Milli(ts) AS _ts_ms FROM `b`.events WHERE x) ORDER BY ts ASC, event_id ASC LIMIT 5 FORMAT JSONEachRow"
    );
}

#[test]
fn stats_from_single_and_cross() {
    let t = vec!["a".to_string(), "b".to_string()];
    assert_eq!(stats_from(&t, "w", false), "`a`.events WHERE w");
    assert_eq!(
        stats_from(&t, "w", true),
        "(SELECT *, 'a' AS _tenant FROM `a`.events WHERE w UNION ALL SELECT *, 'b' AS _tenant FROM `b`.events WHERE w)"
    );
    assert_eq!(stats_from(&Vec::new(), "w", true), "()");
    assert_eq!(
        events_sql(&Vec::new(), &vec!["x".to_string()], "ASC", 5, true),
        "SELECT * FROM () ORDER BY ts ASC, event_id ASC LIMIT 5 FORMAT JSONEachRow"
    );
}

#[test]
fn metrics() {
    assert_eq!(parse_metric(None).unwrap(), "count()");
    assert_eq!(parse_metric(Some(&"count".to_string())).unwrap(), "count()");
    assert_eq!(parse_metric(Some(&"avg:duration_ms".to_string())).unwrap(), "avg(duration_ms)");
    assert_eq!(
        parse_metric(Some(&"avg".to_string())).unwrap_err(),
        "metric must be 'count' or '<agg>:<field>'"
    );
    assert_eq!(parse_metric(Some(&"sum:message".to_string())).unwrap_err(), "metric field 'message' not allowed");
    assert_eq!(parse_metric(Some(&"p99:duration_ms".to_string())).unwrap_err(), "metric agg must be sum|avg|min|max");
}

#[test]
fn intervals() {
    assert_eq!(interval_expr("5m"), Some("toStartOfInterval(ts, INTERVAL 5 MINUTE)"));
    assert_eq!(interval_expr("1d"), Some("toStartOfInterval(ts, INTERVAL 1 DAY)"));
    assert_eq!(interval_expr("2h"), None);
}

#[test]
fn events_query_with_cursor_and_limit() {
    let t = vec!["acme".to_string()];
    let plan = events_query(&t, false, &q(&[("limit", "5000"), ("order", "asc"), ("cursor", "1714564800000:abc")]), now())
        .unwrap()
        .unwrap();
    assert_eq!(plan.limit, 1000);
    assert_eq!(
        plan.sql,
        "SELECT *, toUnixTimestamp64Milli(ts) AS _ts_ms FROM `acme`.events WHERE ts >= {p0:DateTime64(3)} AND ts <= {p1:DateTime64(3)} AND (toUnixTimestamp64Milli(ts) > {p2:Int64} OR (toUnixTimestamp64Milli(ts) = {p2:Int64} AND toString(event_id) > {p3:String})) ORDER BY ts ASC, event_id ASC LIMIT 1000 FORMAT JSONEachRow"
    );
    let it = items(&plan.params);
    assert_eq!(it[2], ("p2".to_string(), "1714564800000".to_string()));
    assert_eq!(it[3], ("p3".to_string(), "abc".to_string()));

    let plan = events_query(&t, false, &q(&[("limit", "0"), ("cursor", "x:abc")]), now()).unwrap().unwrap();
    assert_eq!(plan.limit, 1);
    assert_eq!(plan.params.items.len(), 2);
    let plan = events_query(&t, false, &q(&[("limit", "ten")]), now()).unwrap().unwrap();
    assert_eq!(plan.limit, 100);
    assert!(events_query(&vec![], false, &q(&[]), now()).unwrap().is_none());
}

#[test]
fn stats_queries() {
    let t = vec!["acme".to_string()];
    let plan = stats_query(&t, false, &q(&[("group_by", "route"), ("metric", "max:duration_ms"), ("interval", "1h")]), now())
        .unwrap()
        .unwrap();
    assert_eq!(
        plan.sql,
        "SELECT route AS group_value, toStartOfInterval(ts, INTERVAL 1 HOUR) AS bucket, max(duration_ms) AS value FROM `acme`.events WHERE ts >= {p0:DateTime64(3)} AND ts <= {p1:DateTime64(3)} GROUP BY group_value, bucket ORDER BY bucket ASC, value DESC LIMIT 5000 FORMAT JSONEachRow"
    );
    let plan = stats_query(&t, true, &q(&[("group_by", "tenant")]), now()).unwrap().unwrap();
    assert!(plan.sql.starts_with("SELECT _tenant AS group_value, count() AS value FROM (SELECT *, 'acme' AS _tenant FROM `acme`.events WHERE "));
    assert!(plan.sql.ends_with(") GROUP BY group_value ORDER BY value DESC LIMIT 5000 FORMAT JSONEachRow"));
    let err = |pairs: &[(&str, &str)], cross: bool| stats_query(&t, cross, &q(pairs), now()).err().unwrap();
    assert_eq!(err(&[], false), "group_by is required");
    assert_eq!(err(&[("group_by", "tenant")], false), "group_by=tenant requires the 'all' tenant selection");
    assert_eq!(err(&[("group_by", "message")], false), "invalid group_by");
    assert_eq!(err(&[("group_by", "route"), ("interval", "2m")], false), "invalid interval (1m|5m|15m|30m|1h|6h|12h|1d)");
    assert_eq!(err(&[("group_by", "route"), ("metric", "sum")], false), "metric must be 'count' or '<agg>:<field>'");
    assert!(stats_query(&vec![], false, &q(&[]), now()).unwrap().is_none());
}

#[test]
fn first_param_wins() {
    let pairs = q(&[("a", "1"), ("a", "2")]);
    assert_eq!(get_param(&pairs, "a").map(|s| s.as_str()), Some("1"));
    assert!(get_param(&pairs, "b").is_none());
}

#[test]
fn time_parameters_are_checked_before_use() {
    assert!(filters_resolvable(&q(&[]), now()));
    assert!(filters_resolvable(&q(&[("from", "-7d"), ("to", "now")]), now()));
    assert!(filters_resolvable(&q(&[("from", "garbage")]), now()));
    assert!(!filters_resolvable(&q(&[("from", "-9999999999999999d")]), now()));
    assert!(!filters_resolvable(&q(&[("to", "-300000000d")]), now()));
    assert!(!filters_resolvable(&q(&[]), Instant { secs: 0, nanos: 1_500_000_000 }));
    // An invalid `from` ends the request before `to` is read.
    let bad_from = q(&[("from", "soon"), ("to", "-300000000d")]);
    assert!(filters_resolvable(&bad_from, now()));
    assert_eq!(
        events_query(&vec!["acme".to_string()], false, &bad_from, now()).err().unwrap(),
        "invalid 'from' (use -1h / -7d / RFC3339)"
    );
    assert!(!filters_resolvable(&q(&[("from", "-1h"), ("to", "-300000000d")]), now()));
}

#[test]
fn stats_checks_come_before_the_time_range() {
    let t = vec!["acme".to_string()];
    let far = q(&[("to", "-300000000d"), ("group_by", "nope")]);
    assert!(stats_resolvable(&far, false, now()));
    assert_eq!(stats_query(&t, false, &far, now()).err().unwrap(), "invalid group_by");
    let far_metric = q(&[("to", "-300000000d"), ("group_by", "route"), ("metric", "p99:duration_ms")]);
    assert!(stats_resolvable(&far_metric, false, now()));
    assert_eq!(stats_query(&t, false, &far_metric, now()).err().unwrap(), "metric agg must be sum|avg|min|max");
    assert!(!stats_resolvable(&q(&[("to", "-300000000d"), ("group_by", "route")]), false, now()));
}

#[test]
fn cursor_from_a_full_page_resumes_after_its_last_row() {
    let id = "550e8400-e29b-41d4-a716-446655440000";
    let row = JsonValue::Object(vec![
        ("event_id".to_string(), JsonValue::String(id.to_string())),
        ("_ts_ms".to_string(), JsonValue::Number(JsonNumber::Unsigned(1714564799123))),
    ]);
    let (_, cursor) = events_page(vec![row], 1);
    let cursor = cursor.unwrap();
    let t = vec!["acme".to_string()];
    let plan = events_query(&t, false, &q(&[("limit", "1"), ("cursor", &cursor)]), now()).unwrap().unwrap();
    let it = items(&plan.params);
    assert_eq!(it[2], ("p2".to_string(), "1714564799123".to_string()));
    assert_eq!(it[3], ("p3".to_string(), id.to_string()));
    assert!(plan.sql.contains("(toUnixTimestamp64Milli(ts) < {p2:Int64} OR (toUnixTimestamp64Milli(ts) = {p2:Int64} AND toString(event_id) < {p3:String}))"));
}

#[test]
fn filter_values_never_reach_the_sql_text() {
    let run = |pairs: &[(&str, &str)]| {
        let mut p = Params::new();
        let wh = build_filters(&q(pairs), &mut p, now()).unwrap();
        (wh, items(&p))
    };
    let (wh1, p1) = run(&[("route", "/a,/b"), ("http_status", "200"), ("q", "boom"), ("from", "-1d")]);
    let (wh2, p2) = run(&[("route", "x' OR 1=1 --, `y`"), ("http_status", "500"), ("q", "'; DROP TABLE x"), ("from", "-2h")]);
    assert_eq!(wh1, wh2);
    assert_eq!(p1.len(), p2.len());
    assert_eq!(p2[2].1, "x' OR 1=1 --");
    assert_eq!(p2[5].1, "'; DROP TABLE x");
}
