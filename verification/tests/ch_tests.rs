use ingest_api::ch::{database_url, insert_url, select_body};
use ingest_api::ch::query_url;

#[test]
fn database_url_encodes_the_name() {
    assert_eq!(database_url("http://clickhouse:8123", "acme"), "http://clickhouse:8123/?database=acme");
    assert_eq!(
        database_url("http://ch", "a b/é~_.-"),
        "http://ch/?database=a%20b%2F%C3%A9~_.-"
    );
}

#[test]
fn insert_url_carries_the_query_and_settings() {
    assert_eq!(
        insert_url("http://clickhouse:8123", "acme", "events"),
        "http://clickhouse:8123/?database=acme&query=INSERT%20INTO%20events%20FORMAT%20JSONEachRow\
         &input_format_skip_unknown_fields=1&date_time_input_format=best_effort&async_insert=1&wait_for_async_insert=0"
    );
}

#[test]
fn select_body_appends_the_format() {
    assert_eq!(select_body("SELECT 1"), "SELECT 1 FORMAT JSONEachRow");
}

#[test]
fn bound_parameters_go_in_the_url() {
    let params = vec![
        ("p0".to_string(), "2024-05-01 11:00:00.000".to_string()),
        ("p1".to_string(), "a&b=c".to_string()),
    ];
    assert_eq!(
        query_url("http://ch:8123", &params),
        "http://ch:8123/?param_p0=2024-05-01%2011%3A00%3A00.000&param_p1=a%26b%3Dc"
    );
    assert_eq!(query_url("http://ch:8123", &Vec::new()), "http://ch:8123/?");
}
