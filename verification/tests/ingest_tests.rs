use ingest_api::ingest::{
    batch_verdict, bearer_or_apikey, body_text, document_events, mint_fields, ndjson_lines, parse_events,
    parse_rows, BatchVerdict, MintReq,
};
use ingest_api::json::JsonValue;

fn event(i: usize) -> JsonValue {
    JsonValue::Object(vec![
        ("category".to_string(), JsonValue::String("c".to_string())),
        ("event_type".to_string(), JsonValue::String(format!("e{i}"))),
    ])
}

fn bad_event() -> JsonValue {
    JsonValue::Object(vec![("category".to_string(), JsonValue::String("c".to_string()))])
}

#[test]
fn api_key_sources() {
    assert_eq!(bearer_or_apikey(Some("k1"), Some("Bearer k2")), Some("k1".to_string()));
    assert_eq!(bearer_or_apikey(Some(""), Some("Bearer k2")), Some("k2".to_string()));
    assert_eq!(bearer_or_apikey(None, Some("Token k2")), None);
    assert_eq!(bearer_or_apikey(None, None), None);
}

#[test]
fn body_framing() {
    assert_eq!(body_text("  \n ").unwrap_err(), "empty body");
    assert_eq!(body_text(" [1] \n").unwrap(), "[1]");
    assert_eq!(document_events(JsonValue::Array(vec![event(0), event(1)])).unwrap().len(), 2);
    assert_eq!(document_events(event(0)).unwrap().len(), 1);
    assert_eq!(
        document_events(JsonValue::Null).unwrap_err(),
        "body must be a JSON object or an array of objects"
    );
}

#[test]
fn ndjson_line_numbers() {
    let lines = ndjson_lines("{\"a\":1}\r\n\n  \n{\"b\":2}\n");
    assert_eq!(lines, vec![(1, "{\"a\":1}".to_string()), (4, "{\"b\":2}".to_string())]);
    assert!(ndjson_lines("").is_empty());
}

fn serde_error(text: &str) -> String {
    serde_json::from_str::<serde_json::Value>(text).unwrap_err().to_string()
}

fn strs(v: &[JsonValue]) -> Vec<String> {
    v.iter().map(|e| format!("{e:?}")).collect()
}

#[test]
fn request_bodies() {
    assert_eq!(parse_events("  \n ").unwrap_err(), "empty body");
    let arr = parse_events(" [{\"category\":\"c\"}, {\"n\": 1.5}, {\"m\": -3}] ").unwrap();
    assert_eq!(
        strs(&arr),
        strs(&[
            JsonValue::Object(vec![("category".to_string(), JsonValue::String("c".to_string()))]),
            JsonValue::Object(vec![(
                "n".to_string(),
                JsonValue::Number(ingest_api::json::JsonNumber::Fractional("1.5".to_string()))
            )]),
            JsonValue::Object(vec![("m".to_string(), JsonValue::Number(ingest_api::json::JsonNumber::Negative(-3)))]),
        ])
    );
    assert_eq!(parse_events("{\"a\":1}").unwrap().len(), 1);
    assert_eq!(parse_events("[]").unwrap().len(), 0);
    assert_eq!(parse_events("\"text\"").unwrap_err(), "body must be a JSON object or an array of objects");
    assert_eq!(parse_events("{\"a\":1}\n\n{\"b\":2}\n").unwrap().len(), 2);
    assert_eq!(
        parse_events("{\"a\":1}\n\n{bad\n{worse").unwrap_err(),
        format!("line 3: invalid JSON: {}", serde_error("{bad"))
    );
}

#[test]
fn response_rows() {
    assert_eq!(parse_rows("").unwrap().len(), 0);
    assert_eq!(parse_rows("{\"a\":1}\n\n{\"a\":2}\n").unwrap().len(), 2);
    assert_eq!(parse_rows("{\"a\":1}\nnope\n").unwrap_err(), serde_error("nope"));
}

#[test]
fn batches() {
    assert!(matches!(batch_verdict(&vec![]), BatchVerdict::NoEvents));
    let many: Vec<JsonValue> = (0..1001).map(event).collect();
    assert!(matches!(batch_verdict(&many), BatchVerdict::TooMany));
    let max: Vec<JsonValue> = (0..1000).map(event).collect();
    assert!(matches!(batch_verdict(&max), BatchVerdict::Accepted { count: 1000 }));
    match batch_verdict(&vec![event(0), bad_event(), event(2)]) {
        BatchVerdict::Rejected { rejected, details, truncated } => {
            assert_eq!(rejected, 3);
            assert!(!truncated);
            assert_eq!(details.len(), 1);
            assert_eq!(details[0].0, 1);
            assert_eq!(details[0].1, vec!["missing required string field 'event_type'".to_string()]);
        }
        _ => panic!("expected a rejection"),
    }
    let bad: Vec<JsonValue> = (0..25).map(|_| bad_event()).collect();
    match batch_verdict(&bad) {
        BatchVerdict::Rejected { rejected, details, truncated } => {
            assert_eq!(rejected, 25);
            assert_eq!(details.len(), 20);
            assert_eq!(details[19].0, 19);
            assert!(truncated);
        }
        _ => panic!("expected a rejection"),
    }
}

#[test]
fn mint_requests() {
    let r = MintReq { tenant: "  acme ".to_string(), label: " prod ".to_string() };
    assert_eq!(mint_fields(&r), Some(("acme".to_string(), "prod".to_string())));
    let blank = MintReq { tenant: "   ".to_string(), label: String::new() };
    assert_eq!(mint_fields(&blank), None);
}
