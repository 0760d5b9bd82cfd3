//! End-to-end scenarios of the long-poll loop, the retry loop and the
//! materialized shape, driven synchronously over scripted responses.

use electric_client::fetch::{backoff_step, compute_backoff_wait, RetryStep};
use electric_client::parser::Parser;
use electric_client::stream::{next_request, StepNext};
use electric_client::{
    ElectricError, ElectricResponse, JsonNumber, JsonValue, Message, Offset, ShapeData,
    StreamConfig, StreamState,
};

type Custom = fn(&String, &str) -> Option<JsonValue>;
type Float = fn(&str) -> JsonValue;
type Json = fn(&str) -> Result<JsonValue, String>;

const SCHEMA_ID_TEXT: &str =
    r#"{"id":{"type":"int4","dimensions":0},"text":{"type":"text","dimensions":0}}"#;

fn to_json(v: &serde_json::Value) -> JsonValue {
    match v {
        serde_json::Value::Null => JsonValue::Null,
        serde_json::Value::Bool(b) => JsonValue::Bool(*b),
        serde_json::Value::Number(n) => {
            if let Some(u) = n.as_u64() {
                JsonValue::Number(JsonNumber::PosInt(u))
            } else if let Some(i) = n.as_i64() {
                JsonValue::Number(JsonNumber::NegInt(i))
            } else {
                JsonValue::Number(JsonNumber::Float(n.to_string()))
            }
        },
        serde_json::Value::String(s) => JsonValue::String(s.clone()),
        serde_json::Value::Array(a) => JsonValue::Array(a.iter().map(to_json).collect()),
        serde_json::Value::Object(m) => {
            JsonValue::Object(m.iter().map(|(k, v)| (k.clone(), to_json(v))).collect())
        },
    }
}

fn no_custom(_: &String, _: &str) -> Option<JsonValue> {
    None
}

fn no_float(v: &str) -> JsonValue {
    JsonValue::String(v.to_owned())
}

fn json_of(v: &str) -> Result<JsonValue, String> {
    serde_json::from_str::<serde_json::Value>(v).map(|x| to_json(&x)).map_err(|e| e.to_string())
}

fn parser() -> Parser<Custom, Float, Json> {
    Parser { custom: no_custom as Custom, float: no_float as Float, json: json_of as Json }
}

fn headers(pairs: &[(&str, &str)]) -> Vec<(String, String)> {
    pairs.iter().map(|(k, v)| (k.to_string(), v.to_string())).collect()
}

fn response(status: u16, hs: &[(&str, &str)], body: &str) -> ElectricResponse {
    ElectricResponse { status, headers: headers(hs), body: body.to_string() }
}

fn shape_200(handle: &str, offset: &str, body: &str) -> ElectricResponse {
    response(
        200,
        &[
            ("electric-handle", handle),
            ("electric-offset", offset),
            ("electric-schema", SCHEMA_ID_TEXT),
            ("electric-up-to-date", "true"),
        ],
        body,
    )
}

fn config(table: &str, subscribe: bool) -> StreamConfig {
    StreamConfig {
        url: "http://electric.test/v1/shape".to_string(),
        table: table.to_string(),
        subscribe,
        ..Default::default()
    }
}

/// The scripted server: responses in order, then 503s.
struct Script {
    responses: Vec<ElectricResponse>,
    urls: Vec<String>,
    request_headers: Vec<Vec<(String, String)>>,
}

impl Script {
    fn new(responses: Vec<ElectricResponse>) -> Self {
        Script { responses, urls: Vec::new(), request_headers: Vec::new() }
    }

    fn serve(&mut self, url: &str, hs: &[(String, String)]) -> ElectricResponse {
        self.urls.push(url.to_string());
        self.request_headers.push(hs.to_vec());
        if self.responses.is_empty() {
            response(503, &[], "MockFetcher exhausted")
        } else {
            self.responses.remove(0)
        }
    }
}

/// One fetch through the retry loop (no waiting), as a backing-off fetcher does.
fn fetch_with_retries(
    script: &mut Script,
    url: &str,
    hs: &[(String, String)],
    max_retries: u32,
) -> (Result<ElectricResponse, ElectricError>, u32) {
    let mut attempt = 0u32;
    let mut calls = 0u32;
    let mut delay = 5u64;
    loop {
        calls += 1;
        let outcome = Ok(script.serve(url, hs));
        let (step, next) = backoff_step(outcome, &url.to_string(), attempt, max_retries, 0);
        attempt = next;
        match step {
            RetryStep::Finish(r) => return (r, calls),
            RetryStep::Retry { server_min_ms } => {
                let wait = compute_backoff_wait(delay, server_min_ms, 50);
                assert!(wait >= server_min_ms);
                delay = (delay * 2).min(50);
            },
        }
    }
}

/// Runs the long-poll loop until it stops; the published messages, the
/// final state, and the error it stopped with.
fn run_stream(
    c: &StreamConfig,
    script: &mut Script,
    backoff: Option<u32>,
) -> (Vec<Vec<Message>>, StreamState, Option<String>) {
    let p = parser();
    let mut st = StreamState::initial(c.offset, c.handle.clone());
    let mut batches = Vec::new();
    for _ in 0..20 {
        let req = match next_request(c, &st) {
            Ok(r) => r,
            Err(e) => return (batches, st, Some(e.to_string())),
        };
        let fetched = match backoff {
            Some(max) => fetch_with_retries(script, &req.url, &req.headers, max).0,
            None => Ok(script.serve(&req.url, &req.headers)),
        };
        let out = p.stream_step(c.subscribe, &mut st, fetched, 1_000);
        if !out.batch.is_empty() {
            batches.push(out.batch);
        }
        match out.next {
            StepNext::Continue => {},
            StepNext::Close => return (batches, st, None),
            StepNext::Fail(m) => return (batches, st, Some(m)),
        }
    }
    panic!("the loop did not stop");
}

fn all_messages(batches: &[Vec<Message>]) -> Vec<&Message> {
    batches.iter().flat_map(|b| b.iter()).collect()
}

fn cell<'a>(row: &'a [(String, JsonValue)], name: &str) -> Option<&'a JsonValue> {
    row.iter().find(|(k, _)| k == name).map(|(_, v)| v)
}

fn text(s: &str) -> JsonValue {
    JsonValue::String(s.to_string())
}

#[test]
fn basic_initial_sync() {
    let body = r#"[{"key":"1","value":{"id":"1","text":"hello"},"headers":{"operation":"insert"}},{"headers":{"control":"up-to-date"}}]"#;
    let mut script = Script::new(vec![shape_200("h1", "1_0", body)]);
    let (batches, _, err) = run_stream(&config("todos", false), &mut script, Some(0));
    assert!(err.is_none());
    let msgs = all_messages(&batches);
    assert_eq!(msgs.len(), 2);
    assert!(matches!(msgs[0], Message::Change(_)));
    assert!(msgs[1].is_up_to_date());
}

#[test]
fn parsed_int4_value() {
    let body = r#"[{"key":"5","value":{"id":"5","text":"world"},"headers":{"operation":"insert"}},{"headers":{"control":"up-to-date"}}]"#;
    let mut script = Script::new(vec![shape_200("h1", "1_0", body)]);
    let (batches, _, _) = run_stream(&config("t", false), &mut script, Some(0));
    let msgs = all_messages(&batches);
    if let Message::Change(c) = msgs[0] {
        assert_eq!(cell(&c.value, "id"), Some(&JsonValue::Number(JsonNumber::PosInt(5))));
        assert_eq!(cell(&c.value, "text"), Some(&text("world")));
    } else {
        panic!("Expected Change");
    }
}

#[test]
fn shape_handle_updated_after_first_response() {
    let body = r#"[{"headers":{"control":"up-to-date"}}]"#;
    let mut script = Script::new(vec![shape_200("my-handle-42", "10_0", body)]);
    let (_, st, _) = run_stream(&config("t", false), &mut script, Some(0));
    assert_eq!(st.handle.as_deref(), Some("my-handle-42"));
}

#[test]
fn offset_updated_after_first_response() {
    let body = r#"[{"headers":{"control":"up-to-date"}}]"#;
    let mut script = Script::new(vec![shape_200("h1", "42_7", body)]);
    let (_, st, _) = run_stream(&config("t", false), &mut script, Some(0));
    assert_eq!(st.offset, Offset::At { tx: 42, op: 7 });
}

#[test]
fn handles_409_and_retries_with_new_handle() {
    let resp_409 = response(
        409,
        &[("electric-handle", "new-handle-99")],
        r#"[{"headers":{"control":"must-refetch"}}]"#,
    );
    let resp_200 = shape_200(
        "new-handle-99",
        "1_0",
        r#"[{"key":"1","value":{"id":"1","text":"re-synced"},"headers":{"operation":"insert"}},{"headers":{"control":"up-to-date"}}]"#,
    );
    let mut script = Script::new(vec![resp_409, resp_200]);
    let (batches, st, err) = run_stream(&config("todos", false), &mut script, None);
    assert!(err.is_none());
    let msgs = all_messages(&batches);
    assert!(msgs.iter().any(|m| m.is_must_refetch()));
    assert!(msgs.iter().any(|m| matches!(m, Message::Change(_))));
    assert!(msgs.iter().any(|m| m.is_up_to_date()));
    assert_eq!(st.handle.as_deref(), Some("new-handle-99"));
    assert!(script.urls[1].contains("offset=-1"));
}

#[test]
fn custom_headers_forwarded() {
    let body = r#"[{"headers":{"control":"up-to-date"}}]"#;
    let mut script = Script::new(vec![shape_200("h1", "1_0", body)]);
    let c = StreamConfig { headers: headers(&[("x-auth-token", "secret-123")]), ..config("t", false) };
    let (_, _, err) = run_stream(&c, &mut script, Some(0));
    assert!(err.is_none());
    assert_eq!(script.request_headers[0], headers(&[("x-auth-token", "secret-123")]));
}

#[test]
fn is_loading_true_before_up_to_date() {
    let body = r#"[{"headers":{"control":"up-to-date"}}]"#;
    let c = config("t", false);
    let before = StreamState::initial(c.offset, c.handle.clone());
    assert!(before.is_loading);
    let mut script = Script::new(vec![shape_200("h1", "1_0", body)]);
    let (_, st, _) = run_stream(&c, &mut script, Some(0));
    assert!(st.is_up_to_date);
    assert!(!st.is_loading);
}

#[test]
fn where_clause_included_in_request() {
    let body = r#"[{"headers":{"control":"up-to-date"}}]"#;
    let mut script = Script::new(vec![shape_200("h1", "1_0", body)]);
    let c = StreamConfig { where_clause: Some("active = true".to_string()), ..config("users", false) };
    let (_, _, err) = run_stream(&c, &mut script, Some(0));
    assert!(err.is_none());
    assert!(script.urls[0].contains("where=active+%3D+true"));
}

#[test]
fn backoff_retries_on_500_then_succeeds() {
    let mut script = Script::new(vec![response(500, &[], "error"), response(200, &[], "[]")]);
    let (r, calls) = fetch_with_retries(&mut script, "http://electric.test/v1/shape", &[], 5);
    assert_eq!(r.unwrap().status, 200);
    assert_eq!(calls, 2);
}

#[test]
fn backoff_retries_on_429() {
    let limited = || response(429, &[("retry-after", "0")], "rate limited");
    let mut script = Script::new(vec![limited(), limited(), response(200, &[], "[]")]);
    let (r, calls) = fetch_with_retries(&mut script, "http://electric.test/v1/shape", &[], 5);
    assert_eq!(r.unwrap().status, 200);
    assert_eq!(calls, 3);
}

#[test]
fn backoff_does_not_retry_on_400() {
    let mut script = Script::new(vec![response(400, &[], "bad request")]);
    let (r, _) = fetch_with_retries(&mut script, "http://electric.test/v1/shape", &[], 5);
    match r.unwrap_err() {
        ElectricError::Fetch { status: 400, .. } => {},
        other => panic!("Expected Fetch(400), got {:?}", other),
    }
}

#[test]
fn backoff_does_not_retry_on_401() {
    let mut script = Script::new(vec![response(401, &[], "unauthorized")]);
    let (r, calls) = fetch_with_retries(&mut script, "http://electric.test/v1/shape", &[], 5);
    assert_eq!(calls, 1);
    assert!(matches!(r.unwrap_err(), ElectricError::Fetch { status: 401, .. }));
}

#[test]
fn backoff_exhausts_max_retries() {
    let mut script = Script::new(vec![
        response(500, &[], ""),
        response(500, &[], ""),
        response(500, &[], ""),
        response(500, &[], ""),
    ]);
    let (r, calls) = fetch_with_retries(&mut script, "http://electric.test/v1/shape", &[], 2);
    assert!(matches!(r.unwrap_err(), ElectricError::Fetch { status: 500, .. }));
    assert_eq!(calls, 3);
}

#[test]
fn backoff_returns_200_for_204_no_content() {
    let mut script = Script::new(vec![response(204, &[], "")]);
    let (r, _) = fetch_with_retries(&mut script, "http://electric.test/v1/shape", &[], 5);
    assert_eq!(r.unwrap().status, 204);
}

/// Feeds every batch of a stream run to a shape; the number of batches
/// that notified subscribers.
fn materialize(shape: &mut ShapeData, batches: &[Vec<Message>]) -> usize {
    let mut notified = 0;
    for b in batches {
        if shape.process_batch(b) {
            notified += 1;
        }
    }
    notified
}

#[test]
fn inserts_materialize_rows() {
    let body = r#"[{"key":"1","value":{"id":"1","text":"Buy milk"},"headers":{"operation":"insert"}},{"key":"2","value":{"id":"2","text":"Write tests"},"headers":{"operation":"insert"}},{"headers":{"control":"up-to-date"}}]"#;
    let mut script = Script::new(vec![shape_200("h1", "2_0", body)]);
    let (batches, _, _) = run_stream(&config("todos", false), &mut script, None);
    let mut shape = ShapeData::new();
    materialize(&mut shape, &batches);
    let rows = shape.rows();
    assert_eq!(rows.len(), 2);
    let texts: Vec<&JsonValue> = rows.iter().filter_map(|r| cell(r, "text")).collect();
    assert!(texts.contains(&&text("Buy milk")));
    assert!(texts.contains(&&text("Write tests")));
}

#[test]
fn update_merges_changed_columns() {
    let insert_body = r#"[{"key":"1","value":{"id":"1","text":"original","done":"false"},"headers":{"operation":"insert"}},{"headers":{"control":"up-to-date"}}]"#;
    let update_body = r#"[{"key":"1","value":{"id":"1","text":"updated"},"headers":{"operation":"update"}},{"headers":{"control":"up-to-date"}}]"#;
    let mut script = Script::new(vec![
        shape_200("h1", "1_0", insert_body),
        shape_200("h1", "2_0", update_body),
    ]);
    let (batches, _, err) = run_stream(&config("todos", true), &mut script, None);
    assert_eq!(err.as_deref(), Some("Unexpected HTTP status 503"));
    let mut shape = ShapeData::new();
    shape.process_batch(&batches[0]);
    assert_eq!(shape.rows().len(), 1);
    materialize(&mut shape, &batches[1..]);
    let rows = shape.rows();
    assert_eq!(cell(&rows[0], "text"), Some(&text("updated")));
    assert_eq!(cell(&rows[0], "done"), Some(&text("false")));
}

#[test]
fn delete_removes_row() {
    let body = r#"[{"key":"1","value":{"id":"1","text":"going away"},"headers":{"operation":"insert"}},{"key":"2","value":{"id":"2","text":"staying"},"headers":{"operation":"insert"}},{"key":"1","value":{"id":"1"},"headers":{"operation":"delete"}},{"headers":{"control":"up-to-date"}}]"#;
    let mut script = Script::new(vec![shape_200("h1", "3_0", body)]);
    let (batches, _, _) = run_stream(&config("todos", false), &mut script, None);
    let mut shape = ShapeData::new();
    materialize(&mut shape, &batches);
    let rows = shape.rows();
    assert_eq!(rows.len(), 1);
    assert_eq!(cell(&rows[0], "text"), Some(&text("staying")));
}

#[test]
fn must_refetch_clears_existing_rows() {
    let insert_body = r#"[{"key":"1","value":{"id":"1","text":"row 1"},"headers":{"operation":"insert"}},{"key":"2","value":{"id":"2","text":"row 2"},"headers":{"operation":"insert"}},{"headers":{"control":"up-to-date"}}]"#;
    let refetch = response(
        409,
        &[("electric-handle", "new-h")],
        r#"[{"headers":{"control":"must-refetch"}}]"#,
    );
    let reinsert_body = r#"[{"key":"3","value":{"id":"3","text":"fresh row"},"headers":{"operation":"insert"}},{"headers":{"control":"up-to-date"}}]"#;
    let mut script = Script::new(vec![
        shape_200("h1", "2_0", insert_body),
        refetch,
        shape_200("new-h", "1_0", reinsert_body),
    ]);
    let (batches, _, _) = run_stream(&config("todos", true), &mut script, Some(0));
    let mut shape = ShapeData::new();
    materialize(&mut shape, &batches);
    let rows = shape.rows();
    assert_eq!(rows.len(), 1);
    assert_eq!(cell(&rows[0], "text"), Some(&text("fresh row")));
}

#[test]
fn subscribe_callback_called_on_up_to_date() {
    let body = r#"[{"key":"1","value":{"id":"1","text":"A"},"headers":{"operation":"insert"}},{"headers":{"control":"up-to-date"}}]"#;
    let mut script = Script::new(vec![shape_200("h1", "1_0", body)]);
    let (batches, _, _) = run_stream(&config("t", false), &mut script, None);
    let mut shape = ShapeData::new();
    let notified = materialize(&mut shape, &batches);
    assert_eq!(notified, 1);
    assert_eq!(shape.rows().len(), 1);
}

#[test]
fn current_rows_empty_before_sync() {
    let shape = ShapeData::new();
    assert!(shape.rows().is_empty());
}
