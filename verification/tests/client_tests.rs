use electric_client::parser::Parser;
use electric_client::stream::{build_url, next_request, query_pairs, validate_options, StepNext};
use electric_client::{
    ElectricError, ElectricResponse, JsonNumber, JsonValue, Message, Offset, Replica, StreamConfig,
    StreamState,
};

type Custom = fn(&String, &str) -> Option<JsonValue>;
type Float = fn(&str) -> JsonValue;
type Json = fn(&str) -> Result<JsonValue, String>;

fn to_json(v: &serde_json::Value) -> JsonValue {
    match v {
        serde_json::Value::Null => JsonValue::Null,
        serde_json::Value::Bool(b) => JsonValue::Bool(*b),
        serde_json::Value::Number(n) => {
            if let Some(u) = n.as_u64() {
                JsonValue::Number(JsonNumber::PosInt(u))
            } else if let Some(i) = n.as_i64() {
                JsonValue::Number(JsonNumber::NegInt(i))
            } else {
                JsonValue::Number(JsonNumber::Float(n.to_string()))
            }
        },
        serde_json::Value::String(s) => JsonValue::String(s.clone()),
        serde_json::Value::Array(a) => JsonValue::Array(a.iter().map(to_json).collect()),
        serde_json::Value::Object(m) => {
            JsonValue::Object(m.iter().map(|(k, v)| (k.clone(), to_json(v))).collect())
        },
    }
}

fn no_custom(_: &String, _: &str) -> Option<JsonValue> {
    None
}

fn no_float(v: &str) -> JsonValue {
    JsonValue::String(v.to_owned())
}

fn json_of(v: &str) -> Result<JsonValue, String> {
    serde_json::from_str::<serde_json::Value>(v).map(|x| to_json(&x)).map_err(|e| e.to_string())
}

fn hooks() -> Parser<Custom, Float, Json> {
    Parser { custom: no_custom as Custom, float: no_float as Float, json: json_of as Json }
}

fn config(url: &str, table: &str) -> StreamConfig {
    StreamConfig { url: url.to_string(), table: table.to_string(), ..Default::default() }
}

fn headers(pairs: &[(&str, &str)]) -> Vec<(String, String)> {
    pairs.iter().map(|(k, v)| (k.to_string(), v.to_string())).collect()
}

const SCHEMA_ID_TEXT: &str = r#"{"id":{"type":"int4","not_null":true},"text":{"type":"text"}}"#;

#[test]
fn missing_url_returns_error() {
    let result = validate_options(&StreamConfig { url: "".to_string(), table: "t".to_string(), ..Default::default() });
    assert!(matches!(result.err().unwrap(), ElectricError::MissingShapeUrl));
}

#[test]
fn missing_table_returns_error() {
    let result = validate_options(&StreamConfig {
        url: "http://localhost:3000/v1/shape".to_string(),
        table: "".to_string(),
        ..Default::default()
    });
    assert!(matches!(result.err().unwrap(), ElectricError::MissingShapeTable));
}

#[test]
fn missing_handle_with_non_initial_offset_returns_error() {
    let result = validate_options(&StreamConfig {
        url: "http://localhost:3000/v1/shape".to_string(),
        table: "todos".to_string(),
        offset: Offset::At { tx: 100, op: 0 },
        handle: None,
        ..Default::default()
    });
    assert!(matches!(result.err().unwrap(), ElectricError::MissingShapeHandle));
}

#[test]
fn reserved_param_names_rejected() {
    let params = vec![("offset".to_string(), "100".to_string())];
    let result = validate_options(&StreamConfig {
        url: "http://localhost:3000/v1/shape".to_string(),
        table: "t".to_string(),
        params,
        ..Default::default()
    });
    assert!(matches!(result.err().unwrap(), ElectricError::ReservedParam(_)));
}

#[test]
fn valid_options_pass() {
    assert!(validate_options(&config("http://localhost:3000/v1/shape", "todos")).is_ok());
    let resumed = StreamConfig {
        offset: Offset::At { tx: 1, op: 0 },
        handle: Some("h".to_string()),
        params: vec![("1".to_string(), "x".to_string())],
        ..config("http://localhost:3000/v1/shape", "todos")
    };
    assert!(validate_options(&resumed).is_ok());
    let reserved = StreamConfig {
        params: vec![("1".to_string(), "x".to_string()), ("live".to_string(), "y".to_string()), ("cursor".to_string(), "z".to_string())],
        ..config("u", "t")
    };
    match validate_options(&reserved) {
        Err(ElectricError::ReservedParam(names)) => assert_eq!(names, vec!["live".to_string(), "cursor".to_string()]),
        other => panic!("unexpected {:?}", other),
    }
}

#[test]
fn query_of_a_fresh_stream() {
    let c = config("http://electric.test/v1/shape", "todos");
    let st = StreamState::initial(Offset::Initial, None);
    let q = query_pairs(&c, &st, "B");
    assert_eq!(
        q,
        headers(&[("table", "todos"), ("offset", "-1"), ("live", "false"), ("cache-buster", "B")])
    );
}

#[test]
fn query_of_a_live_stream_with_options() {
    let c = StreamConfig {
        where_clause: Some("active = true".to_string()),
        params: vec![("1".to_string(), "a b".to_string())],
        columns: Some(vec!["id".to_string(), "text".to_string()]),
        replica: Replica::Full,
        ..config("http://electric.test/v1/shape", "users")
    };
    let mut st = StreamState::initial(Offset::At { tx: 5, op: 2 }, Some("h1".to_string()));
    st.live = true;
    st.cursor = Some("c9".to_string());
    let q = query_pairs(&c, &st, "B");
    assert_eq!(
        q,
        headers(&[
            ("table", "users"),
            ("offset", "5_2"),
            ("handle", "h1"),
            ("live", "true"),
            ("cursor", "c9"),
            ("cache-buster", "B"),
            ("where", "active = true"),
            ("params[1]", "a b"),
            ("columns", "id,text"),
            ("replica", "full"),
        ])
    );
}

#[test]
fn where_clause_included_in_url() {
    let c = StreamConfig { where_clause: Some("active = true".to_string()), ..config("http://electric.test/v1/shape", "users") };
    let st = StreamState::initial(Offset::Initial, None);
    let url = build_url(&c, &st).unwrap();
    assert!(url.starts_with("http://electric.test/v1/shape?table=users&offset=-1&live=false&cache-buster="));
    assert!(url.ends_with("&where=active+%3D+true"));
}

#[test]
fn relative_url_is_rejected() {
    let c = config("not a url", "t");
    let st = StreamState::initial(Offset::Initial, None);
    assert!(matches!(build_url(&c, &st), Err(ElectricError::Url(_))));
}

#[test]
fn request_carries_headers() {
    let c = StreamConfig { headers: headers(&[("x-auth-token", "secret-123")]), ..config("http://electric.test/v1/shape", "t") };
    let st = StreamState::initial(Offset::Initial, None);
    let req = next_request(&c, &st).unwrap();
    assert_eq!(req.headers, headers(&[("x-auth-token", "secret-123")]));
    assert!(req.url.contains("table=t"));
}

fn response(status: u16, hs: &[(&str, &str)], body: &str) -> ElectricResponse {
    ElectricResponse { status, headers: headers(hs), body: body.to_string() }
}

#[test]
fn first_response_updates_state() {
    let h = hooks();
    let mut st = StreamState::initial(Offset::Initial, None);
    let body = r#"[{"key":"1","value":{"id":"1","text":"world"},"headers":{"operation":"insert"}},{"headers":{"control":"up-to-date"}}]"#;
    let resp = response(
        200,
        &[("electric-handle", "my-handle-42"), ("electric-offset", "42_7"), ("electric-schema", SCHEMA_ID_TEXT), ("electric-cursor", "c1")],
        body,
    );
    let out = h.stream_step(false, &mut st, Ok(resp), 1234);
    assert!(matches!(out.next, StepNext::Close));
    assert_eq!(st.handle.as_deref(), Some("my-handle-42"));
    assert_eq!(st.offset, Offset::At { tx: 42, op: 7 });
    assert_eq!(st.cursor.as_deref(), Some("c1"));
    assert!(!st.is_loading);
    assert!(st.is_up_to_date);
    assert!(!st.live);
    assert_eq!(st.last_synced_at, Some(1234));
    assert_eq!(out.batch.len(), 2);
    match &out.batch[0] {
        Message::Change(c) => {
            let id = c.value.iter().find(|(k, _)| k == "id").unwrap();
            assert_eq!(id.1, JsonValue::Number(JsonNumber::PosInt(1)));
        },
        other => panic!("Expected Change, got {:?}", other),
    }
    assert!(out.batch[1].is_up_to_date());
}

#[test]
fn subscribing_stream_goes_live() {
    let h = hooks();
    let mut st = StreamState::initial(Offset::Initial, None);
    let resp = response(200, &[("electric-offset", "1_0"), ("electric-up-to-date", "")], "[]");
    let out = h.stream_step(true, &mut st, Ok(resp), 5);
    assert!(matches!(out.next, StepNext::Continue));
    assert!(st.live && st.is_up_to_date);
    assert!(out.batch.is_empty());
    let mut st2 = StreamState::initial(Offset::Initial, None);
    let loading = response(200, &[("electric-offset", "0_0")], r#"[{"key":"1","value":{},"headers":{"operation":"insert"}}]"#);
    let out2 = h.stream_step(true, &mut st2, Ok(loading), 5);
    assert!(matches!(out2.next, StepNext::Continue));
    assert!(st2.is_loading && !st2.is_up_to_date && !st2.live);
    assert_eq!(st2.last_synced_at, None);
}

#[test]
fn rotation_resets_state() {
    let h = hooks();
    let mut st = StreamState::initial(Offset::At { tx: 9, op: 1 }, Some("old".to_string()));
    st.live = true;
    st.is_up_to_date = true;
    st.is_loading = false;
    st.cursor = Some("c".to_string());
    let err = ElectricError::Fetch {
        status: 409,
        body: r#"[{"headers":{"control":"must-refetch"}}]"#.to_string(),
        headers: headers(&[("electric-handle", "new-handle-99")]),
        url: "http://electric.test/v1/shape".to_string(),
    };
    let out = h.stream_step(true, &mut st, Err(err), 0);
    assert!(matches!(out.next, StepNext::Continue));
    assert_eq!(out.batch.len(), 1);
    assert!(out.batch[0].is_must_refetch());
    assert_eq!(st.offset, Offset::Initial);
    assert_eq!(st.handle.as_deref(), Some("new-handle-99"));
    assert!(st.cursor.is_none() && st.schema.is_empty());
    assert!(st.is_loading && !st.is_up_to_date && !st.live);
    let c = config("http://electric.test/v1/shape", "todos");
    let q = query_pairs(&c, &st, "B");
    assert_eq!(q, headers(&[("table", "todos"), ("offset", "-1"), ("live", "false"), ("cache-buster", "B")]));
}

#[test]
fn rotation_as_a_response_and_unreadable_body() {
    let h = hooks();
    let mut st = StreamState::initial(Offset::Initial, None);
    let out = h.stream_step(false, &mut st, Ok(response(409, &[], "not json")), 0);
    assert!(matches!(out.next, StepNext::Continue));
    assert!(out.batch.is_empty());
    assert!(st.handle.is_none());
}

#[test]
fn no_content_marks_up_to_date() {
    let h = hooks();
    let mut st = StreamState::initial(Offset::Initial, None);
    let out = h.stream_step(false, &mut st, Ok(response(204, &[], "")), 77);
    assert!(matches!(out.next, StepNext::Close));
    assert!(st.is_up_to_date && !st.is_loading);
    assert_eq!(st.last_synced_at, Some(77));
    let out2 = h.stream_step(true, &mut st, Ok(response(204, &[], "")), 78);
    assert!(matches!(out2.next, StepNext::Continue));
}

#[test]
fn errors_stop_the_loop() {
    let h = hooks();
    let mut st = StreamState::initial(Offset::Initial, None);
    let out = h.stream_step(true, &mut st, Ok(response(404, &[], "nope")), 0);
    match out.next {
        StepNext::Fail(m) => assert_eq!(m, "Unexpected HTTP status 404"),
        other => panic!("unexpected {:?}", other),
    }
    let out = h.stream_step(true, &mut st, Err(ElectricError::Network("refused".to_string())), 0);
    match out.next {
        StepNext::Fail(m) => assert_eq!(m, "Network error: refused"),
        other => panic!("unexpected {:?}", other),
    }
    let out = h.stream_step(true, &mut st, Ok(response(200, &[], "{oops")), 0);
    assert!(matches!(out.next, StepNext::Fail(ref m) if m.starts_with("JSON error: ")));
    assert!(st.is_loading);
}

#[test]
fn null_in_not_null_column_fails_the_batch() {
    let h = hooks();
    let mut st = StreamState::initial(Offset::Initial, None);
    let body = r#"[{"key":"1","value":{"id":null},"headers":{"operation":"insert"}}]"#;
    let out = h.stream_step(true, &mut st, Ok(response(200, &[("electric-schema", SCHEMA_ID_TEXT)], body)), 0);
    match out.next {
        StepNext::Fail(m) => assert_eq!(m, "Column \"id\" is NOT NULL but received a null value"),
        other => panic!("unexpected {:?}", other),
    }
    assert!(out.batch.is_empty());
}

#[test]
fn cache_buster_is_a_fresh_v4_uuid() {
    let c = config("http://electric.test/v1/shape", "t");
    let st = StreamState::initial(Offset::Initial, None);
    let buster_of = |url: &str| -> String {
        let start = url.find("cache-buster=").unwrap() + "cache-buster=".len();
        url[start..start + 36].to_string()
    };
    let a = buster_of(&build_url(&c, &st).unwrap());
    let b = buster_of(&build_url(&c, &st).unwrap());
    assert_ne!(a, b);
    for (i, ch) in a.chars().enumerate() {
        if [8, 13, 18, 23].contains(&i) {
            assert_eq!(ch, '-');
        } else {
            assert!(ch.is_ascii_hexdigit() && !ch.is_ascii_uppercase());
        }
    }
    assert_eq!(a.chars().nth(14), Some('4'));
    assert!("89ab".contains(a.chars().nth(19).unwrap()));
}

#[test]
fn next_request_resumes_after_a_response() {
    let h = hooks();
    let c = config("http://electric.test/v1/shape", "todos");
    let mut st = StreamState::initial(Offset::Initial, None);
    let resp = response(
        200,
        &[("electric-handle", "h7"), ("electric-offset", "42_7"), ("electric-cursor", "cur"), ("electric-up-to-date", "")],
        "[]",
    );
    h.stream_step(true, &mut st, Ok(resp), 0);
    let q = query_pairs(&c, &st, "B");
    assert_eq!(
        q,
        headers(&[("table", "todos"), ("offset", "42_7"), ("handle", "h7"), ("live", "true"), ("cursor", "cur"), ("cache-buster", "B")])
    );
}
