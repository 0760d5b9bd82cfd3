use electric_client::types::{column_info_from_json, message_from_json, messages_from_json, schema_from_json};
use electric_client::{ControlKind, JsonNumber, JsonValue, Message, Operation, Replica};

fn to_json(v: &serde_json::Value) -> JsonValue {
    match v {
        serde_json::Value::Null => JsonValue::Null,
        serde_json::Value::Bool(b) => JsonValue::Bool(*b),
        serde_json::Value::Number(n) => {
            if let Some(u) = n.as_u64() {
                JsonValue::Number(JsonNumber::PosInt(u))
            } else if let Some(i) = n.as_i64() {
                JsonValue::Number(JsonNumber::NegInt(i))
            } else {
                JsonValue::Number(JsonNumber::Float(n.to_string()))
            }
        },
        serde_json::Value::String(s) => JsonValue::String(s.clone()),
        serde_json::Value::Array(a) => JsonValue::Array(a.iter().map(to_json).collect()),
        serde_json::Value::Object(m) => {
            JsonValue::Object(m.iter().map(|(k, v)| (k.clone(), to_json(v))).collect())
        },
    }
}

fn parse(text: &str) -> JsonValue {
    to_json(&serde_json::from_str::<serde_json::Value>(text).unwrap())
}

fn get<'a>(row: &'a Vec<(String, JsonValue)>, name: &str) -> Option<&'a JsonValue> {
    row.iter().find(|(k, _)| k == name).map(|(_, v)| v)
}

#[test]
fn deserialize_up_to_date_control() {
    let json = r#"{"headers":{"control":"up-to-date"}}"#;
    let msg: Message = message_from_json(&parse(json)).unwrap();
    assert!(msg.is_up_to_date());
}

#[test]
fn deserialize_must_refetch_control() {
    let json = r#"{"headers":{"control":"must-refetch"}}"#;
    let msg: Message = message_from_json(&parse(json)).unwrap();
    assert!(msg.is_must_refetch());
}

#[test]
fn deserialize_insert_change() {
    let json = r#"{
        "key": "1",
        "value": {"id": "1", "text": "hello"},
        "headers": {"operation": "insert", "txids": [42]}
    }"#;
    let msg: Message = message_from_json(&parse(json)).unwrap();
    match msg {
        Message::Change(c) => {
            assert_eq!(c.key, "1");
            assert_eq!(c.headers.operation, Operation::Insert);
            assert_eq!(get(&c.value, "text").unwrap(), &JsonValue::String("hello".to_string()));
        },
        other => panic!("Expected Change, got {:?}", other),
    }
}

#[test]
fn deserialize_delete_change() {
    let json = r#"{
        "key": "5",
        "value": {"id": "5"},
        "headers": {"operation": "delete"}
    }"#;
    let msg: Message = message_from_json(&parse(json)).unwrap();
    assert!(matches!(
        msg,
        Message::Change(ref c) if c.headers.operation == Operation::Delete
    ));
}

#[test]
fn deserialize_update_with_old_value() {
    let json = r#"{
        "key": "2",
        "value": {"id": "2", "text": "updated"},
        "old_value": {"text": "original"},
        "headers": {"operation": "update"}
    }"#;
    let msg: Message = message_from_json(&parse(json)).unwrap();
    match msg {
        Message::Change(c) => {
            assert!(c.old_value.is_some());
            let old = c.old_value.unwrap();
            assert_eq!(get(&old, "text").unwrap(), &JsonValue::String("original".to_string()));
        },
        _ => panic!("Expected Change"),
    }
}

#[test]
fn deserialize_message_array() {
    let json = r#"[
        {"key":"1","value":{"id":"1"},"headers":{"operation":"insert"}},
        {"headers":{"control":"up-to-date"}}
    ]"#;
    let msgs: Vec<Message> = messages_from_json(&parse(json)).unwrap();
    assert_eq!(msgs.len(), 2);
    assert!(matches!(msgs[0], Message::Change(_)));
    assert!(msgs[1].is_up_to_date());
}

#[test]
fn column_info_deserializes_from_schema_header() {
    let json = r#"{"type":"int4","dimensions":0}"#;
    let ci = column_info_from_json(&parse(json)).unwrap();
    assert_eq!(ci.pg_type, "int4");
    assert_eq!(ci.dimensions, 0);
}

#[test]
fn schema_deserializes_from_header() {
    let json = r#"{"id":{"type":"int4","dimensions":0},"text":{"type":"text","dimensions":0}}"#;
    let schema = schema_from_json(&parse(json)).unwrap();
    let find = |name: &str| schema.iter().find(|(k, _)| k == name).map(|(_, c)| c.pg_type.clone());
    assert_eq!(find("id").unwrap(), "int4");
    assert_eq!(find("text").unwrap(), "text");
}

#[test]
fn control_kinds_and_unknown_shapes() {
    let snapshot_end = message_from_json(&parse(r#"{"headers":{"control":"snapshot-end"}}"#)).unwrap();
    assert!(snapshot_end.is_up_to_date());
    let unknown = message_from_json(&parse(r#"{"headers":{"control":"whatever"}}"#)).unwrap();
    assert!(unknown.is_up_to_date());
    let no_kind = message_from_json(&parse(r#"{"headers":{}}"#)).unwrap();
    assert!(matches!(no_kind, Message::Control(ref c) if c.control == ControlKind::UpToDate));
    assert!(message_from_json(&parse(r#"{"key":"1"}"#)).is_err());
    assert!(message_from_json(&parse(r#"[1]"#)).is_err());
}

#[test]
fn change_decoding_details() {
    let json = r#"{"key":"9","value":{"a":"1"},"headers":{"operation":"update","txids":[1,2],"lsn":"0/16B3748"}}"#;
    match message_from_json(&parse(json)).unwrap() {
        Message::Change(c) => {
            assert_eq!(c.headers.operation, Operation::Update);
            assert_eq!(c.headers.txids, vec![1, 2]);
            assert_eq!(c.headers.lsn.as_deref(), Some("0/16B3748"));
            assert!(c.old_value.is_none());
        },
        other => panic!("unexpected {:?}", other),
    }
    let bad_op = r#"{"key":"9","value":{},"headers":{"operation":"upsert"}}"#;
    assert!(message_from_json(&parse(bad_op)).is_err());
    let bad_txid = r#"{"key":"9","value":{},"headers":{"operation":"insert","txids":["1"]}}"#;
    assert!(message_from_json(&parse(bad_txid)).is_err());
    let bad_key = r#"{"key":9,"value":{},"headers":{"operation":"insert"}}"#;
    assert!(message_from_json(&parse(bad_key)).is_err());
    assert!(messages_from_json(&parse(r#"{"headers":{}}"#)).is_err());
}

#[test]
fn column_info_optional_fields() {
    let ci = column_info_from_json(&parse(r#"{"type":"varchar","not_null":true,"max_length":20}"#)).unwrap();
    assert_eq!(ci.pg_type, "varchar");
    assert!(ci.not_null);
    assert_eq!(ci.max_length, Some(20));
    assert_eq!(ci.dimensions, 0);
    assert!(column_info_from_json(&parse(r#"{"dimensions":1}"#)).is_err());
    assert!(column_info_from_json(&parse(r#"{"type":"int4","dimensions":-1}"#)).is_err());
}

#[test]
fn replica_names() {
    assert_eq!(Replica::Default.to_string(), "default");
    assert_eq!(Replica::Full.to_string(), "full");
    assert_eq!(Replica::default(), Replica::Default);
}
