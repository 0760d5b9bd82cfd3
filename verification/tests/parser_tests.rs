use electric_client::parser::{parse_bool, parse_int, parse_int8, pg_array_parse, Parser};
use electric_client::{ColumnInfo, ElectricError, JsonNumber, JsonValue, Row, Schema};

type Custom = fn(&String, &str) -> Option<JsonValue>;
type Float = fn(&str) -> JsonValue;
type Json = fn(&str) -> Result<JsonValue, String>;

fn to_json(v: &serde_json::Value) -> JsonValue {
    match v {
        serde_json::Value::Null => JsonValue::Null,
        serde_json::Value::Bool(b) => JsonValue::Bool(*b),
        serde_json::Value::Number(n) => {
            if let Some(u) = n.as_u64() {
                JsonValue::Number(JsonNumber::PosInt(u))
            } else if let Some(i) = n.as_i64() {
                JsonValue::Number(JsonNumber::NegInt(i))
            } else {
                JsonValue::Number(JsonNumber::Float(n.to_string()))
            }
        },
        serde_json::Value::String(s) => JsonValue::String(s.clone()),
        serde_json::Value::Array(a) => JsonValue::Array(a.iter().map(to_json).collect()),
        serde_json::Value::Object(m) => {
            JsonValue::Object(m.iter().map(|(k, v)| (k.clone(), to_json(v))).collect())
        },
    }
}

fn no_custom(_: &String, _: &str) -> Option<JsonValue> {
    None
}

fn float_of(v: &str) -> JsonValue {
    match v.parse::<f64>() {
        Ok(f) if f.is_finite() => JsonValue::Number(JsonNumber::Float(f.to_string())),
        _ => JsonValue::String(v.to_owned()),
    }
}

fn json_of(v: &str) -> Result<JsonValue, String> {
    serde_json::from_str::<serde_json::Value>(v).map(|x| to_json(&x)).map_err(|e| e.to_string())
}

fn p() -> Parser<Custom, Float, Json> {
    Parser { custom: no_custom as Custom, float: float_of as Float, json: json_of as Json }
}

fn ci(pg_type: &str) -> ColumnInfo {
    ColumnInfo { pg_type: pg_type.to_string(), ..Default::default() }
}

fn ci_not_null(pg_type: &str) -> ColumnInfo {
    ColumnInfo { pg_type: pg_type.to_string(), not_null: true, ..Default::default() }
}

fn ci_array(pg_type: &str) -> ColumnInfo {
    ColumnInfo { pg_type: pg_type.to_string(), dimensions: 1, ..Default::default() }
}

fn int_value(n: i64) -> JsonValue {
    if n >= 0 {
        JsonValue::Number(JsonNumber::PosInt(n as u64))
    } else {
        JsonValue::Number(JsonNumber::NegInt(n))
    }
}

fn text(s: &str) -> JsonValue {
    JsonValue::String(s.to_string())
}

fn get<'a>(row: &'a Row, name: &str) -> &'a JsonValue {
    &row.iter().find(|(k, _)| k == name).unwrap().1
}

#[test]
fn parses_int4() {
    assert_eq!(p().parse_value(Some("42"), &ci("int4"), "n").unwrap(), int_value(42));
}

#[test]
fn parses_negative_int4() {
    assert_eq!(p().parse_value(Some("-7"), &ci("int4"), "n").unwrap(), int_value(-7));
}

#[test]
fn parses_int2() {
    assert_eq!(p().parse_value(Some("100"), &ci("int2"), "n").unwrap(), int_value(100));
}

#[test]
fn parses_int8_as_string() {
    let v = p().parse_value(Some("9223372036854775807"), &ci("int8"), "n").unwrap();
    assert_eq!(v, text("9223372036854775807"));
}

#[test]
fn parses_float4() {
    let v = p().parse_value(Some("3.14"), &ci("float4"), "n").unwrap();
    assert!(matches!(v, JsonValue::Number(_)));
}

#[test]
fn parses_float8() {
    let v = p().parse_value(Some("2.718281828459045"), &ci("float8"), "n").unwrap();
    assert!(matches!(v, JsonValue::Number(_)));
}

#[test]
fn parses_bool_true_t() {
    assert_eq!(p().parse_value(Some("t"), &ci("bool"), "n").unwrap(), JsonValue::Bool(true));
}

#[test]
fn parses_bool_true_word() {
    assert_eq!(p().parse_value(Some("true"), &ci("bool"), "n").unwrap(), JsonValue::Bool(true));
}

#[test]
fn parses_bool_false() {
    assert_eq!(p().parse_value(Some("false"), &ci("bool"), "n").unwrap(), JsonValue::Bool(false));
}

#[test]
fn parses_bool_f() {
    assert_eq!(p().parse_value(Some("f"), &ci("bool"), "n").unwrap(), JsonValue::Bool(false));
}

#[test]
fn parses_text_identity() {
    let v = p().parse_value(Some("hello world"), &ci("text"), "n").unwrap();
    assert_eq!(v, text("hello world"));
}

#[test]
fn parses_json_object() {
    let v = p().parse_value(Some(r#"{"a":1}"#), &ci("json"), "n").unwrap();
    assert_eq!(v, JsonValue::Object(vec![("a".to_string(), int_value(1))]));
}

#[test]
fn parses_jsonb_array() {
    let v = p().parse_value(Some("[1,2,3]"), &ci("jsonb"), "n").unwrap();
    assert_eq!(v, JsonValue::Array(vec![int_value(1), int_value(2), int_value(3)]));
}

#[test]
fn null_on_nullable_column_returns_null() {
    let v = p().parse_value(None, &ci("int4"), "col").unwrap();
    assert_eq!(v, JsonValue::Null);
}

#[test]
fn null_on_not_null_column_errors() {
    let err = p().parse_value(None, &ci_not_null("int4"), "col").unwrap_err();
    assert!(matches!(err, ElectricError::ParserNullValue { .. }));
}

#[test]
fn parses_int_array() {
    let v = p().parse_value(Some("{1,2,3}"), &ci_array("int4"), "n").unwrap();
    assert_eq!(v, JsonValue::Array(vec![int_value(1), int_value(2), int_value(3)]));
}

#[test]
fn parses_text_array() {
    let v = p().parse_value(Some(r#"{"hello","world"}"#), &ci_array("text"), "n").unwrap();
    assert_eq!(v, JsonValue::Array(vec![text("hello"), text("world")]));
}

#[test]
fn parses_array_with_null() {
    let v = p().parse_value(Some("{1,NULL,3}"), &ci_array("int4"), "n").unwrap();
    assert_eq!(v, JsonValue::Array(vec![int_value(1), JsonValue::Null, int_value(3)]));
}

#[test]
fn parses_bool_array() {
    let v = p().parse_value(Some("{t,f,t}"), &ci_array("bool"), "n").unwrap();
    assert_eq!(
        v,
        JsonValue::Array(vec![JsonValue::Bool(true), JsonValue::Bool(false), JsonValue::Bool(true)])
    );
}

fn custom_int4(t: &String, v: &str) -> Option<JsonValue> {
    if t == "int4" {
        Some(JsonValue::String(format!("custom:{}", v)))
    } else {
        None
    }
}

#[test]
fn custom_parser_overrides_default() {
    let parser = Parser { custom: custom_int4 as Custom, float: float_of as Float, json: json_of as Json };
    let v = parser.parse_value(Some("42"), &ci("int4"), "n").unwrap();
    assert_eq!(v, text("custom:42"));
}

#[test]
fn parse_row_applies_schema() {
    let schema: Schema = vec![("id".to_string(), ci("int4")), ("active".to_string(), ci("bool"))];
    let raw: Row = vec![("id".to_string(), text("5")), ("active".to_string(), text("t"))];
    let parsed = p().parse_row(&raw, &schema).unwrap();
    assert_eq!(get(&parsed, "id"), &int_value(5));
    assert_eq!(get(&parsed, "active"), &JsonValue::Bool(true));
}

#[test]
fn parse_row_passes_through_unknown_column() {
    let schema: Schema = Vec::new();
    let raw: Row = vec![("unknown_col".to_string(), text("raw_value"))];
    let parsed = p().parse_row(&raw, &schema).unwrap();
    assert_eq!(get(&parsed, "unknown_col"), &text("raw_value"));
}

#[test]
fn parse_row_reports_the_not_null_column() {
    let schema: Schema = vec![("id".to_string(), ci_not_null("int4"))];
    let raw: Row = vec![("id".to_string(), JsonValue::Null)];
    match p().parse_row(&raw, &schema) {
        Err(ElectricError::ParserNullValue { column }) => assert_eq!(column, "id"),
        other => panic!("unexpected {:?}", other),
    }
}

#[test]
fn parse_row_keeps_non_text_cells() {
    let schema: Schema = vec![("doc".to_string(), ci("jsonb"))];
    let raw: Row = vec![("doc".to_string(), int_value(3))];
    let parsed = p().parse_row(&raw, &schema).unwrap();
    assert_eq!(get(&parsed, "doc"), &int_value(3));
}

#[test]
fn scalar_conversions() {
    assert_eq!(parse_int("12"), int_value(12));
    assert_eq!(parse_int("-12"), int_value(-12));
    assert_eq!(parse_int("1.5"), text("1.5"));
    assert_eq!(parse_int("99999999999999999999"), text("99999999999999999999"));
    assert_eq!(parse_int8("-5"), text("-5"));
    assert_eq!(parse_bool("yes"), JsonValue::Bool(false));
    assert_eq!(p().parse_value(Some("not json"), &ci("json"), "n").unwrap(), text("not json"));
    assert_eq!(p().parse_value(Some("abc"), &ci("int4"), "n").unwrap(), text("abc"));
    assert_eq!(p().parse_value(Some("2020-01-01"), &ci("date"), "n").unwrap(), text("2020-01-01"));
}

fn identity_elem(e: Option<&str>) -> JsonValue {
    match e {
        None => JsonValue::Null,
        Some(s) => JsonValue::String(s.to_string()),
    }
}

#[test]
fn array_literal_shapes() {
    assert_eq!(pg_array_parse("{}", identity_elem), JsonValue::Array(vec![]));
    assert_eq!(
        pg_array_parse("{{1,2},{3}}", identity_elem),
        JsonValue::Array(vec![
            JsonValue::Array(vec![text("1"), text("2")]),
            JsonValue::Array(vec![text("3")]),
        ])
    );
    assert_eq!(
        pg_array_parse(r#"{"a\"b","c,d",NULL,"NULL"}"#, identity_elem),
        JsonValue::Array(vec![text("a\"b"), text("c,d"), JsonValue::Null, text("NULL")])
    );
}

#[test]
fn flat_array_is_read_element_by_element() {
    let calls = std::cell::RefCell::new(Vec::new());
    let v = pg_array_parse("{a,NULL,b c}", |e: Option<&str>| {
        calls.borrow_mut().push(e.map(|s| s.to_string()));
        identity_elem(e)
    });
    assert_eq!(
        *calls.borrow(),
        vec![Some("a".to_string()), None, Some("b c".to_string())]
    );
    assert_eq!(v, JsonValue::Array(vec![text("a"), JsonValue::Null, text("b c")]));
}
