use agent_kit::lenient::{describe_value, lenient_opt_bool, JsonValue};
use serde_json::Value;

fn loose(v: &Value) -> JsonValue {
    match v {
        Value::Null => JsonValue::Null,
        Value::Bool(b) => JsonValue::Bool(*b),
        Value::Number(_) => JsonValue::Number,
        Value::String(s) => JsonValue::String(s.clone()),
        Value::Array(_) => JsonValue::Array,
        Value::Object(_) => JsonValue::Object,
    }
}

/// Reads the optional field `v` of a JSON object the way the parameter
/// structs do: absent stays `None`, a present value goes through the reader.
fn de_bool(json: &str) -> Result<Option<bool>, String> {
    let obj: Value = serde_json::from_str(json).unwrap();
    lenient_opt_bool(obj.get("v").map(loose))
}

#[test]
fn bool_absent_is_none() {
    assert_eq!(de_bool("{}").unwrap(), None);
}

#[test]
fn bool_null_is_none() {
    assert_eq!(de_bool(r#"{"v": null}"#).unwrap(), None);
}

#[test]
fn bool_native() {
    assert_eq!(de_bool(r#"{"v": true}"#).unwrap(), Some(true));
    assert_eq!(de_bool(r#"{"v": false}"#).unwrap(), Some(false));
}

#[test]
fn bool_stringified_is_tolerated() {
    assert_eq!(de_bool(r#"{"v": "true"}"#).unwrap(), Some(true));
    assert_eq!(de_bool(r#"{"v": "FALSE"}"#).unwrap(), Some(false));
}

#[test]
fn bool_bad_string_error_has_hint() {
    let err = de_bool(r#"{"v": "nope"}"#).unwrap_err();
    assert!(err.contains("JSON boolean"), "error should hint at JSON boolean: {}", err);
    assert!(err.contains("not a string"), "error should say not string: {}", err);
}

#[test]
fn bool_wrong_type_error_has_hint() {
    let err = de_bool(r#"{"v": 1}"#).unwrap_err();
    assert!(err.contains("JSON boolean"), "error should hint at JSON boolean: {}", err);
}

#[test]
fn exact_error_texts() {
    assert_eq!(
        de_bool(r#"{"v": " nope "}"#).unwrap_err(),
        "expected JSON boolean (true or false), got string \" nope \" — send a raw JSON boolean, not a string"
    );
    assert_eq!(
        de_bool(r#"{"v": [true]}"#).unwrap_err(),
        "expected JSON boolean (true or false), got array — send a raw JSON boolean, not array"
    );
    assert_eq!(de_bool(r#"{"v": " True\n"}"#).unwrap(), Some(true));
}

#[test]
fn kinds_are_named() {
    assert_eq!(describe_value(&JsonValue::Null), "null");
    assert_eq!(describe_value(&JsonValue::Bool(true)), "boolean");
    assert_eq!(describe_value(&JsonValue::Number), "number");
    assert_eq!(describe_value(&JsonValue::String(String::new())), "string");
    assert_eq!(describe_value(&JsonValue::Array), "array");
    assert_eq!(describe_value(&JsonValue::Object), "object");
}
