//! The JSON model, serializer and number handling.

use mcpeek::json::{json_to_string, parse_json, JsonValue};

fn obj(fields: Vec<(&str, JsonValue)>) -> JsonValue {
    JsonValue::Object(fields.into_iter().map(|(k, v)| (k.to_string(), v)).collect())
}

#[test]
fn test_serializer_compact_form() {
    let v = obj(vec![
        ("a", JsonValue::Null),
        ("b", JsonValue::Bool(true)),
        ("c", JsonValue::Number("42".to_string())),
        ("d", JsonValue::Text("hi".to_string())),
        ("e", JsonValue::Array(vec![JsonValue::Number("1".to_string()), JsonValue::Bool(false)])),
    ]);
    assert_eq!(
        json_to_string(&v),
        "{\"a\":null,\"b\":true,\"c\":42,\"d\":\"hi\",\"e\":[1,false]}"
    );
}

#[test]
fn test_serializer_escapes() {
    let v = JsonValue::Text("a\"b\\c\nd\te\u{1}f".to_string());
    assert_eq!(json_to_string(&v), "\"a\\\"b\\\\c\\nd\\te\\u0001f\"");
}

#[test]
fn test_serializer_agrees_with_reference_library() {
    // The verified serializer writes the same compact text serde_json
    // writes for the same document.
    let text = "{\"k\":[1,2.5,\"x\\n\",{\"inner\":null},true]}";
    let ours = json_to_string(&parse_json(text).unwrap());
    let theirs =
        serde_json::to_string(&serde_json::from_str::<serde_json::Value>(text).unwrap()).unwrap();
    assert_eq!(ours, theirs);
}

#[test]
fn test_parse_json_rejects_bad_text() {
    assert!(parse_json("{oops").is_none());
    assert!(parse_json("").is_none());
    assert!(parse_json("{\"a\":}").is_none());
}

#[test]
fn test_parse_then_serialize_round_trip() {
    let text = "{\"list\":[true,false,null],\"n\":-7,\"s\":\"line\\nbreak\"}";
    let parsed = parse_json(text).unwrap();
    let rendered = json_to_string(&parsed);
    // Rendering the parse yields a document that parses to the same text
    // again: a fixed point after one round.
    let again = json_to_string(&parse_json(&rendered).unwrap());
    assert_eq!(rendered, again);
}

#[test]
fn test_member_lookup() {
    let v = obj(vec![("x", JsonValue::Number("1".to_string())), ("y", JsonValue::Null)]);
    assert!(v.get(&"x".to_string()).is_some());
    assert!(v.get(&"y".to_string()).is_some());
    assert!(v.get(&"z".to_string()).is_none());
    assert!(JsonValue::Null.get(&"x".to_string()).is_none());
}

#[test]
fn test_number_as_i64() {
    assert_eq!(JsonValue::Number("42".to_string()).as_i64(), Some(42));
    assert_eq!(JsonValue::Number("-7".to_string()).as_i64(), Some(-7));
    assert_eq!(
        JsonValue::Number("9223372036854775807".to_string()).as_i64(),
        Some(9223372036854775807)
    );
    assert_eq!(
        JsonValue::Number("-9223372036854775808".to_string()).as_i64(),
        Some(-9223372036854775808)
    );
    assert_eq!(JsonValue::Number("9223372036854775808".to_string()).as_i64(), None);
    assert_eq!(JsonValue::Number("1.5".to_string()).as_i64(), None);
    assert_eq!(JsonValue::Number("1e3".to_string()).as_i64(), None);
    assert_eq!(JsonValue::Text("42".to_string()).as_i64(), None);
}

#[test]
fn test_duplicate_preserves_document() {
    let v = obj(vec![(
        "nested",
        JsonValue::Array(vec![obj(vec![("deep", JsonValue::Text("value".to_string()))])]),
    )]);
    let copy = v.duplicate();
    assert_eq!(json_to_string(&v), json_to_string(&copy));
}
