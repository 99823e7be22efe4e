use shopify_function::decimal::Decimal;
use shopify_function::json_text::{parse_json, to_json_string};
use shopify_function::json_value::{JsonProp, JsonValue};
use shopify_function::read::WasmDeserialize;

fn prop(key: &str, value: JsonValue) -> JsonProp {
    JsonProp { key: key.to_string(), value }
}

#[test]
fn test_deserialize() {
    let (mut store, root) = parse_json(
        r#"{
            "null": null,
            "string": "string",
            "number": 123,
            "boolean": true,
            "object": {
                "key": "value"
            },
            "array": [1, 2, 3]
        }"#,
        1,
    )
    .unwrap();
    let json_value = JsonValue::deserialize(&mut store, root).unwrap();
    let expected = JsonValue::Object(vec![
        prop("null", JsonValue::Null),
        prop("string", JsonValue::String("string".to_string())),
        prop("number", JsonValue::Number(Decimal::from_i64(123))),
        prop("boolean", JsonValue::Boolean(true)),
        prop(
            "object",
            JsonValue::Object(vec![prop("key", JsonValue::String("value".to_string()))]),
        ),
        prop(
            "array",
            JsonValue::Array(vec![
                JsonValue::Number(Decimal::from_i64(1)),
                JsonValue::Number(Decimal::from_i64(2)),
                JsonValue::Number(Decimal::from_i64(3)),
            ]),
        ),
    ]);
    assert_eq!(json_value, expected);
}

#[test]
fn test_json_text_round_trip() {
    let source = r#"{"a":[1,2.5,-3],"b":{"c":"x","d":null},"e":true,"f":"q\"uo\\te"}"#;
    let (mut store, root) = parse_json(source, 1).unwrap();
    let tree = JsonValue::deserialize(&mut store, root).unwrap();
    let rendered = to_json_string(&tree);
    assert_eq!(rendered, source);
}

#[test]
fn test_parse_rejects_garbage() {
    assert!(parse_json("", 1).is_err());
    assert!(parse_json("{", 1).is_err());
    assert!(parse_json("[1,]", 1).is_err());
    assert!(parse_json("nul", 1).is_err());
    assert!(parse_json("1 2", 1).is_err());
    assert!(parse_json("{\"a\":}", 1).is_err());
}

#[test]
fn test_parse_numbers() {
    let (mut store, root) = parse_json("[0, -7, 2.50, 1e2, 5e-2]", 1).unwrap();
    let tree = JsonValue::deserialize(&mut store, root).unwrap();
    let expected = JsonValue::Array(vec![
        JsonValue::Number(Decimal::from_i64(0)),
        JsonValue::Number(Decimal::from_i64(-7)),
        JsonValue::Number(Decimal::from_parts(false, 25, 1)),
        JsonValue::Number(Decimal::from_i64(100)),
        JsonValue::Number(Decimal::from_parts(false, 5, 2)),
    ]);
    assert_eq!(tree, expected);
}
