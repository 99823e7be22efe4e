use shopify_function::decimal::Decimal;
use shopify_function::function::{parse_config, Config};
use shopify_function::input::{InputCartLinesMerchandise, ResponseData};
use shopify_function::read::decode_one_of_key;
use shopify_function::json_text::parse_json;
use shopify_function::read::{
    decode_defaultable_field, decode_field, decode_required_field, ReadError, WasmDeserialize,
};

// Null/missing unification, defaultable field: both an explicit null and an
// omitted key decode to the type's default.
#[test]
fn test_defaultable_field_unification() {
    let (mut store, root) = parse_json(r#"{"f": null, "g": 7}"#, 1).unwrap();
    let explicit_null: i64 = decode_defaultable_field(&mut store, root, "f").unwrap();
    let missing: i64 = decode_defaultable_field(&mut store, root, "f_omitted").unwrap();
    let present: i64 = decode_defaultable_field(&mut store, root, "g").unwrap();
    assert_eq!(explicit_null, 0);
    assert_eq!(missing, 0);
    assert_eq!(present, 7);

    let s_null: String = decode_defaultable_field(&mut store, root, "f").unwrap();
    let s_missing: String = decode_defaultable_field(&mut store, root, "f_omitted").unwrap();
    assert_eq!(s_null, "");
    assert_eq!(s_missing, "");
}

// Null/missing unification, optional field: both decode to nothing.
#[test]
fn test_optional_field_unification() {
    let (mut store, root) = parse_json(r#"{"f": null}"#, 1).unwrap();
    let explicit_null: Option<i64> = decode_field(&mut store, root, "f").unwrap();
    let missing: Option<i64> = decode_field(&mut store, root, "f_omitted").unwrap();
    assert_eq!(explicit_null, None);
    assert_eq!(missing, None);
}

// Null/missing unification, required field: both are the missing-field
// error.
#[test]
fn test_required_field_unification() {
    let (mut store, root) = parse_json(r#"{"f": null}"#, 1).unwrap();
    let explicit_null = decode_required_field::<i64>(&mut store, root, "f");
    let missing = decode_required_field::<i64>(&mut store, root, "f_omitted");
    assert_eq!(explicit_null, Err(ReadError::MissingOrInvalidField));
    assert_eq!(missing, Err(ReadError::MissingOrInvalidField));
}

// Discriminated-union fallback: an unknown member name decodes to the
// catch-all variant rather than failing; a known one to its variant.
#[test]
fn test_union_fallback() {
    let (mut store, root) = parse_json(
        r#"[
            {"__typename": "CustomProduct", "id": "gid://shopify/CustomProduct/1"},
            {"__typename": "ProductVariant", "id": "gid://shopify/ProductVariant/1"},
            {"__typename": "Widget"}
        ]"#,
        1,
    )
    .unwrap();
    let a = root.get_at_index(&store, 0);
    let b = root.get_at_index(&store, 1);
    let c = root.get_at_index(&store, 2);
    let da = InputCartLinesMerchandise::deserialize(&mut store, a).unwrap();
    let db = InputCartLinesMerchandise::deserialize(&mut store, b).unwrap();
    let dc = InputCartLinesMerchandise::deserialize(&mut store, c).unwrap();
    assert_eq!(da, InputCartLinesMerchandise::Other);
    assert!(matches!(db, InputCartLinesMerchandise::ProductVariant(_)));
    assert_eq!(dc, InputCartLinesMerchandise::Other);
}

// A non-string discriminator is a type error, not a fallback.
#[test]
fn test_union_bad_discriminator() {
    let (mut store, root) = parse_json(r#"{"__typename": 5}"#, 1).unwrap();
    let r = InputCartLinesMerchandise::deserialize(&mut store, root);
    assert_eq!(r, Err(ReadError::InvalidType));
}

// The whole input selection decodes eagerly, field by field.
#[test]
fn test_response_data_decode() {
    let (mut store, root) = parse_json(
        r#"{
            "cart": {"lines": [{"quantity": 3, "merchandise": {"__typename": "ProductVariant", "id": "gid://shopify/ProductVariant/7"}}]},
            "discountNode": {"metafield": null}
        }"#,
        1,
    )
    .unwrap();
    let data = ResponseData::deserialize(&mut store, root).unwrap();
    assert_eq!(data.cart.lines.len(), 1);
    assert_eq!(data.cart.lines[0].quantity, 3);
    assert_eq!(data.discount_node.metafield, None);
}

// A required field that is absent fails the whole decode.
#[test]
fn test_missing_required_field() {
    let (mut store, root) = parse_json(r#"{"discountNode": {"metafield": null}}"#, 1).unwrap();
    let r = ResponseData::deserialize(&mut store, root);
    assert_eq!(r, Err(ReadError::MissingOrInvalidField));
}

// A missing or malformed configuration falls back to the default block.
#[test]
fn test_parse_config() {
    let fallback = Config { quantity: 0, percentage: Decimal::from_i64(0) };
    assert_eq!(parse_config(None), fallback);
    assert_eq!(parse_config(Some("{\"quantity\":")), fallback);
    assert_eq!(parse_config(Some("{\"quantity\": 5}")), fallback);
    assert_eq!(
        parse_config(Some("{\"quantity\": 5, \"percentage\": 10}")),
        Config { quantity: 5, percentage: Decimal::from_i64(10) }
    );
}

// A one-of input object must hold exactly one property: the sole key is
// handed out for dispatch, and any other shape is a type error.
#[test]
fn test_one_of_object() {
    let (mut store, root) = parse_json(r#"{"fixedAmount": {"value": "5.0"}}"#, 1).unwrap();
    let (key, inner) = decode_one_of_key(&mut store, root).unwrap();
    assert_eq!(key, "fixedAmount");
    assert!(!inner.is_null(&store));

    let (mut s2, r2) = parse_json(r#"{"a": 1, "b": 2}"#, 1).unwrap();
    assert_eq!(decode_one_of_key(&mut s2, r2), Err(ReadError::InvalidType));
    let (mut s3, r3) = parse_json(r#"{}"#, 1).unwrap();
    assert_eq!(decode_one_of_key(&mut s3, r3), Err(ReadError::InvalidType));
    let (mut s4, r4) = parse_json(r#"[1]"#, 1).unwrap();
    assert_eq!(decode_one_of_key(&mut s4, r4), Err(ReadError::InvalidType));
}
