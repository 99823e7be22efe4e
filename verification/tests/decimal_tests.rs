use shopify_function::decimal::{parse_decimal, Decimal};
use shopify_function::function::render_output;
use shopify_function::json_text::parse_json;
use shopify_function::read::WasmDeserialize;
use shopify_function::Context;

#[test]
fn test_deserialization() {
    let (store, root) = parse_json("\"123.4\"", 7).expect("Error getting input");
    let mut context = Context::new_with_input(store, root);
    let value = context.input_get().expect("Error getting input");
    let decimal: Decimal =
        Decimal::deserialize(context.store_mut(), value).expect("Error deserializing from JSON");
    assert_eq!(Decimal::from_parts(false, 1234, 1), decimal);
}

#[test]
fn test_deserialization_error() {
    let (store, root) = parse_json("\"123.4.5\"", 7).expect("Error getting input");
    let mut context = Context::new_with_input(store, root);
    let value = context.input_get().expect("Error getting input");
    let error = Decimal::deserialize(context.store_mut(), value).expect_err("Expected an error");
    assert_eq!("Invalid type", error.message());
}

#[test]
fn test_display_formatting() {
    assert_eq!(Decimal::from_parts(false, 12345, 2).to_repr_string(), "123.45");
    assert_eq!(Decimal::from_parts(false, 123, 0).to_repr_string(), "123.0");
    assert_eq!(Decimal::from_parts(false, 0, 0).to_repr_string(), "0.0");
    assert_eq!(Decimal::from_parts(true, 5678, 3).to_repr_string(), "-5.678");
}

#[test]
fn test_decimal_string() {
    assert_eq!(Decimal::from_parts(false, 10, 0).to_decimal_string(), "10");
    assert_eq!(Decimal::from_parts(false, 1234, 1).to_decimal_string(), "123.4");
    assert_eq!(Decimal::from_parts(false, 5, 2).to_decimal_string(), "0.05");
    assert_eq!(Decimal::from_i64(-42).to_decimal_string(), "-42");
}

#[test]
fn test_parse_decimal_grammar() {
    assert_eq!(parse_decimal("123.4"), Some(Decimal::from_parts(false, 1234, 1)));
    assert_eq!(parse_decimal("123"), Some(Decimal::from_parts(false, 123, 0)));
    assert_eq!(parse_decimal("-5.678"), Some(Decimal::from_parts(true, 5678, 3)));
    assert_eq!(parse_decimal("123.40"), Some(Decimal::from_parts(false, 1234, 1)));
    assert_eq!(parse_decimal("123.0"), Some(Decimal::from_parts(false, 123, 0)));
    assert_eq!(parse_decimal("12.3.4"), None);
    assert_eq!(parse_decimal("123."), None);
    assert_eq!(parse_decimal(".5"), None);
    assert_eq!(parse_decimal(""), None);
    assert_eq!(parse_decimal("-"), None);
    assert_eq!(parse_decimal("1e5"), None);
    // the digits must fit the mantissa's machine word
    assert_eq!(
        parse_decimal("18446744073709551615"),
        Some(Decimal::from_parts(false, u64::MAX, 0))
    );
    assert_eq!(parse_decimal("18446744073709551616"), None);
    // a trailing zero fraction is stripped before the overflow check
    assert_eq!(
        parse_decimal("18446744073709551615.0"),
        Some(Decimal::from_parts(false, u64::MAX, 0))
    );
}

// Round trip: decoding an encoded decimal gives back the same value, in both
// renderings, even though the two renderings of an integer differ as strings.
#[test]
fn test_round_trip() {
    let samples = [
        Decimal::from_parts(false, 0, 0),
        Decimal::from_parts(false, 123, 0),
        Decimal::from_parts(false, 1234, 1),
        Decimal::from_parts(true, 5678, 3),
        Decimal::from_parts(false, 5, 2),
        Decimal::from_parts(false, u64::MAX, 0),
        Decimal::from_parts(true, 1, 10),
    ];
    for d in samples.iter() {
        assert_eq!(parse_decimal(&d.to_repr_string()), Some(*d));
        assert_eq!(parse_decimal(&d.to_decimal_string()), Some(*d));
        assert_ne!(d.to_repr_string(), d.to_decimal_string().clone() + "x");
    }
}

#[test]
fn test_json_deserialization() {
    let (mut store, root) = parse_json("\"123.4\"", 7).expect("Error getting input");
    let result: Decimal =
        Decimal::deserialize(&mut store, root).expect("Error deserializing from JSON");
    assert_eq!(Decimal::from_parts(false, 1234, 1), result);
}

#[test]
fn test_json_deserialization_error() {
    let (mut store, root) = parse_json("\"123.4.5\"", 7).expect("Error getting input");
    let error = Decimal::deserialize(&mut store, root).expect_err("Expected an error");
    assert_eq!("Invalid type", error.message());
}

#[test]
fn test_json_serialization() {
    let decimal = Decimal::from_parts(false, 1234, 1);
    let result = render_output(&decimal).expect("Error serializing to JSON");
    assert_eq!("\"123.4\"", result);
}
