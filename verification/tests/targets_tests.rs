use shopify_function::function::render_output;
use shopify_function::json_text::parse_json;
use shopify_function::read::WasmDeserialize;
use shopify_function::schema::CountryCode;
use shopify_function::schema::{
    function_b, run, target_a, FunctionTargetAResult, FunctionTargetBResult, Input, InputCells,
    Operation, RunCells, That, This,
};
use shopify_function::schema_with_targets::{my_function_export, some_function_export, target_a_export};

const FUNCTION_INPUT: &str = r#"{
  "id": "gid://shopify/Order/1234567890",
  "num": 123,
  "name": "test"
}"#;

const TARGET_A_INPUT: &str = r#"{
  "id": "gid://shopify/Order/1234567890",
  "num": 123,
  "name": "test",
  "country": "CA"
}"#;

const TARGET_B_INPUT: &str = r#"{
  "id": "gid://shopify/Order/1234567890",
  "targetAResult": 200
}"#;

#[test]
fn test_function() {
    let expected_result = r#"{"name":"new name: gid://shopify/Order/1234567890"}"#;
    let actual_result = my_function_export(FUNCTION_INPUT).unwrap();
    assert_eq!(actual_result, expected_result);
}

#[test]
fn test_target_a_export() {
    let expected_result = r#"{"status":200}"#;
    let actual_result = target_a_export(TARGET_A_INPUT).unwrap();
    assert_eq!(actual_result, expected_result);
}

#[test]
fn test_mod_b_export() {
    let expected_result = r#"{"name":"new name: gid://shopify/Order/1234567890","country":"CA"}"#;
    let actual_result = some_function_export(TARGET_B_INPUT).unwrap();
    assert_eq!(actual_result, expected_result);
}

#[test]
fn test_serialize_enum() {}

#[test]
fn test_a() {
    let (store, root) = parse_json(
        r#"
            {
                "id": "gid://shopify/Order/1234567890",
                "num": 123,
                "name": "test"
            }
        "#,
        1,
    )
    .unwrap();
    let input = Input::from_value(&store, root);
    let result = target_a(&input).unwrap();
    let expected = FunctionTargetAResult { status: Some(200) };
    assert_eq!(result, expected);
}

#[test]
fn test_target_b() {
    let (mut store, root) = parse_json(
        r#"
            {
                "id": "gid://shopify/Order/1234567890",
                "aResult": 200
            }
        "#,
        1,
    )
    .unwrap();
    let mut input = Input::from_value(&store, root);
    let mut cells = InputCells::new();
    let result = shopify_function::schema::target_b(&mut input, &mut store, &mut cells).unwrap();
    let expected = FunctionTargetBResult {
        name: Some("new name: \"gid://shopify/Order/1234567890\"".to_string()),
        operations: vec![
            Operation::DoThis(This {
                this_field: "this field".to_string(),
            }),
            Operation::DoThat(That { that_field: 42 }),
        ],
    };
    assert_eq!(result, expected);
}

#[test]
fn test_function_b() {
    let (mut store, root) = parse_json(TARGET_B_INPUT, 1).unwrap();
    let mut input = Input::from_value(&store, root);
    let mut cells = InputCells::new();
    let result = function_b(&mut input, &mut store, &mut cells).unwrap();
    assert_eq!(
        result.name,
        Some("new name: \"gid://shopify/Order/1234567890\"".to_string())
    );
    assert_eq!(result.operations.len(), 0);
}

#[test]
fn test_null_field_skipping() {
    fn test_function_none(_input: &Input) -> FunctionTargetAResult {
        FunctionTargetAResult { status: None }
    }
    fn test_function_some(_input: &Input) -> FunctionTargetAResult {
        FunctionTargetAResult { status: Some(200) }
    }
    let test_input = r#"{
        "id": "gid://shopify/Order/1234567890",
        "num": 123,
        "name": "test"
    }"#;

    let (store, root) = parse_json(test_input, 1).unwrap();
    let input = Input::from_value(&store, root);
    let result_none = test_function_none(&input);
    let result_some = test_function_some(&input);

    assert_eq!(result_none.status, None);
    assert_eq!(result_some.status, Some(200));
    // an absent status is omitted from the rendered output entirely
    assert_eq!(render_output(&result_none).unwrap(), "{}");
    assert_eq!(render_output(&result_some).unwrap(), r#"{"status":200}"#);
}

#[test]
fn test_run_flags_large_quantities() {
    let (mut store, root) = parse_json(
        r#"{"cart": {"lines": [{"quantity": 1}, {"quantity": 2}]}}"#,
        1,
    )
    .unwrap();
    let mut cells = RunCells::new();
    let result = run(&mut store, root, &mut cells).unwrap();
    assert_eq!(result.errors.len(), 1);
    assert_eq!(result.errors[0].localized_message, "Quantity must be 1");
    assert_eq!(result.errors[0].target, "cart.lines.quantity");
    // the fields travelled through the interning cache: by token, not string
    assert_eq!(store.string_lookups(), 0);
    assert_eq!(store.interns(), 3);
    assert_eq!(store.token_lookups(), 4);
}

#[test]
fn test_run_accepts_unit_quantities() {
    let (mut store, root) = parse_json(
        r#"{"cart": {"lines": [{"quantity": 1}, {"quantity": 1}]}}"#,
        1,
    )
    .unwrap();
    let mut cells = RunCells::new();
    let result = run(&mut store, root, &mut cells).unwrap();
    assert_eq!(result.errors.len(), 0);
}

#[test]
fn test_enum_member_round_trip() {
    assert_eq!(CountryCode::from_str("CA"), CountryCode::Ca);
    assert_eq!(CountryCode::from_str("US"), CountryCode::Us);
    assert_eq!(CountryCode::from_str("FR"), CountryCode::Other);
    assert_eq!(render_output(&CountryCode::Ca).unwrap(), "\"CA\"");
    let (mut store, root) = parse_json("\"US\"", 1).unwrap();
    let c = CountryCode::deserialize(&mut store, root).unwrap();
    assert_eq!(c, CountryCode::Us);
    let (mut store2, root2) = parse_json("\"ZZ\"", 1).unwrap();
    let z = CountryCode::deserialize(&mut store2, root2).unwrap();
    assert_eq!(z, CountryCode::Other);
}
