use shopify_function::function::{function, run_function_to_json, run_function_with_input, Error};
use shopify_function::input::ResponseData;
use shopify_function::output::{
    Discount, DiscountApplicationStrategy, FunctionResult, Percentage, ProductVariantTarget,
    Target, Value,
};

const NO_CONFIGURATION_INPUT: &str = r#"
    {
        "cart": {
            "lines": [
                {
                    "cost": {
                        "totalAmount": {
                            "amount": "0"
                        }
                    },
                    "merchandise": {
                        "__typename": "ProductVariant",
                        "id": "gid://shopify/ProductVariant/0"
                    },
                    "quantity": 5
                },
                {
                    "cost": {
                        "totalAmount": {
                            "amount": "0"
                        }
                    },
                    "merchandise": {
                        "__typename": "ProductVariant",
                        "id": "gid://shopify/ProductVariant/1"
                    },
                    "quantity": 1
                }
            ]
        },
        "discountNode": {
            "metafield": null
        }
    }
"#;

const CONFIGURATION_INPUT: &str = r#"
    {
        "cart": {
            "lines": [
                {
                    "cost": {
                        "totalAmount": {
                            "amount": "0"
                        }
                    },
                    "merchandise": {
                        "__typename": "ProductVariant",
                        "id": "gid://shopify/ProductVariant/0"
                    },
                    "quantity": 5
                },
                {
                    "cost": {
                        "totalAmount": {
                            "amount": "10"
                        }
                    },
                    "merchandise": {
                        "__typename": "ProductVariant",
                        "id": "gid://shopify/ProductVariant/1"
                    },
                    "quantity": 1
                }
            ]
        },
        "discountNode": {
            "metafield": {
                "value": "{\"quantity\": 5, \"percentage\": 10}"
            }
        }
    }
"#;

fn discount_function(input: ResponseData) -> Result<FunctionResult, Error> {
    function(&input)
}

#[test]
fn tests_test_discount_with_no_configuration() {
    let result = run_function_with_input(discount_function, NO_CONFIGURATION_INPUT).unwrap();
    let expected = FunctionResult {
        discounts: vec![],
        discount_application_strategy: DiscountApplicationStrategy::FIRST,
    };
    assert_eq!(result, expected);
}

#[test]
fn tests_test_discount_with_configuration() {
    let result = run_function_with_input(discount_function, CONFIGURATION_INPUT).unwrap();
    let expected = FunctionResult {
        discounts: vec![Discount {
            message: None,
            targets: vec![Target {
                product_variant: Some(ProductVariantTarget {
                    id: "gid://shopify/ProductVariant/0".to_string(),
                    quantity: None,
                }),
            }],
            value: Value {
                percentage: Some(Percentage {
                    value: "10".to_string(),
                }),
                fixed_amount: None,
            },
        }],
        discount_application_strategy: DiscountApplicationStrategy::FIRST,
    };
    assert_eq!(result, expected);
}

// The full end-to-end trip of one invocation: decode the configuration and
// the cart, decide, encode, finalize, and render — the configuration block
// {"quantity": 5, "percentage": 10} against two lines of quantities 5 and 1
// yields one discount targeting only the line with quantity at least 5, with
// a percentage value of "10" and the first-discount strategy.
#[test]
fn test_end_to_end_discount_trip() {
    let text = run_function_to_json(discount_function, CONFIGURATION_INPUT).unwrap();
    let expected = "{\"discounts\":[{\"targets\":[{\"productVariant\":{\"id\":\"gid://shopify/ProductVariant/0\"}}],\"value\":{\"percentage\":{\"value\":\"10\"}}}],\"discountApplicationStrategy\":\"FIRST\"}";
    assert_eq!(text, expected);
}

#[test]
fn test_discount_with_malformed_configuration() {
    let input = r#"{
        "cart": {"lines": []},
        "discountNode": {"metafield": {"value": "{\"quantity\":"}}
    }"#;
    let result = run_function_with_input(discount_function, input);
    assert!(result.is_err());
}

#[test]
fn test_discount_with_zero_percentage() {
    let input = r#"{
        "cart": {"lines": [{"quantity": 9, "merchandise": {"__typename": "ProductVariant", "id": "gid://shopify/ProductVariant/9"}}]},
        "discountNode": {"metafield": {"value": "{\"quantity\": 1, \"percentage\": 0}"}}
    }"#;
    let result = run_function_with_input(discount_function, input).unwrap();
    assert_eq!(result.discounts.len(), 0);
    assert_eq!(
        result.discount_application_strategy,
        DiscountApplicationStrategy::FIRST
    );
}

#[test]
fn test_discount_skips_unknown_merchandise() {
    let input = r#"{
        "cart": {"lines": [
            {"quantity": 9, "merchandise": {"__typename": "CustomProduct", "id": "gid://shopify/CustomProduct/1"}},
            {"quantity": 9, "merchandise": {"__typename": "ProductVariant", "id": "gid://shopify/ProductVariant/2"}}
        ]},
        "discountNode": {"metafield": {"value": "{\"quantity\": 2, \"percentage\": 12.5}"}}
    }"#;
    let result = run_function_with_input(discount_function, input).unwrap();
    assert_eq!(result.discounts.len(), 1);
    assert_eq!(result.discounts[0].targets.len(), 1);
    assert_eq!(
        result.discounts[0].targets[0].product_variant.as_ref().unwrap().id,
        "gid://shopify/ProductVariant/2"
    );
    assert_eq!(
        result.discounts[0].value.percentage.as_ref().unwrap().value,
        "12.5"
    );
}
