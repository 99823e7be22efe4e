use shopify_function::intern::CachedInternedStringId;
use shopify_function::json_text::parse_json;
use shopify_function::read::interned_prop;
use shopify_function::schema::{Input, InputCells};
use shopify_function::store::ValueStore;
use shopify_function::{Context, WriteError};

// Laziness: decoding a struct performs zero field-level decode work beyond
// capturing the root handle — every instrumentation counter stays at zero.
#[test]
fn test_laziness() {
    let (store, root) = parse_json(
        r#"{"id": "gid://shopify/Order/1234567890", "num": 123, "name": "test"}"#,
        1,
    )
    .unwrap();
    let _input = Input::from_value(&store, root);
    assert_eq!(store.interns(), 0);
    assert_eq!(store.string_lookups(), 0);
    assert_eq!(store.token_lookups(), 0);
}

// Memoization: accessing the same field twice performs exactly one
// underlying lookup — the second access leaves every counter unchanged.
#[test]
fn test_memoization() {
    let (mut store, root) = parse_json(
        r#"{"id": "gid://shopify/Order/1234567890", "num": 123, "name": "test"}"#,
        1,
    )
    .unwrap();
    let mut input = Input::from_value(&store, root);
    let mut cells = InputCells::new();
    let first = input.id(&mut store, &mut cells).unwrap();
    assert_eq!(store.interns(), 1);
    assert_eq!(store.token_lookups(), 1);
    assert_eq!(store.string_lookups(), 0);
    let second = input.id(&mut store, &mut cells).unwrap();
    assert_eq!(first, second);
    assert_eq!(store.interns(), 1);
    assert_eq!(store.token_lookups(), 1);
    assert_eq!(store.string_lookups(), 0);
}

// Interning: repeated lookups of the same literal field name across many
// sibling objects of one store perform exactly one intern call and one
// lookup by token each, never a lookup by string.
#[test]
fn test_interning() {
    let (mut store, root) = parse_json(
        r#"[{"num": 1}, {"num": 2}, {"num": 3}, {"num": 4}, {"num": 5}]"#,
        1,
    )
    .unwrap();
    let n = root.array_len(&store).unwrap();
    assert_eq!(n, 5);
    let mut cell = CachedInternedStringId::new("num");
    for i in 0..n {
        let sibling = root.get_at_index(&store, i);
        let field = interned_prop(&mut store, sibling, &mut cell);
        assert!(!field.is_null(&store));
    }
    assert_eq!(store.interns(), 1);
    assert_eq!(store.token_lookups(), 5);
    assert_eq!(store.string_lookups(), 0);
}

// A missing property and an explicit null are indistinguishable: both hand
// out the null value.
#[test]
fn test_missing_prop_is_null() {
    let (mut store, root) = parse_json(r#"{"present": null}"#, 1).unwrap();
    let absent = root.get_obj_prop(&mut store, "absent");
    let present = root.get_obj_prop(&mut store, "present");
    assert!(absent.is_null(&store));
    assert!(present.is_null(&store));
    assert_eq!(store.string_lookups(), 2);
}

// Arity enforcement: closing an object after a different number of writes
// than declared is the arity error.
#[test]
fn test_arity_mismatch() {
    let mut ctx = Context::new(ValueStore::new(1));
    ctx.write_object_begin(2).unwrap();
    ctx.write_utf8_str("only").unwrap();
    ctx.write_bool(true).unwrap();
    let r = ctx.write_object_end();
    assert_eq!(r, Err(WriteError::ArityMismatch));
}

#[test]
fn test_array_arity_mismatch() {
    let mut ctx = Context::new(ValueStore::new(1));
    ctx.write_array_begin(3).unwrap();
    ctx.write_bool(true).unwrap();
    let r = ctx.write_array_end();
    assert_eq!(r, Err(WriteError::ArityMismatch));
}

// Finalization happens exactly once: a second finalize, and any write after
// it, are errors; nothing is visible before it.
#[test]
fn test_finalize_once() {
    let mut ctx = Context::new(ValueStore::new(1));
    ctx.write_bool(true).unwrap();
    assert!(ctx.output_json_string().is_none());
    assert_eq!(ctx.finalize_output(), Ok(()));
    assert_eq!(ctx.finalize_output(), Err(WriteError::InvalidState));
    assert_eq!(ctx.write_bool(false), Err(WriteError::InvalidState));
    assert_eq!(ctx.output_json_string().unwrap(), "true");
}

// A second root beside a complete one is refused.
#[test]
fn test_single_root() {
    let mut ctx = Context::new(ValueStore::new(1));
    ctx.write_null().unwrap();
    assert_eq!(ctx.write_bool(true), Err(WriteError::InvalidState));
}

// Tokens are not portable across stores: a cache cell resolved against one
// store re-interns against a fresh store with a different identity, rather
// than trusting the stale token.
#[test]
fn test_cache_not_reused_across_stores() {
    let (mut first, root1) = parse_json(r#"{"num": 1}"#, 1).unwrap();
    let mut cell = CachedInternedStringId::new("num");
    let f1 = interned_prop(&mut first, root1, &mut cell);
    assert!(!f1.is_null(&first));
    assert_eq!(first.interns(), 1);

    let (mut second, root2) = parse_json(r#"{"num": 2}"#, 2).unwrap();
    let f2 = interned_prop(&mut second, root2, &mut cell);
    assert!(!f2.is_null(&second));
    // the cell noticed the new store and interned once there too
    assert_eq!(second.interns(), 1);
    assert_eq!(second.token_lookups(), 1);

    // against a store carrying the identity the cell is bound to, the token
    // is trusted from the cache — which is why at most one live store may
    // carry a given identity
    let (mut third, root3) = parse_json(r#"{"num": 3}"#, 2).unwrap();
    let f3 = interned_prop(&mut third, root3, &mut cell);
    assert!(!f3.is_null(&third));
    assert_eq!(third.interns(), 0);
    assert_eq!(third.token_lookups(), 1);
}
