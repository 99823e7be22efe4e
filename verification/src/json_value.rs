//! An owned, free-form JSON value: the host's closed tag set mirrored into a
//! native tree. Object properties keep their insertion order.

use vstd::prelude::*;
use crate::decimal::Decimal;
use crate::store::JVal;

verus! {

/// One named property of an owned JSON object.
#[derive(Debug)]
pub struct JsonProp {
    pub key: String,
    pub value: JsonValue,
}

/// An owned JSON-like value over the store's tag set.
#[derive(Debug)]
pub enum JsonValue {
    Null,
    String(String),
    Number(Decimal),
    Boolean(bool),
    Object(Vec<JsonProp>),
    Array(Vec<JsonValue>),
}

/// The mathematical value of an owned JSON tree.
pub open spec fn jv_view(v: JsonValue) -> JVal
    decreases v,
{
    match v {
        JsonValue::Null => JVal::Null,
        JsonValue::String(s) => JVal::Str(s@),
        JsonValue::Number(d) => JVal::Num(d),
        JsonValue::Boolean(b) => JVal::Bool(b),
        JsonValue::Object(o) => JVal::Obj(
            Seq::new(
                o@.len(),
                |k: int|
                    if 0 <= k < o@.len() {
                        (o@[k].key@, jv_view(o@[k].value))
                    } else {
                        (Seq::<char>::empty(), JVal::Null)
                    },
            ),
        ),
        JsonValue::Array(a) => JVal::Arr(
            Seq::new(
                a@.len(),
                |k: int|
                    if 0 <= k < a@.len() {
                        jv_view(a@[k])
                    } else {
                        JVal::Null
                    },
            ),
        ),
    }
}

/// Structural equality of two owned JSON trees: exactly equality of their
/// mathematical values.
pub fn json_eq(a: &JsonValue, b: &JsonValue) -> (r: bool)
    ensures
        r == (a@ == b@),
    decreases *a,
{
    match (a, b) {
        (JsonValue::Null, JsonValue::Null) => true,
        (JsonValue::String(x), JsonValue::String(y)) => crate::store::str_eq(
            x.as_str(),
            y.as_str(),
        ),
        (JsonValue::Number(x), JsonValue::Number(y)) => x.neg == y.neg && x.mantissa == y.mantissa
            && x.scale == y.scale,
        (JsonValue::Boolean(x), JsonValue::Boolean(y)) => x == y,
        (JsonValue::Object(xs), JsonValue::Object(ys)) => {
            let n = xs.len();
            if n != ys.len() {
                proof {
                    assert(a@->Obj_0.len() != b@->Obj_0.len());
                }
                return false;
            }
            let mut k: usize = 0;
            while k < n
                invariant
                    k <= n,
                    n == xs@.len(),
                    n == ys@.len(),
                    a == JsonValue::Object(*xs),
                    b == JsonValue::Object(*ys),
                    forall|t: int| 0 <= t < k ==> a@->Obj_0[t] == b@->Obj_0[t],
                decreases n - k,
            {
                proof {
                    assert(a@->Obj_0[k as int] == (xs@[k as int].key@, jv_view(xs@[k as int].value)));
                    assert(b@->Obj_0[k as int] == (ys@[k as int].key@, jv_view(ys@[k as int].value)));
                }
                if !crate::store::str_eq(xs[k].key.as_str(), ys[k].key.as_str()) {
                    return false;
                }
                if !json_eq(&xs[k].value, &ys[k].value) {
                    return false;
                }
                k = k + 1;
            }
            proof {
                assert(a@->Obj_0 =~= b@->Obj_0);
                assert(a@ =~= b@);
            }
            true
        },
        (JsonValue::Array(xs), JsonValue::Array(ys)) => {
            let n = xs.len();
            if n != ys.len() {
                proof {
                    assert(a@->Arr_0.len() != b@->Arr_0.len());
                }
                return false;
            }
            let mut k: usize = 0;
            while k < n
                invariant
                    k <= n,
                    n == xs@.len(),
                    n == ys@.len(),
                    a == JsonValue::Array(*xs),
                    b == JsonValue::Array(*ys),
                    forall|t: int| 0 <= t < k ==> a@->Arr_0[t] == b@->Arr_0[t],
                decreases n - k,
            {
                proof {
                    assert(a@->Arr_0[k as int] == jv_view(xs@[k as int]));
                    assert(b@->Arr_0[k as int] == jv_view(ys@[k as int]));
                }
                if !json_eq(&xs[k], &ys[k]) {
                    return false;
                }
                k = k + 1;
            }
            proof {
                assert(a@->Arr_0 =~= b@->Arr_0);
                assert(a@ =~= b@);
            }
            true
        },
        _ => false,
    }
}

impl PartialEq for JsonValue {
    fn eq(&self, other: &Self) -> (r: bool) {
        json_eq(self, other)
    }
}

impl vstd::std_specs::cmp::PartialEqSpecImpl for JsonValue {
    open spec fn obeys_eq_spec() -> bool {
        true
    }

    open spec fn eq_spec(&self, other: &Self) -> bool {
        jv_view(*self) == jv_view(*other)
    }
}

impl View for JsonValue {
    type V = JVal;

    open spec fn view(&self) -> JVal {
        jv_view(*self)
    }
}

impl DeepView for JsonValue {
    type V = JVal;

    open spec fn deep_view(&self) -> JVal {
        jv_view(*self)
    }
}

/// Every number in a value shape is canonical.
pub open spec fn jval_nums_wf(v: JVal) -> bool
    decreases v,
{
    match v {
        JVal::Num(d) => d.wf(),
        JVal::Arr(items) => forall|k: int|
            0 <= k < items.len() ==> jval_nums_wf(#[trigger] items[k]),
        JVal::Obj(pairs) => forall|k: int|
            0 <= k < pairs.len() ==> jval_nums_wf(#[trigger] pairs[k].1),
        _ => true,
    }
}

impl crate::read::WasmDeserialize for JsonValue {
    /// Every value shape mirrors into an owned tree: the decode is the
    /// identity on the mathematical value.
    open spec fn decode_spec(v: JVal) -> Result<JVal, crate::read::ReadError> {
        Ok(v)
    }

    open spec fn decoded_inv(self, store: crate::store::ValueStore, v: JVal) -> bool {
        true
    }

    proof fn decoded_inv_extends(
        self,
        s1: crate::store::ValueStore,
        s2: crate::store::ValueStore,
        v: JVal,
    ) {
    }

    fn deserialize(store: &mut crate::store::ValueStore, v: crate::store::Value) -> (r: Result<
        JsonValue,
        crate::read::ReadError,
    >) {
        decode_json_tree(store, v)
    }
}

/// Decode the elements of a stored array into owned trees.
fn decode_json_items(store: &mut crate::store::ValueStore, v: crate::store::Value) -> (r: Result<
    Vec<JsonValue>,
    crate::read::ReadError,
>)
    requires
        old(store).wf(),
        v.wf_for(*old(store)),
        v.view_in(*old(store)) is Arr,
    ensures
        final(store).wf(),
        final(store).extends(*old(store)),
        final(store).spec_nodes() == old(store).spec_nodes(),
        final(store).key_views() == old(store).key_views(),
        final(store).spec_interns() == old(store).spec_interns(),
        final(store).spec_token_lookups() == old(store).spec_token_lookups(),
        final(store).spec_string_lookups() >= old(store).spec_string_lookups(),
        match r {
            Ok(t) => t@.len() == v.view_in(*old(store))->Arr_0.len() && forall|k: int|
                0 <= k < t@.len() ==> jv_view(#[trigger] t@[k]) == v.view_in(
                    *old(store),
                )->Arr_0[k],
            Err(_) => false,
        },
    decreases v.spec_idx(), 0int,
{
    proof {
        crate::store::lemma_extends_refl(*store);
    }
    let ghost items = v.view_in(*old(store))->Arr_0;
    let n = match v.array_len(store) {
        Some(n) => n,
        None => {
            return Err(crate::read::ReadError::InvalidType);
        },
    };
    let mut out: Vec<JsonValue> = Vec::new();
    let mut i: usize = 0;
    while i < n
        invariant
            i <= n,
            old(store).wf(),
            store.wf(),
            store.extends(*old(store)),
            store.spec_nodes() == old(store).spec_nodes(),
            store.key_views() == old(store).key_views(),
            store.spec_interns() == old(store).spec_interns(),
            store.spec_token_lookups() == old(store).spec_token_lookups(),
            store.spec_string_lookups() >= old(store).spec_string_lookups(),
            v.wf_for(*store),
            v.view_in(*store) is Arr,
            items == v.view_in(*store)->Arr_0,
            n == items.len(),
            out@.len() == i,
            forall|t: int| 0 <= t < i ==> jv_view(#[trigger] out@[t]) == items[t],
        decreases n - i,
    {
        let item = v.get_at_index(store, i);
        let ghost mid = *store;
        let r0 = decode_json_tree(store, item);
        proof {
            crate::store::lemma_extends_trans(*store, mid, *old(store));
        }
        match r0 {
            Ok(jv) => {
                out.push(jv);
            },
            Err(e) => {
                return Err(e);
            },
        }
        i = i + 1;
    }
    Ok(out)
}

/// Decode the properties of a stored object into owned named trees.
fn decode_json_props(store: &mut crate::store::ValueStore, v: crate::store::Value) -> (r: Result<
    Vec<JsonProp>,
    crate::read::ReadError,
>)
    requires
        old(store).wf(),
        v.wf_for(*old(store)),
        v.view_in(*old(store)) is Obj,
    ensures
        final(store).wf(),
        final(store).extends(*old(store)),
        final(store).spec_nodes() == old(store).spec_nodes(),
        final(store).key_views() == old(store).key_views(),
        final(store).spec_interns() == old(store).spec_interns(),
        final(store).spec_token_lookups() == old(store).spec_token_lookups(),
        final(store).spec_string_lookups() >= old(store).spec_string_lookups(),
        match r {
            Ok(t) => t@.len() == v.view_in(*old(store))->Obj_0.len() && forall|k: int|
                0 <= k < t@.len() ==> (#[trigger] t@[k].key@, jv_view(t@[k].value)) == v.view_in(
                    *old(store),
                )->Obj_0[k],
            Err(_) => false,
        },
    decreases v.spec_idx(), 0int,
{
    proof {
        crate::store::lemma_extends_refl(*store);
    }
    let ghost pairs = v.view_in(*old(store))->Obj_0;
    let n = match v.obj_len(store) {
        Some(n) => n,
        None => {
            return Err(crate::read::ReadError::InvalidType);
        },
    };
    let mut out: Vec<JsonProp> = Vec::new();
    let mut i: usize = 0;
    while i < n
        invariant
            i <= n,
            old(store).wf(),
            store.wf(),
            store.extends(*old(store)),
            store.spec_nodes() == old(store).spec_nodes(),
            store.key_views() == old(store).key_views(),
            store.spec_interns() == old(store).spec_interns(),
            store.spec_token_lookups() == old(store).spec_token_lookups(),
            store.spec_string_lookups() >= old(store).spec_string_lookups(),
            v.wf_for(*store),
            v.view_in(*store) is Obj,
            pairs == v.view_in(*store)->Obj_0,
            n == pairs.len(),
            out@.len() == i,
            forall|t: int|
                0 <= t < i ==> (#[trigger] out@[t].key@, jv_view(out@[t].value)) == pairs[t],
        decreases n - i,
    {
        let key = match v.get_obj_key_at_index(store, i) {
            Some(k) => k,
            None => {
                return Err(crate::read::ReadError::InvalidType);
            },
        };
        let item = v.get_at_index(store, i);
        let ghost mid = *store;
        let r0 = decode_json_tree(store, item);
        proof {
            crate::store::lemma_extends_trans(*store, mid, *old(store));
        }
        match r0 {
            Ok(jv) => {
                out.push(JsonProp { key, value: jv });
            },
            Err(e) => {
                return Err(e);
            },
        }
        i = i + 1;
    }
    Ok(out)
}

/// Mirror one stored value into an owned tree: the identity on mathematical
/// values.
fn decode_json_tree(store: &mut crate::store::ValueStore, v: crate::store::Value) -> (r: Result<
    JsonValue,
    crate::read::ReadError,
>)
    requires
        old(store).wf(),
        v.wf_for(*old(store)),
    ensures
        final(store).wf(),
        final(store).extends(*old(store)),
        final(store).spec_nodes() == old(store).spec_nodes(),
        final(store).key_views() == old(store).key_views(),
        final(store).spec_interns() == old(store).spec_interns(),
        final(store).spec_token_lookups() == old(store).spec_token_lookups(),
        final(store).spec_string_lookups() >= old(store).spec_string_lookups(),
        match r {
            Ok(t) => t.deep_view() == v.view_in(*old(store)),
            Err(_) => false,
        },
    decreases v.spec_idx(), 1int,
{
    proof {
        crate::store::lemma_extends_refl(*store);
    }
    if v.is_null(store) {
        return Ok(JsonValue::Null);
    }
    match v.as_bool(store) {
        Some(b) => {
            return Ok(JsonValue::Boolean(b));
        },
        None => {},
    }
    match v.as_number(store) {
        Some(d) => {
            return Ok(JsonValue::Number(d));
        },
        None => {},
    }
    match v.as_string(store) {
        Some(s) => {
            return Ok(JsonValue::String(s));
        },
        None => {},
    }
    match v.array_len(store) {
        Some(_) => {
            let out = match decode_json_items(store, v) {
                Ok(o) => o,
                Err(e) => {
                    return Err(e);
                },
            };
            proof {
                let items = v.view_in(*old(store))->Arr_0;
                let got = jv_view(JsonValue::Array(out));
                assert(got->Arr_0.len() == items.len());
                assert forall|t: int| 0 <= t < items.len() implies got->Arr_0[t] == items[t] by {
                    assert(jv_view(out@[t]) == items[t]);
                }
                assert(got->Arr_0 =~= items);
                assert(v.view_in(*old(store)) is Arr);
                assert(got is Arr);
                assert(got == JVal::Arr(items));
                assert(v.view_in(*old(store)) == JVal::Arr(items));
            }
            return Ok(JsonValue::Array(out));
        },
        None => {},
    }
    match v.obj_len(store) {
        Some(_) => {
            let out = match decode_json_props(store, v) {
                Ok(o) => o,
                Err(e) => {
                    return Err(e);
                },
            };
            proof {
                let pairs = v.view_in(*old(store))->Obj_0;
                let got = jv_view(JsonValue::Object(out));
                assert(got->Obj_0.len() == pairs.len());
                assert forall|t: int| 0 <= t < pairs.len() implies got->Obj_0[t] == pairs[t] by {
                    assert((out@[t].key@, jv_view(out@[t].value)) == pairs[t]);
                }
                assert(got->Obj_0 =~= pairs);
                assert(v.view_in(*old(store)) is Obj);
                assert(got is Obj);
                assert(got == JVal::Obj(pairs));
                assert(v.view_in(*old(store)) == JVal::Obj(pairs));
            }
            return Ok(JsonValue::Object(out));
        },
        None => {},
    }
    Err(crate::read::ReadError::InvalidType)
}

impl crate::write::WasmSerialize for JsonValue {
    /// Every canonical-numbered tree can be encoded, and encodes to exactly
    /// its own mathematical value.
    open spec fn ser_ok(v: JVal) -> bool {
        jval_nums_wf(v)
    }

    open spec fn encoded(v: JVal) -> JVal {
        v
    }

    fn serialize(&self, context: &mut crate::context::Context) -> (r: Result<
        (),
        crate::context::WriteError,
    >) {
        encode_json_tree(self, context)
    }
}

/// Write the elements of an owned array into the open array frame.
fn encode_json_items(a: &Vec<JsonValue>, context: &mut crate::context::Context) -> (r: Result<
    (),
    crate::context::WriteError,
>)
    requires
        crate::context::out_wf(old(context).out_state()),
        old(context).nums_wf(),
        old(context).out_state().stack.len() > 0,
        old(context).out_state().stack.last() matches crate::context::FrameV::Arr {
            expected,
            items,
        } && items.len() == 0,
        forall|k: int| 0 <= k < a@.len() ==> jval_nums_wf(jv_view(#[trigger] a@[k])),
    ensures
        final(context).spec_store() == old(context).spec_store(),
        final(context).spec_input() == old(context).spec_input(),
        crate::context::out_wf(final(context).out_state()),
        final(context).nums_wf(),
        r == Ok::<(), crate::context::WriteError>(()),
        final(context).out_state() == (crate::context::OutState {
            stack: old(context).out_state().stack.update(
                old(context).out_state().stack.len() - 1,
                crate::context::FrameV::Arr {
                    expected: old(context).out_state().stack.last()->Arr_expected,
                    items: Seq::new(a@.len(), |k: int| jv_view(a@[k])),
                },
            ),
            ..old(context).out_state()
        }),
    decreases *a, 0int,
{
    let ghost pre = old(context).out_state();
    let ghost enc = Seq::new(a@.len(), |k: int| jv_view(a@[k]));
    let ghost top = pre.stack.len() - 1;
    let ghost expected = pre.stack.last()->Arr_expected;
    let n = a.len();
    let mut k: usize = 0;
    proof {
        assert(enc.take(0) =~= Seq::<JVal>::empty());
        assert(pre.stack.last()->Arr_items =~= enc.take(0));
        assert(pre.stack.last() =~= crate::context::FrameV::Arr { expected, items: enc.take(0) });
        assert(pre.stack.update(top, pre.stack.last()) =~= pre.stack);
        assert(context.out_state() =~= (crate::context::OutState {
            stack: pre.stack.update(
                top,
                crate::context::FrameV::Arr { expected, items: enc.take(0) },
            ),
            ..pre
        }));
    }
    while k < n
        invariant
            k <= n,
            n == a@.len(),
            enc == Seq::new(a@.len(), |t: int| jv_view(a@[t])),
            forall|t: int| 0 <= t < a@.len() ==> jval_nums_wf(jv_view(#[trigger] a@[t])),
            crate::context::out_wf(pre),
            pre.stack.len() > 0,
            top == pre.stack.len() - 1,
            pre.stack.last() is Arr,
            expected == pre.stack.last()->Arr_expected,
            context.out_state() == (crate::context::OutState {
                stack: pre.stack.update(
                    top,
                    crate::context::FrameV::Arr { expected, items: enc.take(k as int) },
                ),
                ..pre
            }),
            crate::context::out_wf(context.out_state()),
            context.nums_wf(),
            context.spec_store() == old(context).spec_store(),
            context.spec_input() == old(context).spec_input(),
        decreases n - k,
    {
        let r0 = encode_json_tree(&a[k], context);
        proof {
            let st = context.out_state();
            assert(st.stack =~= pre.stack.update(
                top,
                crate::context::FrameV::Arr { expected, items: enc.take(k + 1 as int) },
            )) by {
                assert(enc.take(k as int).push(enc[k as int]) =~= enc.take(k + 1 as int));
                assert(enc[k as int] == jv_view(a@[k as int]));
            }
            assert(st =~= (crate::context::OutState {
                stack: pre.stack.update(
                    top,
                    crate::context::FrameV::Arr { expected, items: enc.take(k + 1 as int) },
                ),
                ..pre
            }));
        }
        match r0 {
            Ok(()) => {},
            Err(e) => {
                return Err(e);
            },
        }
        k = k + 1;
    }
    proof {
        assert(enc.take(n as int) =~= enc);
    }
    Ok(())
}

/// Write the properties of an owned object into the open object frame.
fn encode_json_props(o: &Vec<JsonProp>, context: &mut crate::context::Context) -> (r: Result<
    (),
    crate::context::WriteError,
>)
    requires
        crate::context::out_wf(old(context).out_state()),
        old(context).nums_wf(),
        old(context).out_state().stack.len() > 0,
        old(context).out_state().stack.last() matches crate::context::FrameV::Obj {
            expected,
            pairs,
            pending,
        } && pairs.len() == 0 && pending is None,
        forall|k: int| 0 <= k < o@.len() ==> jval_nums_wf(jv_view(#[trigger] o@[k].value)),
    ensures
        final(context).spec_store() == old(context).spec_store(),
        final(context).spec_input() == old(context).spec_input(),
        crate::context::out_wf(final(context).out_state()),
        final(context).nums_wf(),
        r == Ok::<(), crate::context::WriteError>(()),
        final(context).out_state() == (crate::context::OutState {
            stack: old(context).out_state().stack.update(
                old(context).out_state().stack.len() - 1,
                crate::context::FrameV::Obj {
                    expected: old(context).out_state().stack.last()->Obj_expected,
                    pairs: Seq::new(o@.len(), |k: int| (o@[k].key@, jv_view(o@[k].value))),
                    pending: None,
                },
            ),
            ..old(context).out_state()
        }),
    decreases *o, 0int,
{
    let ghost pre = old(context).out_state();
    let ghost enc = Seq::new(o@.len(), |k: int| (o@[k].key@, jv_view(o@[k].value)));
    let ghost top = pre.stack.len() - 1;
    let ghost expected = pre.stack.last()->Obj_expected;
    let n = o.len();
    let mut k: usize = 0;
    proof {
        assert(enc.take(0) =~= Seq::<(Seq<char>, JVal)>::empty());
        assert(pre.stack.last()->Obj_pairs =~= enc.take(0));
        assert(pre.stack.last() =~= crate::context::FrameV::Obj {
            expected,
            pairs: enc.take(0),
            pending: None,
        });
        assert(pre.stack.update(top, pre.stack.last()) =~= pre.stack);
        assert(context.out_state() =~= (crate::context::OutState {
            stack: pre.stack.update(
                top,
                crate::context::FrameV::Obj { expected, pairs: enc.take(0), pending: None },
            ),
            ..pre
        }));
    }
    while k < n
        invariant
            k <= n,
            n == o@.len(),
            enc == Seq::new(o@.len(), |t: int| (o@[t].key@, jv_view(o@[t].value))),
            forall|t: int| 0 <= t < o@.len() ==> jval_nums_wf(jv_view(#[trigger] o@[t].value)),
            crate::context::out_wf(pre),
            pre.stack.len() > 0,
            top == pre.stack.len() - 1,
            pre.stack.last() is Obj,
            expected == pre.stack.last()->Obj_expected,
            context.out_state() == (crate::context::OutState {
                stack: pre.stack.update(
                    top,
                    crate::context::FrameV::Obj {
                        expected,
                        pairs: enc.take(k as int),
                        pending: None,
                    },
                ),
                ..pre
            }),
            crate::context::out_wf(context.out_state()),
            context.nums_wf(),
            context.spec_store() == old(context).spec_store(),
            context.spec_input() == old(context).spec_input(),
        decreases n - k,
    {
        let rk = context.write_utf8_str(o[k].key.as_str());
        proof {
            let st = context.out_state();
            assert(st.stack =~= pre.stack.update(
                top,
                crate::context::FrameV::Obj {
                    expected,
                    pairs: enc.take(k as int),
                    pending: Some(o@[k as int].key@),
                },
            ));
            assert(st =~= (crate::context::OutState {
                stack: pre.stack.update(
                    top,
                    crate::context::FrameV::Obj {
                        expected,
                        pairs: enc.take(k as int),
                        pending: Some(o@[k as int].key@),
                    },
                ),
                ..pre
            }));
        }
        match rk {
            Ok(()) => {},
            Err(e) => {
                return Err(e);
            },
        }
        let r0 = encode_json_tree(&o[k].value, context);
        proof {
            let st = context.out_state();
            assert(st.stack =~= pre.stack.update(
                top,
                crate::context::FrameV::Obj {
                    expected,
                    pairs: enc.take(k + 1 as int),
                    pending: None,
                },
            )) by {
                assert(enc.take(k as int).push(enc[k as int]) =~= enc.take(k + 1 as int));
                assert(enc[k as int] == (o@[k as int].key@, jv_view(o@[k as int].value)));
            }
            assert(st =~= (crate::context::OutState {
                stack: pre.stack.update(
                    top,
                    crate::context::FrameV::Obj {
                        expected,
                        pairs: enc.take(k + 1 as int),
                        pending: None,
                    },
                ),
                ..pre
            }));
        }
        match r0 {
            Ok(()) => {},
            Err(e) => {
                return Err(e);
            },
        }
        k = k + 1;
    }
    proof {
        assert(enc.take(n as int) =~= enc);
    }
    Ok(())
}

/// Encode one owned tree: the written value is exactly the tree's own
/// mathematical value.
fn encode_json_tree(v: &JsonValue, context: &mut crate::context::Context) -> (r: Result<
    (),
    crate::context::WriteError,
>)
    requires
        crate::context::out_wf(old(context).out_state()),
        crate::context::out_accepts_value(old(context).out_state()),
        old(context).nums_wf(),
        jval_nums_wf(jv_view(*v)),
    ensures
        final(context).spec_store() == old(context).spec_store(),
        final(context).spec_input() == old(context).spec_input(),
        crate::context::out_wf(final(context).out_state()),
        final(context).nums_wf(),
        r == Ok::<(), crate::context::WriteError>(()),
        final(context).out_state() == crate::context::out_push_value(
            old(context).out_state(),
            jv_view(*v),
        ),
    decreases *v, 1int,
{
    let ghost pre = old(context).out_state();
    match v {
        JsonValue::Null => context.write_null(),
        JsonValue::Boolean(b) => context.write_bool(*b),
        JsonValue::Number(d) => context.write_num(*d),
        JsonValue::String(s) => {
            proof {
                crate::write::lemma_push_str_is_value(pre, s@);
            }
            context.write_utf8_str(s.as_str())
        },
        JsonValue::Array(a) => {
            let n = a.len();
            let r0 = context.write_array_begin(n);
            match r0 {
                Ok(()) => {},
                Err(e) => {
                    return Err(e);
                },
            }
            proof {
                assert(forall|k: int|
                    0 <= k < a@.len() ==> jval_nums_wf(jv_view(#[trigger] a@[k]))) by {
                    assert(jval_nums_wf(jv_view(JsonValue::Array(*a))));
                    assert forall|k: int| 0 <= k < a@.len() implies jval_nums_wf(
                        jv_view(#[trigger] a@[k]),
                    ) by {
                        assert(jv_view(JsonValue::Array(*a))->Arr_0[k] == jv_view(a@[k]));
                    }
                }
            }
            let r1 = encode_json_items(a, context);
            match r1 {
                Ok(()) => {},
                Err(e) => {
                    return Err(e);
                },
            }
            let r2 = context.write_array_end();
            proof {
                let st = context.out_state();
                let enc = Seq::new(a@.len(), |k: int| jv_view(a@[k]));
                assert(st =~= crate::context::out_push_value(pre, jv_view(*v))) by {
                    assert(pre.stack.push(
                        crate::context::FrameV::Arr { expected: n as int, items: enc },
                    ).drop_last() =~= pre.stack);
                    assert(jv_view(*v)->Arr_0 =~= enc);
                    assert(jv_view(*v) == JVal::Arr(enc));
                }
            }
            r2
        },
        JsonValue::Object(o) => {
            let n = o.len();
            let r0 = context.write_object_begin(n);
            match r0 {
                Ok(()) => {},
                Err(e) => {
                    return Err(e);
                },
            }
            proof {
                assert(forall|k: int|
                    0 <= k < o@.len() ==> jval_nums_wf(jv_view(#[trigger] o@[k].value))) by {
                    assert(jval_nums_wf(jv_view(JsonValue::Object(*o))));
                    assert forall|k: int| 0 <= k < o@.len() implies jval_nums_wf(
                        jv_view(#[trigger] o@[k].value),
                    ) by {
                        assert(jv_view(JsonValue::Object(*o))->Obj_0[k].1 == jv_view(
                            o@[k].value,
                        ));
                    }
                }
            }
            let r1 = encode_json_props(o, context);
            match r1 {
                Ok(()) => {},
                Err(e) => {
                    return Err(e);
                },
            }
            let r2 = context.write_object_end();
            proof {
                let st = context.out_state();
                let enc = Seq::new(o@.len(), |k: int| (o@[k].key@, jv_view(o@[k].value)));
                assert(st =~= crate::context::out_push_value(pre, jv_view(*v))) by {
                    assert(pre.stack.push(
                        crate::context::FrameV::Obj {
                            expected: n as int,
                            pairs: enc,
                            pending: None,
                        },
                    ).drop_last() =~= pre.stack);
                    assert(jv_view(*v)->Obj_0 =~= enc);
                    assert(jv_view(*v) == JVal::Obj(enc));
                }
            }
            r2
        },
    }
}

} // verus!
