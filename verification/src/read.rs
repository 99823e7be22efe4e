//! The decode half of the capability: every scalar, struct and enum type of
//! the system decodes from a value handle, and structural types compose the
//! capability recursively.

use vstd::prelude::*;
use crate::decimal::{spec_parse_decimal, Decimal};
use crate::intern::CachedInternedStringId;
use crate::store::{
    as_bool_spec, as_number_spec, as_string_spec, inc, prop_lookup, JVal, Value, ValueStore,
};

verus! {

/// Why a decode failed.
#[derive(Debug, Clone, Copy, PartialEq, Eq, Structural)]
pub enum ReadError {
    /// Tag mismatch, or a malformed scalar string.
    InvalidType,
    /// A required field was absent or null.
    MissingOrInvalidField,
}

impl ReadError {
    /// A short description of the error.
    pub fn message(&self) -> (r: &'static str)
        ensures
            *self is InvalidType ==> r@ == "Invalid type"@,
            *self is MissingOrInvalidField ==> r@ == "Missing or invalid field"@,
    {
        match self {
            ReadError::InvalidType => "Invalid type",
            ReadError::MissingOrInvalidField => "Missing or invalid field",
        }
    }
}

/// An executable decode result agrees with its specified one: same success,
/// same value up to the view, same error.
pub open spec fn decode_rel<T: DeepView>(r: Result<T, ReadError>, s: Result<
    <T as DeepView>::V,
    ReadError,
>) -> bool {
    match r {
        Ok(t) => s matches Ok(w) && t.deep_view() == w,
        Err(e1) => s matches Err(e2) && e1 == e2,
    }
}

/// The decode capability. Decoding is a pure function of the value's shape:
/// the store's content never changes, no interning happens, and only lookup
/// counters may move. What comes back is exactly `decode_spec` of the
/// value's shape.
pub trait WasmDeserialize: Sized + DeepView {
    /// What decoding yields on each value shape.
    spec fn decode_spec(v: JVal) -> Result<Self::V, ReadError>;

    /// What a successfully decoded native value remembers about the store it
    /// was decoded from (lazy types keep their root handle; eager types need
    /// nothing).
    spec fn decoded_inv(self, store: ValueStore, v: JVal) -> bool;

    /// A decoded value's memory survives any growth of the store.
    proof fn decoded_inv_extends(self, s1: ValueStore, s2: ValueStore, v: JVal)
        requires
            s1.wf(),
            self.decoded_inv(s1, v),
            s2.extends(s1),
        ensures
            self.decoded_inv(s2, v),
    ;

    /// Decode one value.
    fn deserialize(store: &mut ValueStore, v: Value) -> (r: Result<Self, ReadError>)
        requires
            old(store).wf(),
            v.wf_for(*old(store)),
        ensures
            final(store).wf(),
            final(store).extends(*old(store)),
            final(store).spec_nodes() == old(store).spec_nodes(),
            final(store).key_views() == old(store).key_views(),
            final(store).spec_interns() == old(store).spec_interns(),
            final(store).spec_token_lookups() == old(store).spec_token_lookups(),
            final(store).spec_string_lookups() >= old(store).spec_string_lookups(),
            decode_rel::<Self>(r, Self::decode_spec(v.view_in(*old(store)))),
            r matches Ok(t) ==> t.decoded_inv(*final(store), v.view_in(*old(store))),
    ;
}

impl WasmDeserialize for bool {
    open spec fn decode_spec(v: JVal) -> Result<bool, ReadError> {
        match as_bool_spec(v) {
            Some(b) => Ok(b),
            None => Err(ReadError::InvalidType),
        }
    }

    open spec fn decoded_inv(self, store: ValueStore, v: JVal) -> bool {
        true
    }

    proof fn decoded_inv_extends(self, s1: ValueStore, s2: ValueStore, v: JVal) {
    }

    fn deserialize(store: &mut ValueStore, v: Value) -> (r: Result<bool, ReadError>) {
        proof {
            crate::store::lemma_extends_refl(*store);
        }
        match v.as_bool(store) {
            Some(b) => Ok(b),
            None => Err(ReadError::InvalidType),
        }
    }
}

impl WasmDeserialize for i64 {
    open spec fn decode_spec(v: JVal) -> Result<i64, ReadError> {
        match as_number_spec(v) {
            Some(d) => if d.scale == 0 && d.num() >= i64::MIN && d.num() <= i64::MAX {
                Ok(d.num() as i64)
            } else {
                Err(ReadError::InvalidType)
            },
            None => Err(ReadError::InvalidType),
        }
    }

    open spec fn decoded_inv(self, store: ValueStore, v: JVal) -> bool {
        true
    }

    proof fn decoded_inv_extends(self, s1: ValueStore, s2: ValueStore, v: JVal) {
    }

    fn deserialize(store: &mut ValueStore, v: Value) -> (r: Result<i64, ReadError>) {
        proof {
            crate::store::lemma_extends_refl(*store);
        }
        match v.as_number(store) {
            Some(d) => {
                if d.scale != 0 {
                    return Err(ReadError::InvalidType);
                }
                if d.neg {
                    if d.mantissa <= i64::MAX as u64 {
                        Ok(-(d.mantissa as i64))
                    } else if d.mantissa == i64::MAX as u64 + 1 {
                        Ok(i64::MIN)
                    } else {
                        Err(ReadError::InvalidType)
                    }
                } else {
                    if d.mantissa <= i64::MAX as u64 {
                        Ok(d.mantissa as i64)
                    } else {
                        Err(ReadError::InvalidType)
                    }
                }
            },
            None => Err(ReadError::InvalidType),
        }
    }
}

impl WasmDeserialize for String {
    open spec fn decode_spec(v: JVal) -> Result<Seq<char>, ReadError> {
        match as_string_spec(v) {
            Some(s) => Ok(s),
            None => Err(ReadError::InvalidType),
        }
    }

    open spec fn decoded_inv(self, store: ValueStore, v: JVal) -> bool {
        true
    }

    proof fn decoded_inv_extends(self, s1: ValueStore, s2: ValueStore, v: JVal) {
    }

    fn deserialize(store: &mut ValueStore, v: Value) -> (r: Result<String, ReadError>) {
        proof {
            crate::store::lemma_extends_refl(*store);
        }
        match v.as_string(store) {
            Some(s) => Ok(s),
            None => Err(ReadError::InvalidType),
        }
    }
}

impl WasmDeserialize for Decimal {
    /// The decimal scalar travels as a string under the strict grammar.
    open spec fn decode_spec(v: JVal) -> Result<Decimal, ReadError> {
        match as_string_spec(v) {
            Some(s) => match spec_parse_decimal(s) {
                Some(d) => Ok(d),
                None => Err(ReadError::InvalidType),
            },
            None => Err(ReadError::InvalidType),
        }
    }

    open spec fn decoded_inv(self, store: ValueStore, v: JVal) -> bool {
        true
    }

    proof fn decoded_inv_extends(self, s1: ValueStore, s2: ValueStore, v: JVal) {
    }

    fn deserialize(store: &mut ValueStore, v: Value) -> (r: Result<Decimal, ReadError>) {
        proof {
            crate::store::lemma_extends_refl(*store);
        }
        match v.as_string(store) {
            Some(s) => match crate::decimal::parse_decimal(s.as_str()) {
                Some(d) => Ok(d),
                None => Err(ReadError::InvalidType),
            },
            None => Err(ReadError::InvalidType),
        }
    }
}

impl<T: WasmDeserialize> WasmDeserialize for Option<T> {
    /// Null decodes to nothing, so a missing field and an explicit null both
    /// yield `None`; anything else decodes as the inner type.
    open spec fn decode_spec(v: JVal) -> Result<Option<<T as DeepView>::V>, ReadError> {
        if v is Null {
            Ok(None)
        } else {
            match T::decode_spec(v) {
                Ok(t) => Ok(Some(t)),
                Err(e) => Err(e),
            }
        }
    }

    open spec fn decoded_inv(self, store: ValueStore, v: JVal) -> bool {
        match self {
            Some(t) => t.decoded_inv(store, v),
            None => true,
        }
    }

    proof fn decoded_inv_extends(self, s1: ValueStore, s2: ValueStore, v: JVal) {
        match self {
            Some(t) => t.decoded_inv_extends(s1, s2, v),
            None => {},
        }
    }

    fn deserialize(store: &mut ValueStore, v: Value) -> (r: Result<Option<T>, ReadError>) {
        proof {
            crate::store::lemma_extends_refl(*store);
        }
        if v.is_null(store) {
            Ok(None)
        } else {
            match T::deserialize(store, v) {
                Ok(t) => Ok(Some(t)),
                Err(e) => Err(e),
            }
        }
    }
}

/// Elementwise decoding of an array's items, stopping at the first error.
pub open spec fn decode_seq<T: WasmDeserialize>(items: Seq<JVal>) -> Result<
    Seq<<T as DeepView>::V>,
    ReadError,
>
    decreases items.len(),
{
    if items.len() == 0 {
        Ok(Seq::empty())
    } else {
        match T::decode_spec(items[0]) {
            Ok(h) => match decode_seq::<T>(items.skip(1)) {
                Ok(t) => Ok(seq![h] + t),
                Err(e) => Err(e),
            },
            Err(e) => Err(e),
        }
    }
}

proof fn lemma_decode_seq_step<T: WasmDeserialize>(items: Seq<JVal>, j: int)
    requires
        0 <= j < items.len(),
    ensures
        decode_seq::<T>(items.skip(j)) == (match T::decode_spec(items[j]) {
            Ok(h) => match decode_seq::<T>(items.skip(j + 1)) {
                Ok(t) => Ok::<Seq<<T as DeepView>::V>, ReadError>(seq![h] + t),
                Err(e) => Err::<Seq<<T as DeepView>::V>, ReadError>(e),
            },
            Err(e) => Err::<Seq<<T as DeepView>::V>, ReadError>(e),
        }),
{
    assert(items.skip(j)[0] == items[j]);
    assert(items.skip(j).skip(1) =~= items.skip(j + 1));
    assert(items.skip(j).len() > 0);
}

proof fn lemma_decode_seq_all<T: WasmDeserialize>(items: Seq<JVal>, j: int, acc: Seq<
    <T as DeepView>::V,
>)
    requires
        0 <= j <= items.len(),
        decode_seq::<T>(items) == (match decode_seq::<T>(items.skip(j)) {
            Ok(t) => Ok::<Seq<<T as DeepView>::V>, ReadError>(acc + t),
            Err(e) => Err::<Seq<<T as DeepView>::V>, ReadError>(e),
        }),
        j == items.len(),
    ensures
        decode_seq::<T>(items) == Ok::<Seq<<T as DeepView>::V>, ReadError>(acc),
{
    assert(items.skip(j) =~= Seq::<JVal>::empty());
    assert(decode_seq::<T>(items.skip(j)) == Ok::<Seq<<T as DeepView>::V>, ReadError>(
        Seq::empty(),
    ));
    assert(acc + Seq::<<T as DeepView>::V>::empty() =~= acc);
}

impl<T: WasmDeserialize> WasmDeserialize for Vec<T> {
    open spec fn decode_spec(v: JVal) -> Result<Seq<<T as DeepView>::V>, ReadError> {
        match v {
            JVal::Arr(items) => decode_seq::<T>(items),
            _ => Err(ReadError::InvalidType),
        }
    }

    open spec fn decoded_inv(self, store: ValueStore, v: JVal) -> bool {
        v is Arr && self@.len() == v->Arr_0.len() && forall|k: int|
            0 <= k < self@.len() ==> (#[trigger] self@[k]).decoded_inv(store, v->Arr_0[k])
    }

    proof fn decoded_inv_extends(self, s1: ValueStore, s2: ValueStore, v: JVal) {
        assert forall|k: int| 0 <= k < self@.len() implies (#[trigger] self@[k]).decoded_inv(
            s2,
            v->Arr_0[k],
        ) by {
            self@[k].decoded_inv_extends(s1, s2, v->Arr_0[k]);
        }
    }

    fn deserialize(store: &mut ValueStore, v: Value) -> (r: Result<Vec<T>, ReadError>) {
        proof {
            crate::store::lemma_extends_refl(*store);
        }
        let n = match v.array_len(store) {
            Some(n) => n,
            None => {
                return Err(ReadError::InvalidType);
            },
        };
        let ghost whole = v.view_in(*old(store));
        let ghost items = whole->Arr_0;
        let mut out: Vec<T> = Vec::new();
        let mut i: usize = 0;
        proof {
            assert(items.skip(0) =~= items);
            assert(out.deep_view() =~= Seq::<<T as DeepView>::V>::empty());
            let s = decode_seq::<T>(items.skip(0));
            if s is Ok {
                assert(out.deep_view() + s->Ok_0 =~= s->Ok_0);
            }
        }
        while i < n
            invariant
                i <= n,
                old(store).wf(),
                store.wf(),
                store.extends(*old(store)),
                store.spec_nodes() == old(store).spec_nodes(),
                store.key_views() == old(store).key_views(),
                store.spec_interns() == old(store).spec_interns(),
                store.spec_token_lookups() == old(store).spec_token_lookups(),
                store.spec_string_lookups() >= old(store).spec_string_lookups(),
                v.wf_for(*old(store)),
                whole == v.view_in(*old(store)),
                whole is Arr,
                items == whole->Arr_0,
                n == items.len(),
                out.deep_view().len() == i,
                decode_seq::<T>(items) == (match decode_seq::<T>(items.skip(i as int)) {
                    Ok(t) => Ok::<Seq<<T as DeepView>::V>, ReadError>(out.deep_view() + t),
                    Err(e) => Err::<Seq<<T as DeepView>::V>, ReadError>(e),
                }),
                forall|k: int|
                    0 <= k < out@.len() ==> (#[trigger] out@[k]).decoded_inv(*store, items[k]),
            decreases n - i,
        {
            let ghost store_pre = *store;
            proof {
                crate::store::lemma_value_view_extends(*old(store), *store, v);
            }
            let item = v.get_at_index(store, i);
            let ghost pre_dv = out.deep_view();
            match T::deserialize(store, item) {
                Ok(t) => {
                    proof {
                        lemma_decode_seq_step::<T>(items, i as int);
                        crate::store::lemma_extends_trans(*store, store_pre, *old(store));
                        let s = decode_seq::<T>(items.skip(i + 1));
                        if s is Ok {
                            assert(pre_dv + (seq![t.deep_view()] + s->Ok_0) =~= pre_dv.push(
                                t.deep_view(),
                            ) + s->Ok_0);
                        }
                        assert forall|k: int| 0 <= k < out@.len() implies (
                        #[trigger] out@[k]).decoded_inv(*store, items[k]) by {
                            out@[k].decoded_inv_extends(store_pre, *store, items[k]);
                        }
                        t.decoded_inv_extends(*store, *store, items[i as int]);
                    }
                    out.push(t);
                    proof {
                        assert(out.deep_view() =~= pre_dv.push(t.deep_view()));
                    }
                },
                Err(e) => {
                    proof {
                        lemma_decode_seq_step::<T>(items, i as int);
                        crate::store::lemma_extends_trans(*store, store_pre, *old(store));
                    }
                    return Err(e);
                },
            }
            i = i + 1;
        }
        proof {
            lemma_decode_seq_all::<T>(items, n as int, out.deep_view());
        }
        Ok(out)
    }
}

/// Fetch a field by its literal name and decode it, requiring it to be
/// present and not null: the two are indistinguishable, and both are the
/// missing-field error. One counted lookup by string.
pub fn decode_required_field<T: WasmDeserialize>(
    store: &mut ValueStore,
    obj: Value,
    name: &str,
) -> (r: Result<T, ReadError>)
    requires
        old(store).wf(),
        obj.wf_for(*old(store)),
    ensures
        final(store).wf(),
        final(store).extends(*old(store)),
        final(store).spec_nodes() == old(store).spec_nodes(),
        final(store).key_views() == old(store).key_views(),
        final(store).spec_interns() == old(store).spec_interns(),
        final(store).spec_token_lookups() == old(store).spec_token_lookups(),
        final(store).spec_string_lookups() >= old(store).spec_string_lookups(),
        ({
            let f = prop_lookup(obj.view_in(*old(store)), name@);
            if f is Null {
                r == Err::<T, ReadError>(ReadError::MissingOrInvalidField)
            } else {
                decode_rel::<T>(r, T::decode_spec(f))
            }
        }),
{
    let ghost pre = *store;
    let field = obj.get_obj_prop(store, name);
    proof {
        crate::store::lemma_same_content_extends(*store, pre);
    }
    if field.is_null(store) {
        return Err(ReadError::MissingOrInvalidField);
    }
    let ghost mid = *store;
    let r = T::deserialize(store, field);
    proof {
        crate::store::lemma_extends_trans(*store, mid, pre);
    }
    r
}

/// Fetch a field through the interning cache: the first fetch per store
/// interns the literal, and every fetch costs exactly one lookup by token
/// and no lookup by string.
pub fn interned_prop(
    store: &mut ValueStore,
    obj: Value,
    cell: &mut CachedInternedStringId,
) -> (r: Value)
    requires
        old(store).wf(),
        obj.wf_for(*old(store)),
        old(cell).wf_for(*old(store)),
    ensures
        final(store).wf(),
        final(store).extends(*old(store)),
        final(store).spec_nodes() == old(store).spec_nodes(),
        final(cell).wf_for(*final(store)),
        final(cell).spec_literal() == old(cell).spec_literal(),
        final(cell).hit(*final(store)),
        r.wf_for(*final(store)),
        r.view_in(*final(store)) == prop_lookup(
            obj.view_in(*old(store)),
            old(cell).spec_literal(),
        ),
        final(store).spec_token_lookups() == inc(old(store).spec_token_lookups()),
        final(store).spec_string_lookups() == old(store).spec_string_lookups(),
        old(cell).hit(*old(store)) ==> final(store).spec_interns() == old(store).spec_interns(),
        !old(cell).hit(*old(store)) ==> final(store).spec_interns() == inc(
            old(store).spec_interns(),
        ),
{
    let ghost pre = *store;
    let tok = cell.load_from_value(store);
    proof {
        crate::store::lemma_value_view_extends(pre, *store, obj);
    }
    let ghost mid = *store;
    let r = obj.get_interned_obj_prop(store, tok);
    proof {
        crate::store::lemma_same_content_extends(*store, mid);
        crate::store::lemma_extends_trans(*store, mid, pre);
    }
    r
}

/// What a required field decodes to: absence and explicit null are the same,
/// and both are the missing-field error.
pub open spec fn req_field_spec<T: WasmDeserialize>(v: JVal, name: Seq<char>) -> Result<
    <T as DeepView>::V,
    ReadError,
> {
    let f = prop_lookup(v, name);
    if f is Null {
        Err(ReadError::MissingOrInvalidField)
    } else {
        T::decode_spec(f)
    }
}

/// What a plain field decodes to: the property's value as the target type,
/// with absence indistinguishable from explicit null.
pub open spec fn field_spec<T: WasmDeserialize>(v: JVal, name: Seq<char>) -> Result<
    <T as DeepView>::V,
    ReadError,
> {
    T::decode_spec(prop_lookup(v, name))
}

/// Fetch a field by its literal name and decode it. One counted lookup by
/// string; a missing key hands the decoder the null value.
pub fn decode_field<T: WasmDeserialize>(store: &mut ValueStore, obj: Value, name: &str) -> (r:
    Result<T, ReadError>)
    requires
        old(store).wf(),
        obj.wf_for(*old(store)),
    ensures
        final(store).wf(),
        final(store).extends(*old(store)),
        final(store).spec_nodes() == old(store).spec_nodes(),
        final(store).key_views() == old(store).key_views(),
        final(store).spec_interns() == old(store).spec_interns(),
        final(store).spec_token_lookups() == old(store).spec_token_lookups(),
        final(store).spec_string_lookups() >= old(store).spec_string_lookups(),
        decode_rel::<T>(r, field_spec::<T>(obj.view_in(*old(store)), name@)),
{
    let ghost pre = *store;
    let field = obj.get_obj_prop(store, name);
    proof {
        crate::store::lemma_same_content_extends(*store, pre);
    }
    let ghost mid = *store;
    let r = T::deserialize(store, field);
    proof {
        crate::store::lemma_extends_trans(*store, mid, pre);
    }
    r
}

/// A type with a declared default, used when a defaultable field is absent
/// or null.
pub trait HasSpecDefault: Sized + DeepView {
    /// What the default is.
    spec fn default_spec() -> Self::V;

    /// Produce the default.
    fn default_value() -> (r: Self)
        ensures
            r.deep_view() == Self::default_spec(),
    ;
}

impl HasSpecDefault for bool {
    open spec fn default_spec() -> bool {
        false
    }

    fn default_value() -> (r: bool) {
        false
    }
}

impl HasSpecDefault for i64 {
    open spec fn default_spec() -> i64 {
        0
    }

    fn default_value() -> (r: i64) {
        0
    }
}

impl HasSpecDefault for String {
    open spec fn default_spec() -> Seq<char> {
        Seq::empty()
    }

    fn default_value() -> (r: String) {
        String::new()
    }
}

impl HasSpecDefault for Decimal {
    open spec fn default_spec() -> Decimal {
        Decimal { neg: false, mantissa: 0, scale: 0 }
    }

    fn default_value() -> (r: Decimal) {
        Decimal { neg: false, mantissa: 0, scale: 0 }
    }
}

impl<T: WasmDeserialize> HasSpecDefault for Option<T> {
    open spec fn default_spec() -> Option<<T as DeepView>::V> {
        None
    }

    fn default_value() -> (r: Option<T>) {
        None
    }
}

impl<T: WasmDeserialize> HasSpecDefault for Vec<T> {
    open spec fn default_spec() -> Seq<<T as DeepView>::V> {
        Seq::empty()
    }

    fn default_value() -> (r: Vec<T>) {
        let r: Vec<T> = Vec::new();
        proof {
            assert(r.deep_view() =~= Seq::<<T as DeepView>::V>::empty());
        }
        r
    }
}

/// What a defaultable field decodes to: the declared default when the
/// property is null, which is also what a missing key produces — absence and
/// explicit null are unified here.
pub open spec fn defaultable_field_spec<T: WasmDeserialize + HasSpecDefault>(
    v: JVal,
    name: Seq<char>,
) -> Result<<T as DeepView>::V, ReadError> {
    let f = prop_lookup(v, name);
    if f is Null {
        Ok(T::default_spec())
    } else {
        T::decode_spec(f)
    }
}

/// Fetch a defaultable field: a null or missing property yields the type's
/// default instead of an error. One counted lookup by string.
pub fn decode_defaultable_field<T: WasmDeserialize + HasSpecDefault>(
    store: &mut ValueStore,
    obj: Value,
    name: &str,
) -> (r: Result<T, ReadError>)
    requires
        old(store).wf(),
        obj.wf_for(*old(store)),
    ensures
        final(store).wf(),
        final(store).extends(*old(store)),
        final(store).spec_nodes() == old(store).spec_nodes(),
        final(store).key_views() == old(store).key_views(),
        final(store).spec_interns() == old(store).spec_interns(),
        final(store).spec_token_lookups() == old(store).spec_token_lookups(),
        final(store).spec_string_lookups() >= old(store).spec_string_lookups(),
        decode_rel::<T>(r, defaultable_field_spec::<T>(obj.view_in(*old(store)), name@)),
{
    let ghost pre = *store;
    let field = obj.get_obj_prop(store, name);
    proof {
        crate::store::lemma_same_content_extends(*store, pre);
    }
    if field.is_null(store) {
        return Ok(T::default_value());
    }
    let ghost mid = *store;
    let r = T::deserialize(store, field);
    proof {
        crate::store::lemma_extends_trans(*store, mid, pre);
    }
    r
}

/// Open a one-of input object: exactly one of its declared fields must be
/// populated, so the value must be an object with exactly one property. Any
/// other shape is a type error. The caller dispatches on the returned key.
pub fn decode_one_of_key(store: &mut ValueStore, v: Value) -> (r: Result<
    (String, Value),
    ReadError,
>)
    requires
        old(store).wf(),
        v.wf_for(*old(store)),
    ensures
        final(store).wf(),
        *final(store) == *old(store),
        ({
            let w = v.view_in(*old(store));
            match r {
                Ok((k, inner)) => {
                    &&& w is Obj
                    &&& w->Obj_0.len() == 1
                    &&& k@ == w->Obj_0[0].0
                    &&& inner.wf_for(*old(store))
                    &&& inner.view_in(*old(store)) == w->Obj_0[0].1
                },
                Err(e) => e == ReadError::InvalidType && !(w is Obj && w->Obj_0.len() == 1),
            }
        }),
{
    let n = match v.obj_len(store) {
        Some(n) => n,
        None => {
            return Err(ReadError::InvalidType);
        },
    };
    if n != 1 {
        return Err(ReadError::InvalidType);
    }
    let key = match v.get_obj_key_at_index(store, 0) {
        Some(k) => k,
        None => {
            return Err(ReadError::InvalidType);
        },
    };
    let inner = v.get_at_index(store, 0);
    Ok((key, inner))
}

} // verus!
