//! The laws that relate the decoding rules across functions: what absence
//! and explicit null mean for each kind of field, and where an unknown union
//! member goes.

use vstd::prelude::*;
use crate::decimal::{lemma_decimal_round_trip, Decimal};
use crate::input::{InputCartLinesMerchandise, MerchandiseV};
use crate::json_value::JsonValue;
use crate::read::{
    defaultable_field_spec, field_spec, req_field_spec, HasSpecDefault, ReadError,
    WasmDeserialize,
};
use crate::store::{as_string_spec, obj_lookup, prop_lookup, JVal};
use crate::write::WasmSerialize;

verus! {

/// Round trip of every scalar codec: decoding what a codec encoded gives
/// back exactly the same value. For the decimal codec this holds in both
/// renderings, even though the two renderings of an integer differ as
/// strings.
pub proof fn lemma_codec_round_trip(d: Decimal, n: i64, b: bool, s: Seq<char>, j: JVal)
    requires
        d.wf(),
    ensures
        Decimal::decode_spec(Decimal::encoded(d)) == Ok::<Decimal, ReadError>(d),
        i64::decode_spec(i64::encoded(n)) == Ok::<i64, ReadError>(n),
        bool::decode_spec(bool::encoded(b)) == Ok::<bool, ReadError>(b),
        String::decode_spec(String::encoded(s)) == Ok::<Seq<char>, ReadError>(s),
        JsonValue::decode_spec(JsonValue::encoded(j)) == Ok::<JVal, ReadError>(j),
{
    lemma_decimal_round_trip(d);
}

/// A key that no property carries looks up to null: absence and explicit
/// null are indistinguishable at the value layer, by design.
pub proof fn lemma_absent_key_is_null(pairs: Seq<(Seq<char>, JVal)>, name: Seq<char>)
    requires
        forall|k: int| 0 <= k < pairs.len() ==> (#[trigger] pairs[k]).0 != name,
    ensures
        obj_lookup(pairs, name) is Null,
    decreases pairs.len(),
{
    if pairs.len() > 0 {
        assert(pairs[0].0 != name);
        assert forall|k: int| 0 <= k < pairs.skip(1).len() implies (#[trigger] pairs.skip(1)[k]).0
            != name by {
            assert(pairs.skip(1)[k] == pairs[k + 1]);
        }
        lemma_absent_key_is_null(pairs.skip(1), name);
    }
}

/// Null/missing unification: whenever a field's property looks up to null —
/// which covers both an omitted key and an explicit null — a defaultable
/// field decodes to the type's default, an optional field decodes to
/// nothing, and a required field is the missing-field error.
pub proof fn lemma_null_missing_unification<T: WasmDeserialize + HasSpecDefault>(
    pairs: Seq<(Seq<char>, JVal)>,
    name: Seq<char>,
)
    requires
        obj_lookup(pairs, name) is Null,
    ensures
        defaultable_field_spec::<T>(JVal::Obj(pairs), name) == Ok::<
            <T as DeepView>::V,
            ReadError,
        >(T::default_spec()),
        field_spec::<Option<T>>(JVal::Obj(pairs), name) == Ok::<
            Option<<T as DeepView>::V>,
            ReadError,
        >(None),
        req_field_spec::<T>(JVal::Obj(pairs), name) == Err::<<T as DeepView>::V, ReadError>(
            ReadError::MissingOrInvalidField,
        ),
{
}

/// Discriminated-union fallback: an object whose discriminator is a string
/// that matches no declared member decodes to the catch-all variant rather
/// than failing.
pub proof fn lemma_union_fallback(v: JVal, t: Seq<char>)
    requires
        as_string_spec(prop_lookup(v, "__typename"@)) == Some(t),
        t != "ProductVariant"@,
    ensures
        InputCartLinesMerchandise::decode_spec(v) == Ok::<MerchandiseV, ReadError>(
            MerchandiseV::Other,
        ),
{
}

} // verus!
