//! The discount extension's input selection: the cart lines and the
//! configuration metafield, decoded eagerly field by field.

use vstd::prelude::*;
use crate::read::{
    decode_field, decode_required_field, field_spec, req_field_spec, ReadError, WasmDeserialize,
};
use crate::scalars::{Int, ID};
use crate::store::{as_string_spec, prop_lookup, JVal, Value, ValueStore};

verus! {

/// The product behind a cart line, discriminated by the host's member name;
/// an unknown member decodes to the catch-all variant rather than failing.
#[derive(Clone, Debug, PartialEq)]
pub enum InputCartLinesMerchandise {
    ProductVariant(InputCartLinesMerchandiseOnProductVariant),
    Other,
}

/// The product variant selection.
#[derive(Clone, Debug, PartialEq)]
pub struct InputCartLinesMerchandiseOnProductVariant {
    pub id: ID,
}

/// One cart line.
#[derive(Clone, Debug, PartialEq)]
pub struct CartLine {
    pub quantity: Int,
    pub merchandise: InputCartLinesMerchandise,
}

/// The cart.
#[derive(Clone, Debug, PartialEq)]
pub struct Cart {
    pub lines: Vec<CartLine>,
}

/// The configuration metafield.
#[derive(Clone, Debug, PartialEq)]
pub struct Metafield {
    pub value: String,
}

/// The discount node, whose metafield may be absent.
#[derive(Clone, Debug, PartialEq)]
pub struct DiscountNode {
    pub metafield: Option<Metafield>,
}

/// The whole input selection.
#[derive(Clone, Debug, PartialEq)]
pub struct ResponseData {
    pub cart: Cart,
    pub discount_node: DiscountNode,
}

/// The shape of a decoded merchandise value.
pub enum MerchandiseV {
    ProductVariant(Seq<char>),
    Other,
}

/// The shape of a decoded cart line.
pub struct CartLineV {
    pub quantity: i64,
    pub merchandise: MerchandiseV,
}

/// The shape of a decoded discount node.
pub struct DiscountNodeV {
    pub metafield: Option<Seq<char>>,
}

/// The shape of the decoded input selection.
pub struct ResponseDataV {
    pub lines: Seq<CartLineV>,
    pub metafield: Option<Seq<char>>,
}

impl DeepView for InputCartLinesMerchandiseOnProductVariant {
    type V = Seq<char>;

    open spec fn deep_view(&self) -> Seq<char> {
        self.id@
    }
}

impl WasmDeserialize for InputCartLinesMerchandiseOnProductVariant {
    open spec fn decode_spec(v: JVal) -> Result<Seq<char>, ReadError> {
        req_field_spec::<ID>(v, "id"@)
    }

    open spec fn decoded_inv(self, store: ValueStore, v: JVal) -> bool {
        true
    }

    proof fn decoded_inv_extends(self, s1: ValueStore, s2: ValueStore, v: JVal) {
    }

    fn deserialize(store: &mut ValueStore, v: Value) -> (r: Result<
        InputCartLinesMerchandiseOnProductVariant,
        ReadError,
    >) {
        proof {
            reveal_strlit("id");
        }
        match decode_required_field::<ID>(store, v, "id") {
            Ok(id) => Ok(InputCartLinesMerchandiseOnProductVariant { id }),
            Err(e) => Err(e),
        }
    }
}

impl DeepView for InputCartLinesMerchandise {
    type V = MerchandiseV;

    open spec fn deep_view(&self) -> MerchandiseV {
        match self {
            InputCartLinesMerchandise::ProductVariant(p) => MerchandiseV::ProductVariant(p.id@),
            InputCartLinesMerchandise::Other => MerchandiseV::Other,
        }
    }
}

impl WasmDeserialize for InputCartLinesMerchandise {
    /// Dispatch on the discriminator property: a known member decodes its
    /// variant, an unknown member decodes to the catch-all rather than
    /// failing, and a non-string discriminator is a type error.
    open spec fn decode_spec(v: JVal) -> Result<MerchandiseV, ReadError> {
        match as_string_spec(prop_lookup(v, "__typename"@)) {
            Some(t) => if t == "ProductVariant"@ {
                match req_field_spec::<ID>(v, "id"@) {
                    Ok(id) => Ok(MerchandiseV::ProductVariant(id)),
                    Err(e) => Err(e),
                }
            } else {
                Ok(MerchandiseV::Other)
            },
            None => Err(ReadError::InvalidType),
        }
    }

    open spec fn decoded_inv(self, store: ValueStore, v: JVal) -> bool {
        true
    }

    proof fn decoded_inv_extends(self, s1: ValueStore, s2: ValueStore, v: JVal) {
    }

    fn deserialize(store: &mut ValueStore, v: Value) -> (r: Result<
        InputCartLinesMerchandise,
        ReadError,
    >) {
        proof {
            reveal_strlit("__typename");
            reveal_strlit("ProductVariant");
            reveal_strlit("id");
        }
        let ghost pre = *store;
        let tyv = v.get_obj_prop(store, "__typename");
        proof {
            crate::store::lemma_same_content_extends(*store, pre);
        }
        let ty = match tyv.as_string(store) {
            Some(t) => t,
            None => {
                return Err(ReadError::InvalidType);
            },
        };
        if crate::store::str_eq(ty.as_str(), "ProductVariant") {
            let ghost mid = *store;
            let r = decode_required_field::<ID>(store, v, "id");
            proof {
                crate::store::lemma_extends_trans(*store, mid, pre);
            }
            match r {
                Ok(id) => Ok(
                    InputCartLinesMerchandise::ProductVariant(
                        InputCartLinesMerchandiseOnProductVariant { id },
                    ),
                ),
                Err(e) => Err(e),
            }
        } else {
            Ok(InputCartLinesMerchandise::Other)
        }
    }
}

impl DeepView for CartLine {
    type V = CartLineV;

    open spec fn deep_view(&self) -> CartLineV {
        CartLineV { quantity: self.quantity, merchandise: self.merchandise.deep_view() }
    }
}

impl WasmDeserialize for CartLine {
    open spec fn decode_spec(v: JVal) -> Result<CartLineV, ReadError> {
        match req_field_spec::<Int>(v, "quantity"@) {
            Ok(q) => match InputCartLinesMerchandise::decode_spec(
                prop_lookup(v, "merchandise"@),
            ) {
                Ok(m) => Ok(CartLineV { quantity: q, merchandise: m }),
                Err(e) => Err(e),
            },
            Err(e) => Err(e),
        }
    }

    open spec fn decoded_inv(self, store: ValueStore, v: JVal) -> bool {
        true
    }

    proof fn decoded_inv_extends(self, s1: ValueStore, s2: ValueStore, v: JVal) {
    }

    fn deserialize(store: &mut ValueStore, v: Value) -> (r: Result<CartLine, ReadError>) {
        proof {
            reveal_strlit("quantity");
            reveal_strlit("merchandise");
        }
        let ghost pre = *store;
        let quantity = match decode_required_field::<Int>(store, v, "quantity") {
            Ok(q) => q,
            Err(e) => {
                return Err(e);
            },
        };
        let ghost mid = *store;
        let r = decode_field::<InputCartLinesMerchandise>(store, v, "merchandise");
        proof {
            crate::store::lemma_extends_trans(*store, mid, pre);
        }
        match r {
            Ok(merchandise) => Ok(CartLine { quantity, merchandise }),
            Err(e) => Err(e),
        }
    }
}

impl DeepView for Cart {
    type V = Seq<CartLineV>;

    open spec fn deep_view(&self) -> Seq<CartLineV> {
        self.lines.deep_view()
    }
}

impl WasmDeserialize for Cart {
    open spec fn decode_spec(v: JVal) -> Result<Seq<CartLineV>, ReadError> {
        req_field_spec::<Vec<CartLine>>(v, "lines"@)
    }

    open spec fn decoded_inv(self, store: ValueStore, v: JVal) -> bool {
        true
    }

    proof fn decoded_inv_extends(self, s1: ValueStore, s2: ValueStore, v: JVal) {
    }

    fn deserialize(store: &mut ValueStore, v: Value) -> (r: Result<Cart, ReadError>) {
        proof {
            reveal_strlit("lines");
        }
        match decode_required_field::<Vec<CartLine>>(store, v, "lines") {
            Ok(lines) => Ok(Cart { lines }),
            Err(e) => Err(e),
        }
    }
}

impl DeepView for Metafield {
    type V = Seq<char>;

    open spec fn deep_view(&self) -> Seq<char> {
        self.value@
    }
}

impl WasmDeserialize for Metafield {
    open spec fn decode_spec(v: JVal) -> Result<Seq<char>, ReadError> {
        req_field_spec::<String>(v, "value"@)
    }

    open spec fn decoded_inv(self, store: ValueStore, v: JVal) -> bool {
        true
    }

    proof fn decoded_inv_extends(self, s1: ValueStore, s2: ValueStore, v: JVal) {
    }

    fn deserialize(store: &mut ValueStore, v: Value) -> (r: Result<Metafield, ReadError>) {
        proof {
            reveal_strlit("value");
        }
        match decode_required_field::<String>(store, v, "value") {
            Ok(value) => Ok(Metafield { value }),
            Err(e) => Err(e),
        }
    }
}

impl DeepView for DiscountNode {
    type V = DiscountNodeV;

    open spec fn deep_view(&self) -> DiscountNodeV {
        DiscountNodeV {
            metafield: match self.metafield {
                Some(m) => Some(m.value@),
                None => None,
            },
        }
    }
}

impl WasmDeserialize for DiscountNode {
    open spec fn decode_spec(v: JVal) -> Result<DiscountNodeV, ReadError> {
        match field_spec::<Option<Metafield>>(v, "metafield"@) {
            Ok(m) => Ok(DiscountNodeV { metafield: m }),
            Err(e) => Err(e),
        }
    }

    open spec fn decoded_inv(self, store: ValueStore, v: JVal) -> bool {
        true
    }

    proof fn decoded_inv_extends(self, s1: ValueStore, s2: ValueStore, v: JVal) {
    }

    fn deserialize(store: &mut ValueStore, v: Value) -> (r: Result<DiscountNode, ReadError>) {
        proof {
            reveal_strlit("metafield");
        }
        match decode_field::<Option<Metafield>>(store, v, "metafield") {
            Ok(metafield) => Ok(DiscountNode { metafield }),
            Err(e) => Err(e),
        }
    }
}

impl DeepView for ResponseData {
    type V = ResponseDataV;

    open spec fn deep_view(&self) -> ResponseDataV {
        ResponseDataV {
            lines: self.cart.deep_view(),
            metafield: self.discount_node.deep_view().metafield,
        }
    }
}

impl WasmDeserialize for ResponseData {
    open spec fn decode_spec(v: JVal) -> Result<ResponseDataV, ReadError> {
        match req_field_spec::<Cart>(v, "cart"@) {
            Ok(lines) => match req_field_spec::<DiscountNode>(v, "discountNode"@) {
                Ok(dn) => Ok(ResponseDataV { lines, metafield: dn.metafield }),
                Err(e) => Err(e),
            },
            Err(e) => Err(e),
        }
    }

    open spec fn decoded_inv(self, store: ValueStore, v: JVal) -> bool {
        true
    }

    proof fn decoded_inv_extends(self, s1: ValueStore, s2: ValueStore, v: JVal) {
    }

    fn deserialize(store: &mut ValueStore, v: Value) -> (r: Result<ResponseData, ReadError>) {
        proof {
            reveal_strlit("cart");
            reveal_strlit("discountNode");
        }
        let ghost pre = *store;
        let cart = match decode_required_field::<Cart>(store, v, "cart") {
            Ok(c) => c,
            Err(e) => {
                return Err(e);
            },
        };
        let ghost mid = *store;
        let r = decode_required_field::<DiscountNode>(store, v, "discountNode");
        proof {
            crate::store::lemma_extends_trans(*store, mid, pre);
        }
        match r {
            Ok(discount_node) => Ok(ResponseData { cart, discount_node }),
            Err(e) => Err(e),
        }
    }
}

} // verus!
