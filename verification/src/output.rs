//! The discount extension's result selection: the shape the host receives
//! back. Optional fields are omitted when absent.

use vstd::prelude::*;
use crate::context::{out_push_value, Context, WriteError};
use crate::scalars::{Int, ID};
use crate::store::JVal;
use crate::write::{write_field, WasmSerialize};

verus! {

/// How the host combines the returned discounts.
#[allow(non_camel_case_types)]
#[derive(Clone, Copy, Debug, PartialEq, Eq, Structural)]
pub enum DiscountApplicationStrategy {
    FIRST,
    MAXIMUM,
}

/// A percentage, carried as its plain decimal string.
#[derive(Clone, Debug, PartialEq)]
pub struct Percentage {
    pub value: String,
}

/// A fixed amount, carried as its plain decimal string.
#[derive(Clone, Debug, PartialEq)]
pub struct FixedAmount {
    pub amount: String,
}

/// A discount's value: a percentage or a fixed amount, each optional and
/// omitted when absent.
#[derive(Clone, Debug, PartialEq)]
pub struct Value {
    pub percentage: Option<Percentage>,
    pub fixed_amount: Option<FixedAmount>,
}

/// The product variant a discount targets.
#[derive(Clone, Debug, PartialEq)]
pub struct ProductVariantTarget {
    pub id: ID,
    pub quantity: Option<Int>,
}

/// One target of a discount.
#[derive(Clone, Debug, PartialEq)]
pub struct Target {
    pub product_variant: Option<ProductVariantTarget>,
}

/// One discount to apply.
#[derive(Clone, Debug, PartialEq)]
pub struct Discount {
    pub message: Option<String>,
    pub targets: Vec<Target>,
    pub value: Value,
}

/// The whole function result.
#[derive(Clone, Debug, PartialEq)]
pub struct FunctionResult {
    pub discounts: Vec<Discount>,
    pub discount_application_strategy: DiscountApplicationStrategy,
}

impl DiscountApplicationStrategy {
    /// The host-side member name.
    pub open spec fn shape(self) -> JVal {
        match self {
            DiscountApplicationStrategy::FIRST => JVal::Str("FIRST"@),
            DiscountApplicationStrategy::MAXIMUM => JVal::Str("MAXIMUM"@),
        }
    }
}

impl DeepView for DiscountApplicationStrategy {
    type V = DiscountApplicationStrategy;

    open spec fn deep_view(&self) -> DiscountApplicationStrategy {
        *self
    }
}

impl WasmSerialize for DiscountApplicationStrategy {
    open spec fn ser_ok(v: DiscountApplicationStrategy) -> bool {
        true
    }

    open spec fn encoded(v: DiscountApplicationStrategy) -> JVal {
        v.shape()
    }

    fn serialize(&self, context: &mut Context) -> (r: Result<(), WriteError>) {
        let s: &str = match self {
            DiscountApplicationStrategy::FIRST => "FIRST",
            DiscountApplicationStrategy::MAXIMUM => "MAXIMUM",
        };
        proof {
            crate::write::lemma_push_str_is_value(context.out_state(), s@);
        }
        context.write_utf8_str(s)
    }
}

impl Percentage {
    /// An object with the one declared field.
    pub open spec fn shape(self) -> JVal {
        JVal::Obj(seq![("value"@, JVal::Str(self.value@))])
    }
}

impl DeepView for Percentage {
    type V = Percentage;

    open spec fn deep_view(&self) -> Percentage {
        *self
    }
}

impl WasmSerialize for Percentage {
    open spec fn ser_ok(v: Percentage) -> bool {
        true
    }

    open spec fn encoded(v: Percentage) -> JVal {
        v.shape()
    }

    fn serialize(&self, context: &mut Context) -> (r: Result<(), WriteError>) {
        let ghost pre = context.out_state();
        match context.write_object_begin(1) {
            Ok(()) => {},
            Err(e) => {
                return Err(e);
            },
        }
        match write_field(context, "value", &self.value) {
            Ok(()) => {},
            Err(e) => {
                return Err(e);
            },
        }
        let r = context.write_object_end();
        proof {
            let pairs = Seq::<(Seq<char>, JVal)>::empty().push(("value"@, JVal::Str(self.value@)));
            assert(context.out_state() =~= out_push_value(pre, self.shape())) by {
                assert(self.shape()->Obj_0 =~= pairs);
            }
        }
        r
    }
}

impl FixedAmount {
    /// An object with the one declared field.
    pub open spec fn shape(self) -> JVal {
        JVal::Obj(seq![("amount"@, JVal::Str(self.amount@))])
    }
}

impl DeepView for FixedAmount {
    type V = FixedAmount;

    open spec fn deep_view(&self) -> FixedAmount {
        *self
    }
}

impl WasmSerialize for FixedAmount {
    open spec fn ser_ok(v: FixedAmount) -> bool {
        true
    }

    open spec fn encoded(v: FixedAmount) -> JVal {
        v.shape()
    }

    fn serialize(&self, context: &mut Context) -> (r: Result<(), WriteError>) {
        let ghost pre = context.out_state();
        match context.write_object_begin(1) {
            Ok(()) => {},
            Err(e) => {
                return Err(e);
            },
        }
        match write_field(context, "amount", &self.amount) {
            Ok(()) => {},
            Err(e) => {
                return Err(e);
            },
        }
        let r = context.write_object_end();
        proof {
            let pairs = Seq::<(Seq<char>, JVal)>::empty().push(
                ("amount"@, JVal::Str(self.amount@)),
            );
            assert(context.out_state() =~= out_push_value(pre, self.shape())) by {
                assert(self.shape()->Obj_0 =~= pairs);
            }
        }
        r
    }
}

impl Value {
    /// The declared fields in order, each omitted when absent.
    pub open spec fn shape(self) -> JVal {
        JVal::Obj(
            (match self.percentage {
                Some(p) => seq![("percentage"@, p.shape())],
                None => Seq::<(Seq<char>, JVal)>::empty(),
            }) + (match self.fixed_amount {
                Some(f) => seq![("fixedAmount"@, f.shape())],
                None => Seq::<(Seq<char>, JVal)>::empty(),
            }),
        )
    }
}

impl DeepView for Value {
    type V = Value;

    open spec fn deep_view(&self) -> Value {
        *self
    }
}

impl WasmSerialize for Value {
    open spec fn ser_ok(v: Value) -> bool {
        true
    }

    open spec fn encoded(v: Value) -> JVal {
        v.shape()
    }

    fn serialize(&self, context: &mut Context) -> (r: Result<(), WriteError>) {
        let ghost pre = context.out_state();
        let mut count: usize = 0;
        if self.percentage.is_some() {
            count = count + 1;
        }
        if self.fixed_amount.is_some() {
            count = count + 1;
        }
        match context.write_object_begin(count) {
            Ok(()) => {},
            Err(e) => {
                return Err(e);
            },
        }
        let ghost mut pairs = Seq::<(Seq<char>, JVal)>::empty();
        match &self.percentage {
            Some(p) => {
                match write_field(context, "percentage", p) {
                    Ok(()) => {},
                    Err(e) => {
                        return Err(e);
                    },
                }
                proof {
                    pairs = pairs.push(("percentage"@, p.shape()));
                }
            },
            None => {},
        }
        match &self.fixed_amount {
            Some(f) => {
                match write_field(context, "fixedAmount", f) {
                    Ok(()) => {},
                    Err(e) => {
                        return Err(e);
                    },
                }
                proof {
                    pairs = pairs.push(("fixedAmount"@, f.shape()));
                }
            },
            None => {},
        }
        let r = context.write_object_end();
        proof {
            assert(context.out_state() =~= out_push_value(pre, self.shape())) by {
                assert(self.shape()->Obj_0 =~= pairs);
                assert(pairs.len() == count);
            }
        }
        r
    }
}

impl ProductVariantTarget {
    /// The identifier, and the quantity only when present.
    pub open spec fn shape(self) -> JVal {
        JVal::Obj(
            seq![("id"@, JVal::Str(self.id@))] + (match self.quantity {
                Some(q) => seq![
                    ("quantity"@, JVal::Num(crate::decimal::Decimal::spec_from_i64(q as int))),
                ],
                None => Seq::<(Seq<char>, JVal)>::empty(),
            }),
        )
    }
}

impl DeepView for ProductVariantTarget {
    type V = ProductVariantTarget;

    open spec fn deep_view(&self) -> ProductVariantTarget {
        *self
    }
}

impl WasmSerialize for ProductVariantTarget {
    open spec fn ser_ok(v: ProductVariantTarget) -> bool {
        true
    }

    open spec fn encoded(v: ProductVariantTarget) -> JVal {
        v.shape()
    }

    fn serialize(&self, context: &mut Context) -> (r: Result<(), WriteError>) {
        let ghost pre = context.out_state();
        let count: usize = if self.quantity.is_some() {
            2
        } else {
            1
        };
        match context.write_object_begin(count) {
            Ok(()) => {},
            Err(e) => {
                return Err(e);
            },
        }
        match write_field(context, "id", &self.id) {
            Ok(()) => {},
            Err(e) => {
                return Err(e);
            },
        }
        let ghost mut pairs = Seq::<(Seq<char>, JVal)>::empty().push(("id"@, JVal::Str(self.id@)));
        match &self.quantity {
            Some(q) => {
                match write_field(context, "quantity", q) {
                    Ok(()) => {},
                    Err(e) => {
                        return Err(e);
                    },
                }
                proof {
                    pairs = pairs.push(
                        ("quantity"@, JVal::Num(crate::decimal::Decimal::spec_from_i64(*q as int))),
                    );
                }
            },
            None => {},
        }
        let r = context.write_object_end();
        proof {
            assert(context.out_state() =~= out_push_value(pre, self.shape())) by {
                assert(self.shape()->Obj_0 =~= pairs);
                assert(pairs.len() == count);
            }
        }
        r
    }
}

impl Target {
    /// The one declared field, omitted when absent.
    pub open spec fn shape(self) -> JVal {
        JVal::Obj(
            match self.product_variant {
                Some(pv) => seq![("productVariant"@, pv.shape())],
                None => Seq::<(Seq<char>, JVal)>::empty(),
            },
        )
    }
}

impl DeepView for Target {
    type V = Target;

    open spec fn deep_view(&self) -> Target {
        *self
    }
}

impl WasmSerialize for Target {
    open spec fn ser_ok(v: Target) -> bool {
        true
    }

    open spec fn encoded(v: Target) -> JVal {
        v.shape()
    }

    fn serialize(&self, context: &mut Context) -> (r: Result<(), WriteError>) {
        let ghost pre = context.out_state();
        let count: usize = if self.product_variant.is_some() {
            1
        } else {
            0
        };
        match context.write_object_begin(count) {
            Ok(()) => {},
            Err(e) => {
                return Err(e);
            },
        }
        let ghost mut pairs = Seq::<(Seq<char>, JVal)>::empty();
        match &self.product_variant {
            Some(pv) => {
                match write_field(context, "productVariant", pv) {
                    Ok(()) => {},
                    Err(e) => {
                        return Err(e);
                    },
                }
                proof {
                    pairs = pairs.push(("productVariant"@, pv.shape()));
                }
            },
            None => {},
        }
        let r = context.write_object_end();
        proof {
            assert(context.out_state() =~= out_push_value(pre, self.shape())) by {
                assert(self.shape()->Obj_0 =~= pairs);
                assert(pairs.len() == count);
            }
        }
        r
    }
}

impl Discount {
    /// The declared fields in order; the message is omitted when absent.
    pub open spec fn shape(self) -> JVal {
        JVal::Obj(
            (match self.message {
                Some(m) => seq![("message"@, JVal::Str(m@))],
                None => Seq::<(Seq<char>, JVal)>::empty(),
            }) + seq![
                (
                    "targets"@,
                    JVal::Arr(Seq::new(self.targets@.len(), |k: int| self.targets@[k].shape())),
                ),
                ("value"@, self.value.shape()),
            ],
        )
    }
}

impl DeepView for Discount {
    type V = Discount;

    open spec fn deep_view(&self) -> Discount {
        *self
    }
}

impl WasmSerialize for Discount {
    open spec fn ser_ok(v: Discount) -> bool {
        true
    }

    open spec fn encoded(v: Discount) -> JVal {
        v.shape()
    }

    fn serialize(&self, context: &mut Context) -> (r: Result<(), WriteError>) {
        let ghost pre = context.out_state();
        let count: usize = if self.message.is_some() {
            3
        } else {
            2
        };
        match context.write_object_begin(count) {
            Ok(()) => {},
            Err(e) => {
                return Err(e);
            },
        }
        let ghost mut pairs = Seq::<(Seq<char>, JVal)>::empty();
        match &self.message {
            Some(m) => {
                match write_field(context, "message", m) {
                    Ok(()) => {},
                    Err(e) => {
                        return Err(e);
                    },
                }
                proof {
                    pairs = pairs.push(("message"@, JVal::Str(m@)));
                }
            },
            None => {},
        }
        match write_field(context, "targets", &self.targets) {
            Ok(()) => {},
            Err(e) => {
                return Err(e);
            },
        }
        proof {
            let tgt = Vec::<Target>::encoded(self.targets.deep_view());
            assert(tgt == JVal::Arr(
                Seq::new(self.targets@.len(), |k: int| self.targets@[k].shape()),
            )) by {
                let got = tgt->Arr_0;
                let want = Seq::new(self.targets@.len(), |k: int| self.targets@[k].shape());
                assert(got.len() == want.len());
                assert forall|k: int| 0 <= k < got.len() implies got[k] == want[k] by {
                    assert(self.targets.deep_view()[k] == self.targets@[k]);
                }
                assert(got =~= want);
            }
            pairs = pairs.push(
                (
                    "targets"@,
                    JVal::Arr(Seq::new(self.targets@.len(), |k: int| self.targets@[k].shape())),
                ),
            );
        }
        match write_field(context, "value", &self.value) {
            Ok(()) => {},
            Err(e) => {
                return Err(e);
            },
        }
        proof {
            pairs = pairs.push(("value"@, self.value.shape()));
        }
        let r = context.write_object_end();
        proof {
            assert(context.out_state() =~= out_push_value(pre, self.shape())) by {
                assert(self.shape()->Obj_0 =~= pairs);
                assert(pairs.len() == count);
            }
        }
        r
    }
}

impl FunctionResult {
    /// The declared fields in order.
    pub open spec fn shape(self) -> JVal {
        JVal::Obj(
            seq![
                (
                    "discounts"@,
                    JVal::Arr(
                        Seq::new(self.discounts@.len(), |k: int| self.discounts@[k].shape()),
                    ),
                ),
                ("discountApplicationStrategy"@, self.discount_application_strategy.shape()),
            ],
        )
    }
}

impl DeepView for FunctionResult {
    type V = FunctionResult;

    open spec fn deep_view(&self) -> FunctionResult {
        *self
    }
}

impl WasmSerialize for FunctionResult {
    open spec fn ser_ok(v: FunctionResult) -> bool {
        true
    }

    open spec fn encoded(v: FunctionResult) -> JVal {
        v.shape()
    }

    fn serialize(&self, context: &mut Context) -> (r: Result<(), WriteError>) {
        let ghost pre = context.out_state();
        match context.write_object_begin(2) {
            Ok(()) => {},
            Err(e) => {
                return Err(e);
            },
        }
        match write_field(context, "discounts", &self.discounts) {
            Ok(()) => {},
            Err(e) => {
                return Err(e);
            },
        }
        match write_field(
            context,
            "discountApplicationStrategy",
            &self.discount_application_strategy,
        ) {
            Ok(()) => {},
            Err(e) => {
                return Err(e);
            },
        }
        let r = context.write_object_end();
        proof {
            let ds = Vec::<Discount>::encoded(self.discounts.deep_view());
            assert(ds == JVal::Arr(
                Seq::new(self.discounts@.len(), |k: int| self.discounts@[k].shape()),
            )) by {
                let got = ds->Arr_0;
                let want = Seq::new(self.discounts@.len(), |k: int| self.discounts@[k].shape());
                assert(got.len() == want.len());
                assert forall|k: int| 0 <= k < got.len() implies got[k] == want[k] by {
                    assert(self.discounts.deep_view()[k] == self.discounts@[k]);
                }
                assert(got =~= want);
            }
            let pairs = Seq::<(Seq<char>, JVal)>::empty().push(("discounts"@, ds)).push(
                ("discountApplicationStrategy"@, self.discount_application_strategy.shape()),
            );
            assert(context.out_state() =~= out_push_value(pre, self.shape())) by {
                assert(self.shape()->Obj_0 =~= pairs);
            }
        }
        r
    }
}

} // verus!
