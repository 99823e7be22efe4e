//! The discount result schema: the output value graph a discount extension
//! hands back to the host. Fields marked omit-when-absent are skipped when
//! they hold nothing; every other declared field is always written.

use vstd::prelude::*;
use crate::context::{out_push_value, Context, FrameV, WriteError};
use crate::decimal::{spec_repr, Decimal};
use crate::scalars::{Boolean, Int, ID};
use crate::store::JVal;
use crate::write::{write_field, WasmSerialize};

verus! {

/// How the host combines the returned discounts.
#[derive(Clone, Copy, Debug, PartialEq, Eq, Structural)]
pub enum DiscountApplicationStrategy {
    First,
    Maximum,
}

/// A fixed-amount discount value.
#[derive(Clone, Copy, Debug, PartialEq, Eq, Structural)]
pub struct FixedAmount {
    pub applies_to_each_item: Option<Boolean>,
    pub value: Decimal,
}

/// A percentage discount value.
#[derive(Clone, Copy, Debug, PartialEq, Eq, Structural)]
pub struct Percentage {
    pub value: Decimal,
}

/// A discount's value: either a fixed amount or a percentage.
#[derive(Clone, Copy, Debug, PartialEq, Eq, Structural)]
pub enum Value {
    FixedAmount(FixedAmount),
    Percentage(Percentage),
}

/// What a discount applies to.
#[derive(Clone, Debug, PartialEq)]
pub enum Target {
    ProductVariant { id: ID, quantity: Option<Int> },
}

/// What kind of product a condition constrains.
#[derive(Clone, Copy, Debug, PartialEq, Eq, Structural)]
pub enum ConditionTargetType {
    ProductVariant,
}

/// A prerequisite for a discount to apply.
#[derive(Clone, Debug, PartialEq)]
pub enum Condition {
    ProductMinimumQuantity {
        ids: Vec<ID>,
        minimum_quantity: Int,
        target_type: ConditionTargetType,
    },
    ProductMinimumSubtotal {
        ids: Vec<ID>,
        minimum_amount: Decimal,
        target_type: ConditionTargetType,
    },
}

/// One discount: its value, its targets, and an optional message and
/// conditions, both omitted when absent.
#[derive(Clone, Debug, PartialEq)]
pub struct Discount {
    pub value: Value,
    pub targets: Vec<Target>,
    pub message: Option<String>,
    pub conditions: Option<Vec<Condition>>,
}

/// The whole result: the strategy and the discounts.
#[derive(Clone, Debug, PartialEq)]
pub struct Output {
    pub discount_application_strategy: DiscountApplicationStrategy,
    pub discounts: Vec<Discount>,
}

impl DiscountApplicationStrategy {
    /// The host-side member name this strategy encodes to.
    pub open spec fn shape(self) -> JVal {
        match self {
            DiscountApplicationStrategy::First => JVal::Str("FIRST"@),
            DiscountApplicationStrategy::Maximum => JVal::Str("MAXIMUM"@),
        }
    }
}

impl DeepView for DiscountApplicationStrategy {
    type V = DiscountApplicationStrategy;

    open spec fn deep_view(&self) -> DiscountApplicationStrategy {
        *self
    }
}

impl WasmSerialize for DiscountApplicationStrategy {
    open spec fn ser_ok(v: DiscountApplicationStrategy) -> bool {
        true
    }

    open spec fn encoded(v: DiscountApplicationStrategy) -> JVal {
        v.shape()
    }

    fn serialize(&self, context: &mut Context) -> (r: Result<(), WriteError>) {
        let s: &str = match self {
            DiscountApplicationStrategy::First => "FIRST",
            DiscountApplicationStrategy::Maximum => "MAXIMUM",
        };
        proof {
            crate::write::lemma_push_str_is_value(context.out_state(), s@);
        }
        context.write_utf8_str(s)
    }
}

impl ConditionTargetType {
    /// The host-side member name this kind encodes to.
    pub open spec fn shape(self) -> JVal {
        JVal::Str("PRODUCT_VARIANT"@)
    }
}

impl DeepView for ConditionTargetType {
    type V = ConditionTargetType;

    open spec fn deep_view(&self) -> ConditionTargetType {
        *self
    }
}

impl WasmSerialize for ConditionTargetType {
    open spec fn ser_ok(v: ConditionTargetType) -> bool {
        true
    }

    open spec fn encoded(v: ConditionTargetType) -> JVal {
        v.shape()
    }

    fn serialize(&self, context: &mut Context) -> (r: Result<(), WriteError>) {
        proof {
            crate::write::lemma_push_str_is_value(context.out_state(), "PRODUCT_VARIANT"@);
        }
        context.write_utf8_str("PRODUCT_VARIANT")
    }
}

impl Percentage {
    /// An object with the one declared field.
    pub open spec fn shape(self) -> JVal {
        JVal::Obj(seq![("value"@, JVal::Str(spec_repr(self.value)))])
    }

    /// Its decimal is canonical.
    pub open spec fn wf(self) -> bool {
        self.value.wf()
    }
}

impl DeepView for Percentage {
    type V = Percentage;

    open spec fn deep_view(&self) -> Percentage {
        *self
    }
}

impl WasmSerialize for Percentage {
    open spec fn ser_ok(v: Percentage) -> bool {
        v.wf()
    }

    open spec fn encoded(v: Percentage) -> JVal {
        v.shape()
    }

    fn serialize(&self, context: &mut Context) -> (r: Result<(), WriteError>) {
        let ghost pre = context.out_state();
        match context.write_object_begin(1) {
            Ok(()) => {},
            Err(e) => {
                return Err(e);
            },
        }
        match write_field(context, "value", &self.value) {
            Ok(()) => {},
            Err(e) => {
                return Err(e);
            },
        }
        let r = context.write_object_end();
        proof {
            let pairs = Seq::<(Seq<char>, JVal)>::empty().push(
                ("value"@, JVal::Str(spec_repr(self.value))),
            );
            assert(context.out_state() =~= out_push_value(pre, self.shape())) by {
                assert(self.shape()->Obj_0 =~= pairs);
                assert(pre.stack.push(
                    FrameV::Obj { expected: 1, pairs, pending: None },
                ).drop_last() =~= pre.stack);
            }
        }
        r
    }
}

impl FixedAmount {
    /// An object with the two declared fields; an absent per-item flag is an
    /// explicit null.
    pub open spec fn shape(self) -> JVal {
        JVal::Obj(
            seq![
                (
                    "appliesToEachItem"@,
                    match self.applies_to_each_item {
                        Some(b) => JVal::Bool(b),
                        None => JVal::Null,
                    },
                ),
                ("value"@, JVal::Str(spec_repr(self.value))),
            ],
        )
    }

    /// Its decimal is canonical.
    pub open spec fn wf(self) -> bool {
        self.value.wf()
    }
}

impl DeepView for FixedAmount {
    type V = FixedAmount;

    open spec fn deep_view(&self) -> FixedAmount {
        *self
    }
}

impl WasmSerialize for FixedAmount {
    open spec fn ser_ok(v: FixedAmount) -> bool {
        v.wf()
    }

    open spec fn encoded(v: FixedAmount) -> JVal {
        v.shape()
    }

    fn serialize(&self, context: &mut Context) -> (r: Result<(), WriteError>) {
        let ghost pre = context.out_state();
        match context.write_object_begin(2) {
            Ok(()) => {},
            Err(e) => {
                return Err(e);
            },
        }
        match write_field(context, "appliesToEachItem", &self.applies_to_each_item) {
            Ok(()) => {},
            Err(e) => {
                return Err(e);
            },
        }
        match write_field(context, "value", &self.value) {
            Ok(()) => {},
            Err(e) => {
                return Err(e);
            },
        }
        let r = context.write_object_end();
        proof {
            let pairs = Seq::<(Seq<char>, JVal)>::empty().push(
                (
                    "appliesToEachItem"@,
                    match self.applies_to_each_item {
                        Some(b) => JVal::Bool(b),
                        None => JVal::Null,
                    },
                ),
            ).push(("value"@, JVal::Str(spec_repr(self.value))));
            assert(context.out_state() =~= out_push_value(pre, self.shape())) by {
                assert(self.shape()->Obj_0 =~= pairs);
                assert(pre.stack.push(
                    FrameV::Obj { expected: 2, pairs, pending: None },
                ).drop_last() =~= pre.stack);
            }
        }
        r
    }
}

impl Value {
    /// The externally tagged union: one object whose single property names
    /// the chosen variant.
    pub open spec fn shape(self) -> JVal {
        match self {
            Value::FixedAmount(f) => JVal::Obj(seq![("fixedAmount"@, f.shape())]),
            Value::Percentage(p) => JVal::Obj(seq![("percentage"@, p.shape())]),
        }
    }

    /// Its decimals are canonical.
    pub open spec fn wf(self) -> bool {
        match self {
            Value::FixedAmount(f) => f.wf(),
            Value::Percentage(p) => p.wf(),
        }
    }
}

impl DeepView for Value {
    type V = Value;

    open spec fn deep_view(&self) -> Value {
        *self
    }
}

impl WasmSerialize for Value {
    open spec fn ser_ok(v: Value) -> bool {
        v.wf()
    }

    open spec fn encoded(v: Value) -> JVal {
        v.shape()
    }

    fn serialize(&self, context: &mut Context) -> (r: Result<(), WriteError>) {
        let ghost pre = context.out_state();
        match context.write_object_begin(1) {
            Ok(()) => {},
            Err(e) => {
                return Err(e);
            },
        }
        let ghost pair: (Seq<char>, JVal);
        match self {
            Value::FixedAmount(f) => {
                match write_field(context, "fixedAmount", f) {
                    Ok(()) => {},
                    Err(e) => {
                        return Err(e);
                    },
                }
                proof {
                    pair = ("fixedAmount"@, f.shape());
                }
            },
            Value::Percentage(p) => {
                match write_field(context, "percentage", p) {
                    Ok(()) => {},
                    Err(e) => {
                        return Err(e);
                    },
                }
                proof {
                    pair = ("percentage"@, p.shape());
                }
            },
        }
        let r = context.write_object_end();
        proof {
            let pairs = Seq::<(Seq<char>, JVal)>::empty().push(pair);
            assert(context.out_state() =~= out_push_value(pre, self.shape())) by {
                assert(self.shape()->Obj_0 =~= pairs);
                assert(pre.stack.push(
                    FrameV::Obj { expected: 1, pairs, pending: None },
                ).drop_last() =~= pre.stack);
            }
        }
        r
    }
}

impl Target {
    /// The inner object of the one variant: the identifier, and the quantity
    /// only when present.
    pub open spec fn inner_shape(self) -> JVal {
        match self {
            Target::ProductVariant { id, quantity } => JVal::Obj(
                seq![("id"@, JVal::Str(id@))] + (match quantity {
                    Some(q) => seq![("quantity"@, JVal::Num(Decimal::spec_from_i64(q as int)))],
                    None => Seq::<(Seq<char>, JVal)>::empty(),
                }),
            ),
        }
    }

    /// The externally tagged variant object.
    pub open spec fn shape(self) -> JVal {
        JVal::Obj(seq![("productVariant"@, self.inner_shape())])
    }
}

impl DeepView for Target {
    type V = Target;

    open spec fn deep_view(&self) -> Target {
        *self
    }
}

impl WasmSerialize for Target {
    open spec fn ser_ok(v: Target) -> bool {
        true
    }

    open spec fn encoded(v: Target) -> JVal {
        v.shape()
    }

    fn serialize(&self, context: &mut Context) -> (r: Result<(), WriteError>) {
        let ghost pre = context.out_state();
        match context.write_object_begin(1) {
            Ok(()) => {},
            Err(e) => {
                return Err(e);
            },
        }
        match self {
            Target::ProductVariant { id, quantity } => {
                let inner_count: usize = if quantity.is_some() {
                    2
                } else {
                    1
                };
                match context.write_utf8_str("productVariant") {
                    Ok(()) => {},
                    Err(e) => {
                        return Err(e);
                    },
                }
                match context.write_object_begin(inner_count) {
                    Ok(()) => {},
                    Err(e) => {
                        return Err(e);
                    },
                }
                match write_field(context, "id", id) {
                    Ok(()) => {},
                    Err(e) => {
                        return Err(e);
                    },
                }
                let ghost inner_pairs: Seq<(Seq<char>, JVal)>;
                proof {
                    inner_pairs = Seq::<(Seq<char>, JVal)>::empty().push(("id"@, JVal::Str(id@)));
                }
                match quantity {
                    Some(q) => {
                        match write_field(context, "quantity", q) {
                            Ok(()) => {},
                            Err(e) => {
                                return Err(e);
                            },
                        }
                        proof {
                            inner_pairs = inner_pairs.push(
                                ("quantity"@, JVal::Num(Decimal::spec_from_i64(*q as int))),
                            );
                        }
                    },
                    None => {},
                }
                match context.write_object_end() {
                    Ok(()) => {},
                    Err(e) => {
                        return Err(e);
                    },
                }
                let r = context.write_object_end();
                proof {
                    let pairs = Seq::<(Seq<char>, JVal)>::empty().push(
                        ("productVariant"@, self.inner_shape()),
                    );
                    assert(context.out_state() =~= out_push_value(pre, self.shape())) by {
                        assert(self.inner_shape()->Obj_0 =~= inner_pairs);
                        assert(self.inner_shape() == JVal::Obj(inner_pairs));
                        assert(self.shape()->Obj_0 =~= pairs);
                    }
                }
                r
            },
        }
    }
}

impl Condition {
    /// The inner object of the chosen variant.
    pub open spec fn inner_shape(self) -> JVal {
        match self {
            Condition::ProductMinimumQuantity { ids, minimum_quantity, target_type } => JVal::Obj(
                seq![
                    ("ids"@, JVal::Arr(Seq::new(ids@.len(), |k: int| JVal::Str(ids@[k]@)))),
                    ("minimumQuantity"@, JVal::Num(Decimal::spec_from_i64(minimum_quantity as int))),
                    ("targetType"@, target_type.shape()),
                ],
            ),
            Condition::ProductMinimumSubtotal { ids, minimum_amount, target_type } => JVal::Obj(
                seq![
                    ("ids"@, JVal::Arr(Seq::new(ids@.len(), |k: int| JVal::Str(ids@[k]@)))),
                    ("minimumAmount"@, JVal::Str(spec_repr(minimum_amount))),
                    ("targetType"@, target_type.shape()),
                ],
            ),
        }
    }

    /// The externally tagged variant object.
    pub open spec fn shape(self) -> JVal {
        match self {
            Condition::ProductMinimumQuantity { .. } => JVal::Obj(
                seq![("productMinimumQuantity"@, self.inner_shape())],
            ),
            Condition::ProductMinimumSubtotal { .. } => JVal::Obj(
                seq![("productMinimumSubtotal"@, self.inner_shape())],
            ),
        }
    }

    /// Its decimals are canonical.
    pub open spec fn wf(self) -> bool {
        match self {
            Condition::ProductMinimumQuantity { .. } => true,
            Condition::ProductMinimumSubtotal { minimum_amount, .. } => minimum_amount.wf(),
        }
    }
}

impl DeepView for Condition {
    type V = Condition;

    open spec fn deep_view(&self) -> Condition {
        *self
    }
}

impl WasmSerialize for Condition {
    open spec fn ser_ok(v: Condition) -> bool {
        v.wf()
    }

    open spec fn encoded(v: Condition) -> JVal {
        v.shape()
    }

    fn serialize(&self, context: &mut Context) -> (r: Result<(), WriteError>) {
        let ghost pre = context.out_state();
        match context.write_object_begin(1) {
            Ok(()) => {},
            Err(e) => {
                return Err(e);
            },
        }
        let ghost tag: Seq<char>;
        match self {
            Condition::ProductMinimumQuantity { ids, minimum_quantity, target_type } => {
                match context.write_utf8_str("productMinimumQuantity") {
                    Ok(()) => {},
                    Err(e) => {
                        return Err(e);
                    },
                }
                match context.write_object_begin(3) {
                    Ok(()) => {},
                    Err(e) => {
                        return Err(e);
                    },
                }
                match write_field(context, "ids", ids) {
                    Ok(()) => {},
                    Err(e) => {
                        return Err(e);
                    },
                }
                match write_field(context, "minimumQuantity", minimum_quantity) {
                    Ok(()) => {},
                    Err(e) => {
                        return Err(e);
                    },
                }
                match write_field(context, "targetType", target_type) {
                    Ok(()) => {},
                    Err(e) => {
                        return Err(e);
                    },
                }
                match context.write_object_end() {
                    Ok(()) => {},
                    Err(e) => {
                        return Err(e);
                    },
                }
                proof {
                    tag = "productMinimumQuantity"@;
                    let inner_pairs = Seq::<(Seq<char>, JVal)>::empty().push(
                        ("ids"@, Vec::<String>::encoded(ids.deep_view())),
                    ).push(
                        ("minimumQuantity"@, JVal::Num(Decimal::spec_from_i64(*minimum_quantity as int))),
                    ).push(("targetType"@, target_type.shape()));
                    assert(Vec::<String>::encoded(ids.deep_view()) == JVal::Arr(
                        Seq::new(ids@.len(), |k: int| JVal::Str(ids@[k]@)),
                    )) by {
                        let got = Vec::<String>::encoded(ids.deep_view())->Arr_0;
                        let want = Seq::new(ids@.len(), |k: int| JVal::Str(ids@[k]@));
                        assert(got.len() == want.len());
                        assert forall|k: int| 0 <= k < got.len() implies got[k] == want[k] by {
                            assert(ids.deep_view()[k] == ids@[k]@);
                        }
                        assert(got =~= want);
                    }
                    assert(self.inner_shape()->Obj_0 =~= inner_pairs);
                    assert(self.inner_shape() == JVal::Obj(inner_pairs));
                }
            },
            Condition::ProductMinimumSubtotal { ids, minimum_amount, target_type } => {
                match context.write_utf8_str("productMinimumSubtotal") {
                    Ok(()) => {},
                    Err(e) => {
                        return Err(e);
                    },
                }
                match context.write_object_begin(3) {
                    Ok(()) => {},
                    Err(e) => {
                        return Err(e);
                    },
                }
                match write_field(context, "ids", ids) {
                    Ok(()) => {},
                    Err(e) => {
                        return Err(e);
                    },
                }
                match write_field(context, "minimumAmount", minimum_amount) {
                    Ok(()) => {},
                    Err(e) => {
                        return Err(e);
                    },
                }
                match write_field(context, "targetType", target_type) {
                    Ok(()) => {},
                    Err(e) => {
                        return Err(e);
                    },
                }
                match context.write_object_end() {
                    Ok(()) => {},
                    Err(e) => {
                        return Err(e);
                    },
                }
                proof {
                    tag = "productMinimumSubtotal"@;
                    let inner_pairs = Seq::<(Seq<char>, JVal)>::empty().push(
                        ("ids"@, Vec::<String>::encoded(ids.deep_view())),
                    ).push(("minimumAmount"@, JVal::Str(spec_repr(*minimum_amount)))).push(
                        ("targetType"@, target_type.shape()),
                    );
                    assert(Vec::<String>::encoded(ids.deep_view()) == JVal::Arr(
                        Seq::new(ids@.len(), |k: int| JVal::Str(ids@[k]@)),
                    )) by {
                        let got = Vec::<String>::encoded(ids.deep_view())->Arr_0;
                        let want = Seq::new(ids@.len(), |k: int| JVal::Str(ids@[k]@));
                        assert(got.len() == want.len());
                        assert forall|k: int| 0 <= k < got.len() implies got[k] == want[k] by {
                            assert(ids.deep_view()[k] == ids@[k]@);
                        }
                        assert(got =~= want);
                    }
                    assert(self.inner_shape()->Obj_0 =~= inner_pairs);
                    assert(self.inner_shape() == JVal::Obj(inner_pairs));
                }
            },
        }
        let r = context.write_object_end();
        proof {
            let pairs = Seq::<(Seq<char>, JVal)>::empty().push((tag, self.inner_shape()));
            assert(context.out_state() =~= out_push_value(pre, self.shape())) by {
                assert(self.shape()->Obj_0 =~= pairs);
            }
        }
        r
    }
}

impl Discount {
    /// The declared fields in order; the message and the conditions are
    /// omitted when absent.
    pub open spec fn shape(self) -> JVal {
        JVal::Obj(
            seq![
                ("value"@, self.value.shape()),
                (
                    "targets"@,
                    JVal::Arr(Seq::new(self.targets@.len(), |k: int| self.targets@[k].shape())),
                ),
            ] + (match self.message {
                Some(m) => seq![("message"@, JVal::Str(m@))],
                None => Seq::<(Seq<char>, JVal)>::empty(),
            }) + (match self.conditions {
                Some(cs) => seq![
                    ("conditions"@, JVal::Arr(Seq::new(cs@.len(), |k: int| cs@[k].shape()))),
                ],
                None => Seq::<(Seq<char>, JVal)>::empty(),
            }),
        )
    }

    /// Its decimals are canonical.
    pub open spec fn wf(self) -> bool {
        &&& self.value.wf()
        &&& (self.conditions matches Some(cs) ==> forall|k: int|
            0 <= k < cs@.len() ==> (#[trigger] cs@[k]).wf())
    }
}

impl DeepView for Discount {
    type V = Discount;

    open spec fn deep_view(&self) -> Discount {
        *self
    }
}

impl WasmSerialize for Discount {
    open spec fn ser_ok(v: Discount) -> bool {
        v.wf()
    }

    open spec fn encoded(v: Discount) -> JVal {
        v.shape()
    }

    fn serialize(&self, context: &mut Context) -> (r: Result<(), WriteError>) {
        let ghost pre = context.out_state();
        let mut count: usize = 2;
        if self.message.is_some() {
            count = count + 1;
        }
        if self.conditions.is_some() {
            count = count + 1;
        }
        match context.write_object_begin(count) {
            Ok(()) => {},
            Err(e) => {
                return Err(e);
            },
        }
        match write_field(context, "value", &self.value) {
            Ok(()) => {},
            Err(e) => {
                return Err(e);
            },
        }
        proof {
            assert(forall|k: int|
                0 <= k < self.targets.deep_view().len() ==> Target::ser_ok(
                    #[trigger] self.targets.deep_view()[k],
                ));
        }
        match write_field(context, "targets", &self.targets) {
            Ok(()) => {},
            Err(e) => {
                return Err(e);
            },
        }
        let ghost targets_enc = Vec::<Target>::encoded(self.targets.deep_view());
        proof {
            assert(targets_enc == JVal::Arr(
                Seq::new(self.targets@.len(), |k: int| self.targets@[k].shape()),
            )) by {
                let got = Vec::<Target>::encoded(self.targets.deep_view())->Arr_0;
                let want = Seq::new(self.targets@.len(), |k: int| self.targets@[k].shape());
                assert(got.len() == want.len());
                assert forall|k: int| 0 <= k < got.len() implies got[k] == want[k] by {
                    assert(self.targets.deep_view()[k] == self.targets@[k]);
                }
                assert(got =~= want);
            }
        }
        let ghost base_pairs = Seq::<(Seq<char>, JVal)>::empty().push(
            ("value"@, self.value.shape()),
        ).push(("targets"@, targets_enc));
        let ghost mut all_pairs = base_pairs;
        match &self.message {
            Some(m) => {
                match write_field(context, "message", m) {
                    Ok(()) => {},
                    Err(e) => {
                        return Err(e);
                    },
                }
                proof {
                    all_pairs = all_pairs.push(("message"@, JVal::Str(m@)));
                }
            },
            None => {},
        }
        match &self.conditions {
            Some(cs) => {
                proof {
                    assert(forall|k: int|
                        0 <= k < cs.deep_view().len() ==> Condition::ser_ok(
                            #[trigger] cs.deep_view()[k],
                        )) by {
                        assert forall|k: int| 0 <= k < cs.deep_view().len() implies Condition::ser_ok(
                            cs.deep_view()[k],
                        ) by {
                            assert(cs.deep_view()[k] == cs@[k]);
                            assert(cs@[k].wf());
                        }
                    }
                }
                match write_field(context, "conditions", cs) {
                    Ok(()) => {},
                    Err(e) => {
                        return Err(e);
                    },
                }
                proof {
                    let cond_enc = Vec::<Condition>::encoded(cs.deep_view());
                    assert(cond_enc == JVal::Arr(
                        Seq::new(cs@.len(), |k: int| cs@[k].shape()),
                    )) by {
                        let got = Vec::<Condition>::encoded(cs.deep_view())->Arr_0;
                        let want = Seq::new(cs@.len(), |k: int| cs@[k].shape());
                        assert(got.len() == want.len());
                        assert forall|k: int| 0 <= k < got.len() implies got[k] == want[k] by {
                            assert(cs.deep_view()[k] == cs@[k]);
                        }
                        assert(got =~= want);
                    }
                    all_pairs = all_pairs.push(("conditions"@, cond_enc));
                }
            },
            None => {},
        }
        let r = context.write_object_end();
        proof {
            assert(context.out_state() =~= out_push_value(pre, self.shape())) by {
                assert(self.shape()->Obj_0 =~= all_pairs);
                assert(all_pairs.len() == count);
            }
        }
        r
    }
}

impl Output {
    /// The declared fields in order.
    pub open spec fn shape(self) -> JVal {
        JVal::Obj(
            seq![
                ("discountApplicationStrategy"@, self.discount_application_strategy.shape()),
                (
                    "discounts"@,
                    JVal::Arr(
                        Seq::new(self.discounts@.len(), |k: int| self.discounts@[k].shape()),
                    ),
                ),
            ],
        )
    }

    /// Its decimals are canonical.
    pub open spec fn wf(self) -> bool {
        forall|k: int| 0 <= k < self.discounts@.len() ==> (#[trigger] self.discounts@[k]).wf()
    }
}

impl DeepView for Output {
    type V = Output;

    open spec fn deep_view(&self) -> Output {
        *self
    }
}

impl WasmSerialize for Output {
    open spec fn ser_ok(v: Output) -> bool {
        v.wf()
    }

    open spec fn encoded(v: Output) -> JVal {
        v.shape()
    }

    fn serialize(&self, context: &mut Context) -> (r: Result<(), WriteError>) {
        let ghost pre = context.out_state();
        match context.write_object_begin(2) {
            Ok(()) => {},
            Err(e) => {
                return Err(e);
            },
        }
        match write_field(
            context,
            "discountApplicationStrategy",
            &self.discount_application_strategy,
        ) {
            Ok(()) => {},
            Err(e) => {
                return Err(e);
            },
        }
        proof {
            assert(forall|k: int|
                0 <= k < self.discounts.deep_view().len() ==> Discount::ser_ok(
                    #[trigger] self.discounts.deep_view()[k],
                )) by {
                assert forall|k: int|
                    0 <= k < self.discounts.deep_view().len() implies Discount::ser_ok(
                    self.discounts.deep_view()[k],
                ) by {
                    assert(self.discounts.deep_view()[k] == self.discounts@[k]);
                    assert(self.discounts@[k].wf());
                }
            }
        }
        match write_field(context, "discounts", &self.discounts) {
            Ok(()) => {},
            Err(e) => {
                return Err(e);
            },
        }
        let r = context.write_object_end();
        proof {
            let discounts_enc = Vec::<Discount>::encoded(self.discounts.deep_view());
            assert(discounts_enc == JVal::Arr(
                Seq::new(self.discounts@.len(), |k: int| self.discounts@[k].shape()),
            )) by {
                let got = Vec::<Discount>::encoded(self.discounts.deep_view())->Arr_0;
                let want = Seq::new(self.discounts@.len(), |k: int| self.discounts@[k].shape());
                assert(got.len() == want.len());
                assert forall|k: int| 0 <= k < got.len() implies got[k] == want[k] by {
                    assert(self.discounts.deep_view()[k] == self.discounts@[k]);
                }
                assert(got =~= want);
            }
            let pairs = Seq::<(Seq<char>, JVal)>::empty().push(
                ("discountApplicationStrategy"@, self.discount_application_strategy.shape()),
            ).push(("discounts"@, discounts_enc));
            assert(context.out_state() =~= out_push_value(pre, self.shape())) by {
                assert(self.shape()->Obj_0 =~= pairs);
            }
        }
        r
    }
}

} // verus!
