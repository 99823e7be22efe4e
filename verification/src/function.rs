//! The discount function: read the configuration from the metafield, pick
//! the qualifying cart lines, and produce one percentage discount targeting
//! them. Also the generic runner that feeds a function from a JSON payload.

use vstd::prelude::*;
use crate::context::{Context, WriteError};
use crate::decimal::{spec_display, Decimal};
use crate::input::{CartLineV, ResponseData};
use crate::json_text::parse_json;
use crate::output::{
    DiscountApplicationStrategy, Discount, FunctionResult, Percentage, ProductVariantTarget,
    Target, Value,
};
use crate::read::{req_field_spec, ReadError, WasmDeserialize};
use crate::store::{as_number_spec, prop_lookup, JVal, ValueStore};
use crate::write::WasmSerialize;

verus! {

/// A decode or encode failure of one invocation.
#[derive(Debug, Clone, Copy, PartialEq, Eq, Structural)]
pub enum Error {
    Read(ReadError),
    Write(WriteError),
}

/// The configuration block carried in the metafield: the quantity threshold
/// and the percentage to apply.
#[derive(Clone, Copy, Debug, PartialEq, Eq, Structural)]
pub struct Config {
    pub quantity: i64,
    pub percentage: Decimal,
}

impl Config {
    /// The configuration used when none is given: no threshold, no
    /// percentage.
    pub open spec fn spec_default() -> Config {
        Config { quantity: 0, percentage: Decimal { neg: false, mantissa: 0, scale: 0 } }
    }

    /// Its percentage is canonical.
    pub open spec fn wf(self) -> bool {
        self.percentage.wf()
    }
}

impl Default for Config {
    fn default() -> (r: Config)
        ensures
            r == Config::spec_default(),
    {
        Config { quantity: 0, percentage: Decimal { neg: false, mantissa: 0, scale: 0 } }
    }
}

impl DeepView for Config {
    type V = Config;

    open spec fn deep_view(&self) -> Config {
        *self
    }
}

impl WasmDeserialize for Config {
    /// Both fields are required; the percentage arrives as a number and is
    /// canonicalized.
    open spec fn decode_spec(v: JVal) -> Result<Config, ReadError> {
        match req_field_spec::<i64>(v, "quantity"@) {
            Ok(q) => {
                let f = prop_lookup(v, "percentage"@);
                if f is Null {
                    Err(ReadError::MissingOrInvalidField)
                } else {
                    match as_number_spec(f) {
                        Some(d) => Ok(
                            Config {
                                quantity: q,
                                percentage: Decimal::spec_canon(
                                    d.neg,
                                    d.mantissa as nat,
                                    d.scale as nat,
                                ),
                            },
                        ),
                        None => Err(ReadError::InvalidType),
                    }
                }
            },
            Err(e) => Err(e),
        }
    }

    open spec fn decoded_inv(self, store: ValueStore, v: JVal) -> bool {
        true
    }

    proof fn decoded_inv_extends(self, s1: ValueStore, s2: ValueStore, v: JVal) {
    }

    fn deserialize(store: &mut ValueStore, v: crate::store::Value) -> (r: Result<
        Config,
        ReadError,
    >) {
        proof {
            reveal_strlit("quantity");
            reveal_strlit("percentage");
        }
        let ghost pre = *store;
        let quantity = match crate::read::decode_required_field::<i64>(store, v, "quantity") {
            Ok(q) => q,
            Err(e) => {
                return Err(e);
            },
        };
        let ghost mid = *store;
        let f = v.get_obj_prop(store, "percentage");
        proof {
            crate::store::lemma_same_content_extends(*store, mid);
            crate::store::lemma_extends_trans(*store, mid, pre);
        }
        if f.is_null(store) {
            return Err(ReadError::MissingOrInvalidField);
        }
        match f.as_number(store) {
            Some(d) => Ok(
                Config { quantity, percentage: Decimal::from_parts(d.neg, d.mantissa, d.scale) },
            ),
            None => Err(ReadError::InvalidType),
        }
    }
}

proof fn lemma_config_decode_wf(v: JVal, c: Config)
    requires
        Config::decode_spec(v) == Ok::<Config, ReadError>(c),
    ensures
        c.wf(),
{
    let f = prop_lookup(v, "percentage"@);
    let d = as_number_spec(f).unwrap();
    Decimal::lemma_canon_wf(d.neg, d.mantissa as nat, d.scale as nat);
}

/// The qualifying lines: those whose quantity reaches the threshold and
/// whose merchandise is a known product variant.
pub open spec fn qualifying(lines: Seq<CartLineV>, threshold: i64) -> Seq<CartLineV>
    decreases lines.len(),
{
    if lines.len() == 0 {
        Seq::empty()
    } else {
        let rest = qualifying(lines.drop_last(), threshold);
        let l = lines.last();
        if l.quantity >= threshold && l.merchandise is ProductVariant {
            rest.push(l)
        } else {
            rest
        }
    }
}

/// What the discount function produces for an input and a configuration:
/// the first-discount strategy, and either no discount — an empty cart, a
/// zero percentage, or no qualifying line — or exactly one percentage
/// discount targeting every qualifying line's variant.
pub open spec fn discounts_ok(lines: Seq<CartLineV>, config: Config, out: FunctionResult) -> bool {
    let quals = qualifying(lines, config.quantity);
    &&& out.discount_application_strategy == DiscountApplicationStrategy::FIRST
    &&& if lines.len() == 0 || config.percentage.spec_is_zero() || quals.len() == 0 {
        out.discounts@.len() == 0
    } else {
        &&& out.discounts@.len() == 1
        &&& out.discounts@[0].message is None
        &&& out.discounts@[0].value.fixed_amount is None
        &&& (out.discounts@[0].value.percentage matches Some(p) && p.value@ == spec_display(
            config.percentage,
        ))
        &&& out.discounts@[0].targets@.len() == quals.len()
        &&& forall|k: int|
            0 <= k < quals.len() ==> {
                &&& (#[trigger] out.discounts@[0].targets@[k]).product_variant is Some
                &&& out.discounts@[0].targets@[k].product_variant.unwrap().id@ == quals[k].merchandise->ProductVariant_0
                &&& out.discounts@[0].targets@[k].product_variant.unwrap().quantity is None
            }
    }
}

/// Apply the configuration to the cart: the whole discount decision, as a
/// pure function of the decoded input.
pub fn apply_discounts(input: &ResponseData, config: &Config) -> (r: FunctionResult)
    requires
        config.wf(),
    ensures
        discounts_ok(input.deep_view().lines, *config, r),
{
    let lines = &input.cart.lines;
    let n = lines.len();
    let ghost linesv = input.deep_view().lines;
    if n == 0 || config.percentage.is_zero() {
        return FunctionResult {
            discounts: Vec::new(),
            discount_application_strategy: DiscountApplicationStrategy::FIRST,
        };
    }
    let mut targets: Vec<Target> = Vec::new();
    let mut i: usize = 0;
    proof {
        assert(linesv.take(0) =~= Seq::<CartLineV>::empty());
    }
    while i < n
        invariant
            i <= n,
            n == lines@.len(),
            linesv == input.deep_view().lines,
            linesv.len() == n,
            lines == input.cart.lines,
            forall|k: int| 0 <= k < n ==> linesv[k] == (#[trigger] lines@[k]).deep_view(),
            ({
                let quals = qualifying(linesv.take(i as int), config.quantity);
                &&& targets@.len() == quals.len()
                &&& forall|k: int|
                    0 <= k < quals.len() ==> {
                        &&& (#[trigger] targets@[k]).product_variant is Some
                        &&& targets@[k].product_variant.unwrap().id@ == quals[k].merchandise->ProductVariant_0
                        &&& targets@[k].product_variant.unwrap().quantity is None
                    }
            }),
        decreases n - i,
    {
        proof {
            assert(linesv.take(i + 1 as int).drop_last() =~= linesv.take(i as int));
            assert(linesv.take(i + 1 as int).last() == linesv[i as int]);
        }
        if lines[i].quantity >= config.quantity {
            match &lines[i].merchandise {
                crate::input::InputCartLinesMerchandise::ProductVariant(variant) => {
                    targets.push(
                        Target {
                            product_variant: Some(
                                ProductVariantTarget { id: variant.id.clone(), quantity: None },
                            ),
                        },
                    );
                },
                crate::input::InputCartLinesMerchandise::Other => {},
            }
        }
        i = i + 1;
    }
    proof {
        assert(linesv.take(n as int) =~= linesv);
    }
    if targets.len() == 0 {
        return FunctionResult {
            discounts: Vec::new(),
            discount_application_strategy: DiscountApplicationStrategy::FIRST,
        };
    }
    let mut discounts: Vec<Discount> = Vec::new();
    discounts.push(
        Discount {
            message: None,
            targets,
            value: Value {
                percentage: Some(Percentage { value: config.percentage.to_decimal_string() }),
                fixed_amount: None,
            },
        },
    );
    FunctionResult { discounts, discount_application_strategy: DiscountApplicationStrategy::FIRST }
}

/// What a configuration text means: the parsed document's shape, decoded as
/// a configuration block.
pub open spec fn config_of(s: Seq<char>) -> Result<Config, ReadError> {
    match crate::json_text::spec_parse_json(s) {
        Some(v) => Config::decode_spec(v),
        None => Err(ReadError::InvalidType),
    }
}

/// Read a configuration block from an optional string: a missing block, a
/// malformed one, or one whose fields do not decode all fall back to the
/// default configuration.
pub fn parse_config(config: Option<&str>) -> (r: Config)
    ensures
        config is None ==> r == Config::spec_default(),
        config matches Some(s) ==> r == (match config_of(s@) {
            Ok(c) => c,
            Err(_) => Config::spec_default(),
        }),
        r.wf(),
{
    let s = match config {
        Some(s) => s,
        None => {
            return Config::default();
        },
    };
    let (mut cstore, croot) = match parse_json(s, 0) {
        Ok(p) => p,
        Err(_) => {
            return Config::default();
        },
    };
    let ghost cs0 = cstore;
    let rc = Config::deserialize(&mut cstore, croot);
    proof {
        if rc is Ok {
            lemma_config_decode_wf(croot.view_in(cs0), rc->Ok_0);
        }
    }
    match rc {
        Ok(c) => c,
        Err(_) => Config::default(),
    }
}

/// One whole discount decision: read the configuration from the metafield —
/// a missing metafield means the default configuration, and a malformed one
/// is an error — then apply it to the cart.
pub fn function(input: &ResponseData) -> (r: Result<FunctionResult, Error>)
    ensures
        input.discount_node.metafield is None ==> (r matches Ok(out) && discounts_ok(
            input.deep_view().lines,
            Config::spec_default(),
            out,
        )),
        input.discount_node.metafield matches Some(m) ==> (match config_of(m.value@) {
            Ok(c) => r matches Ok(out) && discounts_ok(input.deep_view().lines, c, out),
            Err(e) => r == Err::<FunctionResult, Error>(Error::Read(e)),
        }),
{
    let config: Config = match &input.discount_node.metafield {
        None => Config::default(),
        Some(m) => {
            let (mut cstore, croot) = match parse_json(m.value.as_str(), 0) {
                Ok(p) => p,
                Err(e) => {
                    return Err(Error::Read(e));
                },
            };
            let ghost cs0 = cstore;
            let rc = Config::deserialize(&mut cstore, croot);
            proof {
                if rc is Ok {
                    lemma_config_decode_wf(croot.view_in(cs0), rc->Ok_0);
                }
            }
            match rc {
                Ok(c) => c,
                Err(e) => {
                    return Err(Error::Read(e));
                },
            }
        },
    };
    proof {
        assert(Config::spec_default().wf());
    }
    let out = apply_discounts(input, &config);
    Ok(out)
}

/// Run a function against the invocation payload: read the payload into a
/// store, decode the input type, and hand it to the function. A helper for
/// exercising a function without a host.
pub fn run_function_with_input<P: WasmDeserialize, O, F: Fn(P) -> Result<O, Error>>(
    f: F,
    payload: &str,
) -> (r: Result<O, Error>)
    requires
        forall|p: P| #[trigger] f.requires((p,)),
    ensures
        ({
            match crate::json_text::spec_parse_json(payload@) {
                None => r == Err::<O, Error>(Error::Read(ReadError::InvalidType)),
                Some(v) => match P::decode_spec(v) {
                    Err(e) => r == Err::<O, Error>(Error::Read(e)),
                    Ok(pv) => exists|p: P| #[trigger] p.deep_view() == pv && f.ensures((p,), r),
                },
            }
        }),
{
    let (mut store, root) = match parse_json(payload, 0) {
        Ok(p) => p,
        Err(e) => {
            return Err(Error::Read(e));
        },
    };
    let input = match P::deserialize(&mut store, root) {
        Ok(p) => p,
        Err(e) => {
            return Err(Error::Read(e));
        },
    };
    let r = f(input);
    proof {
        assert(input.deep_view() == P::decode_spec(root.view_in(store))->Ok_0);
        assert(f.ensures((input,), r));
    }
    r
}

/// Run a function end to end: decode the input from the payload, call the
/// function, encode its result through a fresh session, finalize once, and
/// render the committed output as JSON text — the full decode, decide,
/// encode trip of one invocation.
pub fn run_function_to_json<P: WasmDeserialize, O: WasmSerialize, F: Fn(P) -> Result<O, Error>>(
    f: F,
    payload: &str,
) -> (r: Result<String, Error>)
    requires
        forall|p: P| #[trigger] f.requires((p,)),
        forall|p: P, o: O| f.ensures((p,), Ok(o)) ==> O::ser_ok(o.deep_view()),
    ensures
        ({
            match crate::json_text::spec_parse_json(payload@) {
                None => r == Err::<String, Error>(Error::Read(ReadError::InvalidType)),
                Some(v) => match P::decode_spec(v) {
                    Err(e) => r == Err::<String, Error>(Error::Read(e)),
                    Ok(pv) => exists|p: P|
                        #[trigger] p.deep_view() == pv && (match r {
                            Ok(text) => exists|o: O, t: crate::json_value::JsonValue|
                                #![trigger f.ensures((p,), Ok(o)), crate::json_text::json_text_of(t)]
                                {
                                    &&& f.ensures((p,), Ok(o))
                                    &&& t@ == O::encoded(o.deep_view())
                                    &&& text@ == crate::json_text::json_text_of(t)
                                },
                            Err(e) => f.ensures((p,), Err(e)),
                        }),
                },
            }
        }),
{
    let (mut store, root) = match parse_json(payload, 0) {
        Ok(p) => p,
        Err(e) => {
            return Err(Error::Read(e));
        },
    };
    let input = match P::deserialize(&mut store, root) {
        Ok(p) => p,
        Err(e) => {
            return Err(Error::Read(e));
        },
    };
    let ghost pv = input.deep_view();
    let r0 = f(input);
    let out = match r0 {
        Ok(o) => o,
        Err(e) => {
            proof {
                assert(f.ensures((input,), Err::<O, Error>(e)));
            }
            return Err(e);
        },
    };
    let r = render_output(&out);
    proof {
        assert(f.ensures((input,), Ok(out)));
    }
    r
}

/// Encode a finished result through a fresh session, finalize it once, and
/// render the committed output as JSON text. This always succeeds, and the
/// text is pinned by the encoded value: any witness tree with that value
/// renders to the same text (`crate::json_text::lemma_json_text_by_view`).
pub fn render_output<O: WasmSerialize>(out: &O) -> (r: Result<String, Error>)
    requires
        O::ser_ok(out.deep_view()),
    ensures
        r is Ok,
        r matches Ok(text) ==> exists|t: crate::json_value::JsonValue|
            {
                &&& t@ == O::encoded(out.deep_view())
                &&& text@ == #[trigger] crate::json_text::json_text_of(t)
            },
{
    let mut context = Context::new(ValueStore::new(1));
    match out.serialize(&mut context) {
        Ok(()) => {},
        Err(e) => {
            return Err(Error::Write(e));
        },
    }
    match context.finalize_output() {
        Ok(()) => {},
        Err(e) => {
            return Err(Error::Write(e));
        },
    }
    match context.output_json_string() {
        Some(text) => Ok(text),
        None => Err(Error::Write(WriteError::InvalidState)),
    }
}

} // verus!
