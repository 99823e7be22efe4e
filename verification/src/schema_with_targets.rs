//! The target schema as the test fixtures select it: the same lazy input,
//! and a second-target result that carries a country instead of operations.

use vstd::prelude::*;
use crate::context::{out_push_value, Context, WriteError};
use crate::function::{render_output, Error};
use crate::json_text::parse_json;
use crate::read::field_spec;
use crate::schema::{Input, InputCells};
use crate::store::JVal;
use crate::write::{write_field, WasmSerialize};

verus! {

/// The result of a simple renaming function: only an optional new name.
#[derive(Clone, Debug, PartialEq)]
pub struct FunctionResult {
    pub name: Option<String>,
}

impl FunctionResult {
    /// The declared field, omitted when absent.
    pub open spec fn shape(self) -> JVal {
        JVal::Obj(
            match self.name {
                Some(nm) => seq![("name"@, JVal::Str(nm@))],
                None => Seq::<(Seq<char>, JVal)>::empty(),
            },
        )
    }
}

impl DeepView for FunctionResult {
    type V = FunctionResult;

    open spec fn deep_view(&self) -> FunctionResult {
        *self
    }
}

impl WasmSerialize for FunctionResult {
    open spec fn ser_ok(v: FunctionResult) -> bool {
        true
    }

    open spec fn encoded(v: FunctionResult) -> JVal {
        v.shape()
    }

    fn serialize(&self, context: &mut Context) -> (r: Result<(), WriteError>) {
        let ghost pre = context.out_state();
        let count: usize = if self.name.is_some() {
            1
        } else {
            0
        };
        match context.write_object_begin(count) {
            Ok(()) => {},
            Err(e) => {
                return Err(e);
            },
        }
        let ghost mut pairs = Seq::<(Seq<char>, JVal)>::empty();
        match &self.name {
            Some(nm) => {
                match write_field(context, "name", nm) {
                    Ok(()) => {},
                    Err(e) => {
                        return Err(e);
                    },
                }
                proof {
                    pairs = pairs.push(("name"@, JVal::Str(nm@)));
                }
            },
            None => {},
        }
        let r = context.write_object_end();
        proof {
            assert(context.out_state() =~= out_push_value(pre, self.shape())) by {
                assert(self.shape()->Obj_0 =~= pairs);
                assert(pairs.len() == count);
            }
        }
        r
    }
}

/// The second target's result in this selection: an optional new name and an
/// optional country, each omitted when absent.
#[derive(Clone, Debug, PartialEq)]
pub struct FunctionTargetBResult {
    pub name: Option<String>,
    pub country: Option<String>,
}

impl FunctionTargetBResult {
    /// The declared fields in order, each omitted when absent.
    pub open spec fn shape(self) -> JVal {
        JVal::Obj(
            (match self.name {
                Some(nm) => seq![("name"@, JVal::Str(nm@))],
                None => Seq::<(Seq<char>, JVal)>::empty(),
            }) + (match self.country {
                Some(c) => seq![("country"@, JVal::Str(c@))],
                None => Seq::<(Seq<char>, JVal)>::empty(),
            }),
        )
    }
}

impl DeepView for FunctionTargetBResult {
    type V = FunctionTargetBResult;

    open spec fn deep_view(&self) -> FunctionTargetBResult {
        *self
    }
}

impl WasmSerialize for FunctionTargetBResult {
    open spec fn ser_ok(v: FunctionTargetBResult) -> bool {
        true
    }

    open spec fn encoded(v: FunctionTargetBResult) -> JVal {
        v.shape()
    }

    fn serialize(&self, context: &mut Context) -> (r: Result<(), WriteError>) {
        let ghost pre = context.out_state();
        let mut count: usize = 0;
        if self.name.is_some() {
            count = count + 1;
        }
        if self.country.is_some() {
            count = count + 1;
        }
        match context.write_object_begin(count) {
            Ok(()) => {},
            Err(e) => {
                return Err(e);
            },
        }
        let ghost mut pairs = Seq::<(Seq<char>, JVal)>::empty();
        match &self.name {
            Some(nm) => {
                match write_field(context, "name", nm) {
                    Ok(()) => {},
                    Err(e) => {
                        return Err(e);
                    },
                }
                proof {
                    pairs = pairs.push(("name"@, JVal::Str(nm@)));
                }
            },
            None => {},
        }
        match &self.country {
            Some(c) => {
                match write_field(context, "country", c) {
                    Ok(()) => {},
                    Err(e) => {
                        return Err(e);
                    },
                }
                proof {
                    pairs = pairs.push(("country"@, JVal::Str(c@)));
                }
            },
            None => {},
        }
        let r = context.write_object_end();
        proof {
            assert(context.out_state() =~= out_push_value(pre, self.shape())) by {
                assert(self.shape()->Obj_0 =~= pairs);
                assert(pairs.len() == count);
            }
        }
        r
    }
}

/// Rename using the input's identifier.
pub fn my_function(input: &mut Input, store: &mut crate::store::ValueStore, cells: &mut InputCells)
    -> (r: Result<FunctionResult, Error>)
    requires
        old(store).wf(),
        old(input).inv(*old(store)),
        old(cells).wf_for(*old(store)),
        old(cells).id.spec_literal() == "id"@,
    ensures
        final(store).wf(),
        final(store).extends(*old(store)),
        final(input).inv(*final(store)),
        final(cells).wf_for(*final(store)),
        final(store).spec_nodes() == old(store).spec_nodes(),
        final(store).spec_string_lookups() == old(store).spec_string_lookups(),
        final(input).same_except_id(*old(input)),
        old(input).id_ready() ==> *final(store) == *old(store) && *final(cells) == *old(cells)
            && *final(input) == *old(input),
        !old(input).id_ready() ==> final(store).spec_token_lookups()
            == crate::store::inc(old(store).spec_token_lookups()),
        match field_spec::<String>(old(input).view(), "id"@) {
            Ok(id) => r matches Ok(out) && (out.name matches Some(nm) && nm@ == "new name: "@
                + id),
            Err(e) => r == Err::<FunctionResult, Error>(Error::Read(e)),
        },
{
    let id = match input.id(store, cells) {
        Ok(id) => id,
        Err(e) => {
            return Err(Error::Read(e));
        },
    };
    let name = String::from_str("new name: ").concat(id.as_str());
    Ok(FunctionResult { name: Some(name) })
}

/// Rename using the input's identifier, and report the fixed country.
pub fn some_function(
    input: &mut Input,
    store: &mut crate::store::ValueStore,
    cells: &mut InputCells,
) -> (r: Result<FunctionTargetBResult, Error>)
    requires
        old(store).wf(),
        old(input).inv(*old(store)),
        old(cells).wf_for(*old(store)),
        old(cells).id.spec_literal() == "id"@,
    ensures
        final(store).wf(),
        final(store).extends(*old(store)),
        final(input).inv(*final(store)),
        final(cells).wf_for(*final(store)),
        final(store).spec_nodes() == old(store).spec_nodes(),
        final(store).spec_string_lookups() == old(store).spec_string_lookups(),
        final(input).same_except_id(*old(input)),
        old(input).id_ready() ==> *final(store) == *old(store) && *final(cells) == *old(cells)
            && *final(input) == *old(input),
        !old(input).id_ready() ==> final(store).spec_token_lookups()
            == crate::store::inc(old(store).spec_token_lookups()),
        match field_spec::<String>(old(input).view(), "id"@) {
            Ok(id) => r matches Ok(out) && {
                &&& (out.name matches Some(nm) && nm@ == "new name: "@ + id)
                &&& (out.country matches Some(c) && c@ == "CA"@)
            },
            Err(e) => r == Err::<FunctionTargetBResult, Error>(Error::Read(e)),
        },
{
    let id = match input.id(store, cells) {
        Ok(id) => id,
        Err(e) => {
            return Err(Error::Read(e));
        },
    };
    let name = String::from_str("new name: ").concat(id.as_str());
    Ok(FunctionTargetBResult { name: Some(name), country: Some(String::from_str("CA")) })
}

/// The exported wrapper of the first target: read the payload into a fresh
/// session, decode lazily, call the target, and render its result.
pub fn target_a_export(payload: &str) -> (r: Result<String, Error>)
    ensures
        ({
            match crate::json_text::spec_parse_json(payload@) {
                None => r == Err::<String, Error>(Error::Read(crate::read::ReadError::InvalidType)),
                Some(_) => r matches Ok(text) && exists|t: crate::json_value::JsonValue|
                    {
                        &&& t@ == (crate::schema::FunctionTargetAResult {
                            status: Some(200),
                        }).shape()
                        &&& text@ == #[trigger] crate::json_text::json_text_of(t)
                    },
            }
        }),
{
    let (store0, root) = match parse_json(payload, 0) {
        Ok(p) => p,
        Err(e) => {
            return Err(Error::Read(e));
        },
    };
    let input = Input::from_value(&store0, root);
    let out = match crate::schema::target_a(&input) {
        Ok(o) => o,
        Err(e) => {
            return Err(e);
        },
    };
    render_output(&out)
}

/// The exported wrapper of the renaming function: the payload decides the
/// name, and the rendered text is exactly the result's JSON.
pub fn my_function_export(payload: &str) -> (r: Result<String, Error>)
    ensures
        ({
            match crate::json_text::spec_parse_json(payload@) {
                None => r == Err::<String, Error>(Error::Read(crate::read::ReadError::InvalidType)),
                Some(v) => match field_spec::<String>(v, "id"@) {
                    Err(e) => r == Err::<String, Error>(Error::Read(e)),
                    Ok(id) => r matches Ok(text) && exists|t: crate::json_value::JsonValue|
                        {
                            &&& t@ == crate::store::JVal::Obj(
                                seq![("name"@, crate::store::JVal::Str("new name: "@ + id))],
                            )
                            &&& text@ == #[trigger] crate::json_text::json_text_of(t)
                        },
                },
            }
        }),
{
    let (mut store0, root) = match parse_json(payload, 0) {
        Ok(p) => p,
        Err(e) => {
            return Err(Error::Read(e));
        },
    };
    let mut input = Input::from_value(&store0, root);
    let mut cells = InputCells::new();
    let ghost v = input.view();
    let out = match my_function(&mut input, &mut store0, &mut cells) {
        Ok(o) => o,
        Err(e) => {
            return Err(e);
        },
    };
    proof {
        match field_spec::<String>(v, "id"@) {
            Ok(id) => {
                assert(out.shape() =~= crate::store::JVal::Obj(
                    seq![("name"@, crate::store::JVal::Str("new name: "@ + id))],
                ));
            },
            Err(_) => {},
        }
    }
    render_output(&out)
}

/// The exported wrapper of the second target: the payload decides the name,
/// the country is fixed, and the rendered text is exactly the result's JSON.
pub fn some_function_export(payload: &str) -> (r: Result<String, Error>)
    ensures
        ({
            match crate::json_text::spec_parse_json(payload@) {
                None => r == Err::<String, Error>(Error::Read(crate::read::ReadError::InvalidType)),
                Some(v) => match field_spec::<String>(v, "id"@) {
                    Err(e) => r == Err::<String, Error>(Error::Read(e)),
                    Ok(id) => r matches Ok(text) && exists|t: crate::json_value::JsonValue|
                        {
                            &&& t@ == crate::store::JVal::Obj(
                                seq![
                                    ("name"@, crate::store::JVal::Str("new name: "@ + id)),
                                    ("country"@, crate::store::JVal::Str("CA"@)),
                                ],
                            )
                            &&& text@ == #[trigger] crate::json_text::json_text_of(t)
                        },
                },
            }
        }),
{
    let (mut store0, root) = match parse_json(payload, 0) {
        Ok(p) => p,
        Err(e) => {
            return Err(Error::Read(e));
        },
    };
    let mut input = Input::from_value(&store0, root);
    let mut cells = InputCells::new();
    let ghost v = input.view();
    let out = match some_function(&mut input, &mut store0, &mut cells) {
        Ok(o) => o,
        Err(e) => {
            return Err(e);
        },
    };
    proof {
        match field_spec::<String>(v, "id"@) {
            Ok(id) => {
                let got = out.shape()->Obj_0;
                let want = seq![
                    ("name"@, crate::store::JVal::Str("new name: "@ + id)),
                    ("country"@, crate::store::JVal::Str("CA"@)),
                ];
                assert(got.len() == 2);
                assert(got[0] == ("name"@, crate::store::JVal::Str(out.name.unwrap()@)));
                assert(got[1] == ("country"@, crate::store::JVal::Str(out.country.unwrap()@)));
                assert(got =~= want);
                assert(out.shape() =~= crate::store::JVal::Obj(want));
            },
            Err(_) => {},
        }
    }
    render_output(&out)
}

} // verus!
