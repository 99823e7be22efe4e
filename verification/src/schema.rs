//! The generated accessor pattern, as the schema generator must emit it: one
//! lazy, memoized accessor per selected field, keyed through the interning
//! cache. Decoding a struct only captures its root handle; each field is
//! decoded on first access and never again; each field's literal name is
//! interned at most once per store and looked up by token thereafter.

use vstd::prelude::*;
use crate::context::{out_push_value, Context, WriteError};
use crate::decimal::Decimal;
use crate::function::Error;
use crate::intern::{lemma_cell_wf_extends, CachedInternedStringId};
use crate::read::{decode_rel, field_spec, interned_prop, ReadError, WasmDeserialize};
use crate::scalars::Int;
use crate::store::{
    as_number_spec, as_string_spec, inc, prop_lookup, JVal, Value, ValueStore,
};
use crate::write::{write_field, WasmSerialize};

verus! {

/// The interning cells for the input's field names: one per literal, shared
/// across every sibling decoded against the same store.
pub struct InputCells {
    pub id: CachedInternedStringId,
    pub num: CachedInternedStringId,
    pub name: CachedInternedStringId,
    pub country: CachedInternedStringId,
}

impl InputCells {
    /// All cells are coherent against the store.
    pub open spec fn wf_for(self, store: ValueStore) -> bool {
        &&& self.id.wf_for(store)
        &&& self.num.wf_for(store)
        &&& self.name.wf_for(store)
        &&& self.country.wf_for(store)
    }

    /// Fresh cells: constructing them involves no host interaction.
    pub fn new() -> (r: InputCells)
        ensures
            r.id.spec_literal() == "id"@,
            r.num.spec_literal() == "num"@,
            r.name.spec_literal() == "name"@,
            r.country.spec_literal() == "country"@,
            forall|store: ValueStore| #[trigger] r.wf_for(store),
    {
        let r = InputCells {
            id: CachedInternedStringId::new("id"),
            num: CachedInternedStringId::new("num"),
            name: CachedInternedStringId::new("name"),
            country: CachedInternedStringId::new("country"),
        };
        r
    }
}

/// The lazily decoded input of the target functions: an identifier, and
/// three nullable fields. Decoding captures the root handle and nothing
/// else; each accessor decodes its field once and remembers the result.
pub struct Input {
    root: Value,
    view_snap: Ghost<JVal>,
    id: Option<String>,
    num: Option<Option<i64>>,
    name: Option<Option<String>>,
    country: Option<Option<String>>,
}

impl Input {
    /// The mathematical value this input was decoded from.
    pub closed spec fn view(self) -> JVal {
        self.view_snap@
    }

    /// The identifier was already decoded.
    pub closed spec fn id_ready(self) -> bool {
        self.id is Some
    }

    /// The number was already decoded.
    pub closed spec fn num_ready(self) -> bool {
        self.num is Some
    }

    /// The name was already decoded.
    pub closed spec fn name_ready(self) -> bool {
        self.name is Some
    }

    /// The country was already decoded.
    pub closed spec fn country_ready(self) -> bool {
        self.country is Some
    }

    /// Coherence against a store: the captured handle still means what it
    /// meant, and every memoized field holds exactly what decoding the field
    /// yields.
    pub open spec fn inv(self, store: ValueStore) -> bool {
        &&& self.wf_root(store)
        &&& self.memo_ok()
    }

    /// The captured handle and its snapshot agree with the store.
    pub closed spec fn wf_root(self, store: ValueStore) -> bool {
        &&& self.root.wf_for(store)
        &&& self.view_snap@ == self.root.view_in(store)
    }

    /// Everything but the identifier's memo is as it was.
    pub closed spec fn same_except_id(self, other: Input) -> bool {
        &&& self.root == other.root
        &&& self.view_snap == other.view_snap
        &&& self.num == other.num
        &&& self.name == other.name
        &&& self.country == other.country
    }

    /// Everything but the number's memo is as it was.
    pub closed spec fn same_except_num(self, other: Input) -> bool {
        &&& self.root == other.root
        &&& self.view_snap == other.view_snap
        &&& self.id == other.id
        &&& self.name == other.name
        &&& self.country == other.country
    }

    /// Everything but the name's memo is as it was.
    pub closed spec fn same_except_name(self, other: Input) -> bool {
        &&& self.root == other.root
        &&& self.view_snap == other.view_snap
        &&& self.id == other.id
        &&& self.num == other.num
        &&& self.country == other.country
    }

    /// Everything but the country's memo is as it was.
    pub closed spec fn same_except_country(self, other: Input) -> bool {
        &&& self.root == other.root
        &&& self.view_snap == other.view_snap
        &&& self.id == other.id
        &&& self.num == other.num
        &&& self.name == other.name
    }

    /// Every memoized field holds its field's decode.
    pub closed spec fn memo_ok(self) -> bool {
        &&& (self.id matches Some(x) ==> field_spec::<String>(self.view(), "id"@) == Ok::<
            _,
            ReadError,
        >(x@))
        &&& (self.num matches Some(x) ==> field_spec::<Option<i64>>(self.view(), "num"@) == Ok::<
            _,
            ReadError,
        >(x))
        &&& (self.name matches Some(x) ==> field_spec::<Option<String>>(self.view(), "name"@)
            == Ok::<_, ReadError>(x.deep_view()))
        &&& (self.country matches Some(x) ==> field_spec::<Option<String>>(
            self.view(),
            "country"@,
        ) == Ok::<_, ReadError>(x.deep_view()))
    }

    /// Capture an input: no field-level decode work happens here — the store
    /// is not even writable, so no lookup can be counted.
    pub fn from_value(store: &ValueStore, v: Value) -> (r: Input)
        requires
            store.wf(),
            v.wf_for(*store),
        ensures
            r.inv(*store),
            r.view() == v.view_in(*store),
            !r.id_ready(),
            !r.num_ready(),
            !r.name_ready(),
            !r.country_ready(),
    {
        Input {
            root: v,
            view_snap: Ghost(v.view_in(*store)),
            id: None,
            num: None,
            name: None,
            country: None,
        }
    }

    /// The identifier: decoded through the interning cache on first access,
    /// answered from the memo thereafter.
    pub fn id(&mut self, store: &mut ValueStore, cells: &mut InputCells) -> (r: Result<
        String,
        ReadError,
    >)
        requires
            old(store).wf(),
            old(self).inv(*old(store)),
            old(cells).wf_for(*old(store)),
            old(cells).id.spec_literal() == "id"@,
        ensures
            final(store).wf(),
            final(store).extends(*old(store)),
            final(store).spec_nodes() == old(store).spec_nodes(),
            final(self).inv(*final(store)),
            final(self).view() == old(self).view(),
            final(cells).wf_for(*final(store)),
            final(cells).id.spec_literal() == "id"@,
            decode_rel::<String>(r, field_spec::<String>(old(self).view(), "id"@)),
            r is Ok ==> final(self).id_ready(),
            final(self).same_except_id(*old(self)),
            r is Err ==> *final(self) == *old(self),
            old(self).id_ready() ==> *final(store) == *old(store) && *final(cells) == *old(cells)
                && *final(self) == *old(self),
            !old(self).id_ready() ==> {
                &&& final(store).spec_string_lookups() == old(store).spec_string_lookups()
                &&& final(store).spec_token_lookups() == inc(old(store).spec_token_lookups())
                &&& (old(cells).id.hit(*old(store)) ==> final(store).spec_interns() == old(
                    store,
                ).spec_interns())
                &&& (!old(cells).id.hit(*old(store)) ==> final(store).spec_interns() == inc(
                    old(store).spec_interns(),
                ))
            },
    {
        match &self.id {
            Some(x) => {
                proof {
                    crate::store::lemma_extends_refl(*store);
                }
                return Ok(x.clone());
            },
            None => {},
        }
        let ghost pre = *store;
        let field = interned_prop(store, self.root, &mut cells.id);
        proof {
            crate::store::lemma_value_view_extends(pre, *store, self.root);
            lemma_cell_wf_extends(cells.num, pre, *store);
            lemma_cell_wf_extends(cells.name, pre, *store);
            lemma_cell_wf_extends(cells.country, pre, *store);
        }
        match field.as_string(store) {
            Some(s) => {
                self.id = Some(s.clone());
                Ok(s)
            },
            None => Err(ReadError::InvalidType),
        }
    }

    /// The nullable number field, lazily decoded and memoized.
    pub fn num(&mut self, store: &mut ValueStore, cells: &mut InputCells) -> (r: Result<
        Option<i64>,
        ReadError,
    >)
        requires
            old(store).wf(),
            old(self).inv(*old(store)),
            old(cells).wf_for(*old(store)),
            old(cells).num.spec_literal() == "num"@,
        ensures
            final(store).wf(),
            final(store).extends(*old(store)),
            final(store).spec_nodes() == old(store).spec_nodes(),
            final(self).inv(*final(store)),
            final(self).view() == old(self).view(),
            final(cells).wf_for(*final(store)),
            final(cells).num.spec_literal() == "num"@,
            decode_rel::<Option<i64>>(r, field_spec::<Option<i64>>(old(self).view(), "num"@)),
            r is Ok ==> final(self).num_ready(),
            final(self).same_except_num(*old(self)),
            r is Err ==> *final(self) == *old(self),
            old(self).num_ready() ==> *final(store) == *old(store) && *final(cells) == *old(
                cells,
            ) && *final(self) == *old(self),
            !old(self).num_ready() ==> {
                &&& final(store).spec_string_lookups() == old(store).spec_string_lookups()
                &&& final(store).spec_token_lookups() == inc(old(store).spec_token_lookups())
            },
    {
        match &self.num {
            Some(x) => {
                proof {
                    crate::store::lemma_extends_refl(*store);
                }
                return Ok(*x);
            },
            None => {},
        }
        let ghost pre = *store;
        let field = interned_prop(store, self.root, &mut cells.num);
        proof {
            crate::store::lemma_value_view_extends(pre, *store, self.root);
            lemma_cell_wf_extends(cells.id, pre, *store);
            lemma_cell_wf_extends(cells.name, pre, *store);
            lemma_cell_wf_extends(cells.country, pre, *store);
        }
        match read_opt_i64(store, field) {
            Ok(x) => {
                self.num = Some(x);
                Ok(x)
            },
            Err(e) => Err(e),
        }
    }

    /// The nullable name field, lazily decoded and memoized.
    pub fn name(&mut self, store: &mut ValueStore, cells: &mut InputCells) -> (r: Result<
        Option<String>,
        ReadError,
    >)
        requires
            old(store).wf(),
            old(self).inv(*old(store)),
            old(cells).wf_for(*old(store)),
            old(cells).name.spec_literal() == "name"@,
        ensures
            final(store).wf(),
            final(store).extends(*old(store)),
            final(store).spec_nodes() == old(store).spec_nodes(),
            final(self).inv(*final(store)),
            final(self).view() == old(self).view(),
            final(cells).wf_for(*final(store)),
            decode_rel::<Option<String>>(
                r,
                field_spec::<Option<String>>(old(self).view(), "name"@),
            ),
            r is Ok ==> final(self).name_ready(),
            final(self).same_except_name(*old(self)),
            r is Err ==> *final(self) == *old(self),
            old(self).name_ready() ==> *final(store) == *old(store) && *final(cells) == *old(
                cells,
            ) && *final(self) == *old(self),
            !old(self).name_ready() ==> {
                &&& final(store).spec_string_lookups() == old(store).spec_string_lookups()
                &&& final(store).spec_token_lookups() == inc(old(store).spec_token_lookups())
            },
    {
        match &self.name {
            Some(x) => {
                proof {
                    crate::store::lemma_extends_refl(*store);
                }
                return Ok(x.clone());
            },
            None => {},
        }
        let ghost pre = *store;
        let field = interned_prop(store, self.root, &mut cells.name);
        proof {
            crate::store::lemma_value_view_extends(pre, *store, self.root);
            lemma_cell_wf_extends(cells.id, pre, *store);
            lemma_cell_wf_extends(cells.num, pre, *store);
            lemma_cell_wf_extends(cells.country, pre, *store);
        }
        match read_opt_string(store, field) {
            Ok(x) => {
                let memo = match &x {
                    Some(s) => Some(s.clone()),
                    None => None,
                };
                proof {
                    assert(memo.deep_view() =~= x.deep_view());
                }
                self.name = Some(memo);
                Ok(x)
            },
            Err(e) => Err(e),
        }
    }

    /// The nullable country field, lazily decoded and memoized.
    pub fn country(&mut self, store: &mut ValueStore, cells: &mut InputCells) -> (r: Result<
        Option<String>,
        ReadError,
    >)
        requires
            old(store).wf(),
            old(self).inv(*old(store)),
            old(cells).wf_for(*old(store)),
            old(cells).country.spec_literal() == "country"@,
        ensures
            final(store).wf(),
            final(store).extends(*old(store)),
            final(store).spec_nodes() == old(store).spec_nodes(),
            final(self).inv(*final(store)),
            final(self).view() == old(self).view(),
            final(cells).wf_for(*final(store)),
            decode_rel::<Option<String>>(
                r,
                field_spec::<Option<String>>(old(self).view(), "country"@),
            ),
            r is Ok ==> final(self).country_ready(),
            final(self).same_except_country(*old(self)),
            r is Err ==> *final(self) == *old(self),
            old(self).country_ready() ==> *final(store) == *old(store) && *final(cells) == *old(
                cells,
            ) && *final(self) == *old(self),
            !old(self).country_ready() ==> {
                &&& final(store).spec_string_lookups() == old(store).spec_string_lookups()
                &&& final(store).spec_token_lookups() == inc(old(store).spec_token_lookups())
            },
    {
        match &self.country {
            Some(x) => {
                proof {
                    crate::store::lemma_extends_refl(*store);
                }
                return Ok(x.clone());
            },
            None => {},
        }
        let ghost pre = *store;
        let field = interned_prop(store, self.root, &mut cells.country);
        proof {
            crate::store::lemma_value_view_extends(pre, *store, self.root);
            lemma_cell_wf_extends(cells.id, pre, *store);
            lemma_cell_wf_extends(cells.num, pre, *store);
            lemma_cell_wf_extends(cells.name, pre, *store);
        }
        match read_opt_string(store, field) {
            Ok(x) => {
                let memo = match &x {
                    Some(s) => Some(s.clone()),
                    None => None,
                };
                proof {
                    assert(memo.deep_view() =~= x.deep_view());
                }
                self.country = Some(memo);
                Ok(x)
            },
            Err(e) => Err(e),
        }
    }
}

/// Read a nullable number field without touching the store's counters: the
/// borrow is shared, so no lookup can even be counted.
fn read_opt_i64(store: &ValueStore, v: Value) -> (r: Result<Option<i64>, ReadError>)
    requires
        store.wf(),
        v.wf_for(*store),
    ensures
        decode_rel::<Option<i64>>(r, Option::<i64>::decode_spec(v.view_in(*store))),
{
    if v.is_null(store) {
        return Ok(None);
    }
    match v.as_number(store) {
        Some(d) => {
            if d.scale != 0 {
                return Err(ReadError::InvalidType);
            }
            if d.neg {
                if d.mantissa <= i64::MAX as u64 {
                    Ok(Some(-(d.mantissa as i64)))
                } else if d.mantissa == i64::MAX as u64 + 1 {
                    Ok(Some(i64::MIN))
                } else {
                    Err(ReadError::InvalidType)
                }
            } else {
                if d.mantissa <= i64::MAX as u64 {
                    Ok(Some(d.mantissa as i64))
                } else {
                    Err(ReadError::InvalidType)
                }
            }
        },
        None => Err(ReadError::InvalidType),
    }
}

/// Read a nullable string field without touching the store's counters.
fn read_opt_string(store: &ValueStore, v: Value) -> (r: Result<Option<String>, ReadError>)
    requires
        store.wf(),
        v.wf_for(*store),
    ensures
        decode_rel::<Option<String>>(r, Option::<String>::decode_spec(v.view_in(*store))),
{
    if v.is_null(store) {
        return Ok(None);
    }
    match v.as_string(store) {
        Some(s) => Ok(Some(s)),
        None => Err(ReadError::InvalidType),
    }
}

/// The result of the first target: an optional status, omitted when absent.
#[derive(Clone, Debug, PartialEq)]
pub struct FunctionTargetAResult {
    pub status: Option<Int>,
}

impl FunctionTargetAResult {
    /// The declared field, omitted when absent.
    pub open spec fn shape(self) -> JVal {
        JVal::Obj(
            match self.status {
                Some(s) => seq![("status"@, JVal::Num(Decimal::spec_from_i64(s as int)))],
                None => Seq::<(Seq<char>, JVal)>::empty(),
            },
        )
    }
}

impl DeepView for FunctionTargetAResult {
    type V = FunctionTargetAResult;

    open spec fn deep_view(&self) -> FunctionTargetAResult {
        *self
    }
}

impl WasmSerialize for FunctionTargetAResult {
    open spec fn ser_ok(v: FunctionTargetAResult) -> bool {
        true
    }

    open spec fn encoded(v: FunctionTargetAResult) -> JVal {
        v.shape()
    }

    fn serialize(&self, context: &mut Context) -> (r: Result<(), WriteError>) {
        let ghost pre = context.out_state();
        let count: usize = if self.status.is_some() {
            1
        } else {
            0
        };
        match context.write_object_begin(count) {
            Ok(()) => {},
            Err(e) => {
                return Err(e);
            },
        }
        let ghost mut pairs = Seq::<(Seq<char>, JVal)>::empty();
        match &self.status {
            Some(s) => {
                match write_field(context, "status", s) {
                    Ok(()) => {},
                    Err(e) => {
                        return Err(e);
                    },
                }
                proof {
                    pairs = pairs.push(("status"@, JVal::Num(Decimal::spec_from_i64(*s as int))));
                }
            },
            None => {},
        }
        let r = context.write_object_end();
        proof {
            assert(context.out_state() =~= out_push_value(pre, self.shape())) by {
                assert(self.shape()->Obj_0 =~= pairs);
                assert(pairs.len() == count);
            }
        }
        r
    }
}

/// One kind of operation the second target may return.
#[derive(Clone, Debug, PartialEq)]
pub struct This {
    pub this_field: String,
}

/// The other kind of operation the second target may return.
#[derive(Clone, Debug, PartialEq)]
pub struct That {
    pub that_field: Int,
}

/// An operation of the second target: the externally tagged union of the
/// two kinds.
#[derive(Clone, Debug, PartialEq)]
pub enum Operation {
    DoThis(This),
    DoThat(That),
}

impl Operation {
    /// One object whose single property names the chosen kind.
    pub open spec fn shape(self) -> JVal {
        match self {
            Operation::DoThis(t) => JVal::Obj(
                seq![
                    ("doThis"@, JVal::Obj(seq![("thisField"@, JVal::Str(t.this_field@))])),
                ],
            ),
            Operation::DoThat(t) => JVal::Obj(
                seq![
                    (
                        "doThat"@,
                        JVal::Obj(
                            seq![
                                (
                                    "thatField"@,
                                    JVal::Num(Decimal::spec_from_i64(t.that_field as int)),
                                ),
                            ],
                        ),
                    ),
                ],
            ),
        }
    }
}

impl DeepView for Operation {
    type V = Operation;

    open spec fn deep_view(&self) -> Operation {
        *self
    }
}

impl WasmSerialize for Operation {
    open spec fn ser_ok(v: Operation) -> bool {
        true
    }

    open spec fn encoded(v: Operation) -> JVal {
        v.shape()
    }

    fn serialize(&self, context: &mut Context) -> (r: Result<(), WriteError>) {
        let ghost pre = context.out_state();
        match context.write_object_begin(1) {
            Ok(()) => {},
            Err(e) => {
                return Err(e);
            },
        }
        let ghost pair: (Seq<char>, JVal);
        match self {
            Operation::DoThis(t) => {
                match context.write_utf8_str("doThis") {
                    Ok(()) => {},
                    Err(e) => {
                        return Err(e);
                    },
                }
                match context.write_object_begin(1) {
                    Ok(()) => {},
                    Err(e) => {
                        return Err(e);
                    },
                }
                match write_field(context, "thisField", &t.this_field) {
                    Ok(()) => {},
                    Err(e) => {
                        return Err(e);
                    },
                }
                match context.write_object_end() {
                    Ok(()) => {},
                    Err(e) => {
                        return Err(e);
                    },
                }
                proof {
                    let inner = Seq::<(Seq<char>, JVal)>::empty().push(
                        ("thisField"@, JVal::Str(t.this_field@)),
                    );
                    assert(JVal::Obj(seq![("thisField"@, JVal::Str(t.this_field@))])->Obj_0
                        =~= inner);
                    assert(JVal::Obj(seq![("thisField"@, JVal::Str(t.this_field@))]) == JVal::Obj(
                        inner,
                    ));
                    pair = ("doThis"@, JVal::Obj(seq![("thisField"@, JVal::Str(t.this_field@))]));
                }
            },
            Operation::DoThat(t) => {
                match context.write_utf8_str("doThat") {
                    Ok(()) => {},
                    Err(e) => {
                        return Err(e);
                    },
                }
                match context.write_object_begin(1) {
                    Ok(()) => {},
                    Err(e) => {
                        return Err(e);
                    },
                }
                match write_field(context, "thatField", &t.that_field) {
                    Ok(()) => {},
                    Err(e) => {
                        return Err(e);
                    },
                }
                match context.write_object_end() {
                    Ok(()) => {},
                    Err(e) => {
                        return Err(e);
                    },
                }
                proof {
                    let inner = Seq::<(Seq<char>, JVal)>::empty().push(
                        ("thatField"@, JVal::Num(Decimal::spec_from_i64(t.that_field as int))),
                    );
                    assert(JVal::Obj(
                        seq![
                            ("thatField"@, JVal::Num(Decimal::spec_from_i64(t.that_field as int))),
                        ],
                    )->Obj_0 =~= inner);
                    pair = (
                        "doThat"@,
                        JVal::Obj(
                            seq![
                                (
                                    "thatField"@,
                                    JVal::Num(Decimal::spec_from_i64(t.that_field as int)),
                                ),
                            ],
                        ),
                    );
                }
            },
        }
        let r = context.write_object_end();
        proof {
            let pairs = Seq::<(Seq<char>, JVal)>::empty().push(pair);
            assert(context.out_state() =~= out_push_value(pre, self.shape())) by {
                assert(self.shape()->Obj_0 =~= pairs);
            }
        }
        r
    }
}

/// The result of the second target: an optional new name, and the
/// operations to perform.
#[derive(Clone, Debug, PartialEq)]
pub struct FunctionTargetBResult {
    pub name: Option<String>,
    pub operations: Vec<Operation>,
}

impl FunctionTargetBResult {
    /// The declared fields in order; an absent name is omitted.
    pub open spec fn shape(self) -> JVal {
        JVal::Obj(
            (match self.name {
                Some(nm) => seq![("name"@, JVal::Str(nm@))],
                None => Seq::<(Seq<char>, JVal)>::empty(),
            }) + seq![
                (
                    "operations"@,
                    JVal::Arr(
                        Seq::new(self.operations@.len(), |k: int| self.operations@[k].shape()),
                    ),
                ),
            ],
        )
    }
}

impl DeepView for FunctionTargetBResult {
    type V = FunctionTargetBResult;

    open spec fn deep_view(&self) -> FunctionTargetBResult {
        *self
    }
}

impl WasmSerialize for FunctionTargetBResult {
    open spec fn ser_ok(v: FunctionTargetBResult) -> bool {
        true
    }

    open spec fn encoded(v: FunctionTargetBResult) -> JVal {
        v.shape()
    }

    fn serialize(&self, context: &mut Context) -> (r: Result<(), WriteError>) {
        let ghost pre = context.out_state();
        let count: usize = if self.name.is_some() {
            2
        } else {
            1
        };
        match context.write_object_begin(count) {
            Ok(()) => {},
            Err(e) => {
                return Err(e);
            },
        }
        let ghost mut pairs = Seq::<(Seq<char>, JVal)>::empty();
        match &self.name {
            Some(nm) => {
                match write_field(context, "name", nm) {
                    Ok(()) => {},
                    Err(e) => {
                        return Err(e);
                    },
                }
                proof {
                    pairs = pairs.push(("name"@, JVal::Str(nm@)));
                }
            },
            None => {},
        }
        match write_field(context, "operations", &self.operations) {
            Ok(()) => {},
            Err(e) => {
                return Err(e);
            },
        }
        let r = context.write_object_end();
        proof {
            let ops = Vec::<Operation>::encoded(self.operations.deep_view());
            assert(ops == JVal::Arr(
                Seq::new(self.operations@.len(), |k: int| self.operations@[k].shape()),
            )) by {
                let got = ops->Arr_0;
                let want = Seq::new(self.operations@.len(), |k: int| self.operations@[k].shape());
                assert(got.len() == want.len());
                assert forall|k: int| 0 <= k < got.len() implies got[k] == want[k] by {
                    assert(self.operations.deep_view()[k] == self.operations@[k]);
                }
                assert(got =~= want);
            }
            pairs = pairs.push(
                (
                    "operations"@,
                    JVal::Arr(
                        Seq::new(self.operations@.len(), |k: int| self.operations@[k].shape()),
                    ),
                ),
            );
            assert(context.out_state() =~= out_push_value(pre, self.shape())) by {
                assert(self.shape()->Obj_0 =~= pairs);
                assert(pairs.len() == count);
            }
        }
        r
    }
}

/// The first target: it reads nothing and reports success.
pub fn target_a(_input: &Input) -> (r: Result<FunctionTargetAResult, Error>)
    ensures
        r == Ok::<FunctionTargetAResult, Error>(FunctionTargetAResult { status: Some(200) }),
{
    Ok(FunctionTargetAResult { status: Some(200) })
}

/// The second target: a new name quoting the input's identifier, and the
/// two operations.
pub fn target_b(input: &mut Input, store: &mut ValueStore, cells: &mut InputCells) -> (r: Result<
    FunctionTargetBResult,
    Error,
>)
    requires
        old(store).wf(),
        old(input).inv(*old(store)),
        old(cells).wf_for(*old(store)),
        old(cells).id.spec_literal() == "id"@,
    ensures
        final(store).wf(),
        final(store).extends(*old(store)),
        final(input).inv(*final(store)),
        final(cells).wf_for(*final(store)),
        final(cells).id.spec_literal() == "id"@,
        final(store).spec_nodes() == old(store).spec_nodes(),
        final(store).spec_string_lookups() == old(store).spec_string_lookups(),
        final(input).same_except_id(*old(input)),
        old(input).id_ready() ==> *final(store) == *old(store) && *final(cells) == *old(cells)
            && *final(input) == *old(input),
        !old(input).id_ready() ==> final(store).spec_token_lookups() == inc(
            old(store).spec_token_lookups(),
        ),
        match field_spec::<String>(old(input).view(), "id"@) {
            Ok(id) => r matches Ok(out) && {
                &&& out.name matches Some(nm)
                &&& out.name.unwrap()@ == "new name: \""@ + id + "\""@
                &&& out.operations@.len() == 2
                &&& (out.operations@[0] matches Operation::DoThis(t) && t.this_field@
                    == "this field"@)
                &&& (out.operations@[1] matches Operation::DoThat(t) && t.that_field == 42)
            },
            Err(e) => r == Err::<FunctionTargetBResult, Error>(Error::Read(e)),
        },
{
    let id = match input.id(store, cells) {
        Ok(id) => id,
        Err(e) => {
            return Err(Error::Read(e));
        },
    };
    let name = String::from_str("new name: \"").concat(id.as_str()).concat("\"");
    let mut operations: Vec<Operation> = Vec::new();
    operations.push(Operation::DoThis(This { this_field: String::from_str("this field") }));
    operations.push(Operation::DoThat(That { that_field: 42 }));
    Ok(FunctionTargetBResult { name: Some(name), operations })
}

/// The second target under its explicit handle: only the new name.
pub fn function_b(input: &mut Input, store: &mut ValueStore, cells: &mut InputCells) -> (r: Result<
    FunctionTargetBResult,
    Error,
>)
    requires
        old(store).wf(),
        old(input).inv(*old(store)),
        old(cells).wf_for(*old(store)),
        old(cells).id.spec_literal() == "id"@,
    ensures
        final(store).wf(),
        final(store).extends(*old(store)),
        final(input).inv(*final(store)),
        final(cells).wf_for(*final(store)),
        final(store).spec_nodes() == old(store).spec_nodes(),
        final(store).spec_string_lookups() == old(store).spec_string_lookups(),
        final(input).same_except_id(*old(input)),
        old(input).id_ready() ==> *final(store) == *old(store) && *final(cells) == *old(cells)
            && *final(input) == *old(input),
        !old(input).id_ready() ==> final(store).spec_token_lookups() == inc(
            old(store).spec_token_lookups(),
        ),
        match field_spec::<String>(old(input).view(), "id"@) {
            Ok(id) => r matches Ok(out) && {
                &&& out.name matches Some(nm)
                &&& out.name.unwrap()@ == "new name: \""@ + id + "\""@
                &&& out.operations@.len() == 0
            },
            Err(e) => r == Err::<FunctionTargetBResult, Error>(Error::Read(e)),
        },
{
    let id = match input.id(store, cells) {
        Ok(id) => id,
        Err(e) => {
            return Err(Error::Read(e));
        },
    };
    let name = String::from_str("new name: \"").concat(id.as_str()).concat("\"");
    Ok(FunctionTargetBResult { name: Some(name), operations: Vec::new() })
}

/// One error the run target may report.
#[derive(Clone, Debug, PartialEq)]
pub struct FunctionError {
    pub localized_message: String,
    pub target: String,
}

/// The run target's result: the errors found.
#[derive(Clone, Debug, PartialEq)]
pub struct FunctionRunResult {
    pub errors: Vec<FunctionError>,
}

/// The interning cells for the run target's field names.
pub struct RunCells {
    pub cart: CachedInternedStringId,
    pub lines: CachedInternedStringId,
    pub quantity: CachedInternedStringId,
}

impl RunCells {
    /// All cells are coherent against the store.
    pub open spec fn wf_for(self, store: ValueStore) -> bool {
        &&& self.cart.wf_for(store)
        &&& self.lines.wf_for(store)
        &&& self.quantity.wf_for(store)
    }

    /// Fresh cells: no host interaction.
    pub fn new() -> (r: RunCells)
        ensures
            r.cart.spec_literal() == "cart"@,
            r.lines.spec_literal() == "lines"@,
            r.quantity.spec_literal() == "quantity"@,
            forall|store: ValueStore| #[trigger] r.wf_for(store),
    {
        RunCells {
            cart: CachedInternedStringId::new("cart"),
            lines: CachedInternedStringId::new("lines"),
            quantity: CachedInternedStringId::new("quantity"),
        }
    }
}

/// The cart lines of the run target's input.
pub open spec fn run_lines(v: JVal) -> JVal {
    prop_lookup(prop_lookup(v, "cart"@), "lines"@)
}

/// A line whose quantity exceeds one.
pub open spec fn line_over_one(lines: Seq<JVal>, k: int) -> bool {
    i64::decode_spec(prop_lookup(lines[k], "quantity"@)) matches Ok(q) && q > 1
}

/// The run target: report one error when any cart line's quantity exceeds
/// one. Every field travels through the interning cache, so the store serves
/// no lookup by string; the one quantity cell is shared across all lines.
pub fn run(store: &mut ValueStore, root: Value, cells: &mut RunCells) -> (r: Result<
    FunctionRunResult,
    Error,
>)
    requires
        old(store).wf(),
        root.wf_for(*old(store)),
        old(cells).wf_for(*old(store)),
        old(cells).cart.spec_literal() == "cart"@,
        old(cells).lines.spec_literal() == "lines"@,
        old(cells).quantity.spec_literal() == "quantity"@,
    ensures
        final(store).wf(),
        final(store).extends(*old(store)),
        final(cells).wf_for(*final(store)),
        final(store).spec_string_lookups() == old(store).spec_string_lookups(),
        ({
            let ls = run_lines(root.view_in(*old(store)));
            match r {
                Ok(out) => {
                    &&& ls is Arr
                    &&& (forall|k: int|
                        0 <= k < ls->Arr_0.len() ==> i64::decode_spec(
                            prop_lookup(#[trigger] ls->Arr_0[k], "quantity"@),
                        ) is Ok)
                    &&& out.errors@.len() == (if exists|k: int|
                        0 <= k < ls->Arr_0.len() && line_over_one(ls->Arr_0, k) {
                        1int
                    } else {
                        0int
                    })
                    &&& (out.errors@.len() == 1 ==> out.errors@[0].localized_message@
                        == "Quantity must be 1"@ && out.errors@[0].target@
                        == "cart.lines.quantity"@)
                },
                Err(e) => e == Error::Read(ReadError::InvalidType) && (!(ls is Arr) || exists|
                    k: int,
                |
                    0 <= k < ls->Arr_0.len() && !(i64::decode_spec(
                        prop_lookup(#[trigger] ls->Arr_0[k], "quantity"@),
                    ) is Ok)),
            }
        }),
{
    let ghost v0 = root.view_in(*old(store));
    let ghost pre0 = *store;
    let cart = interned_prop(store, root, &mut cells.cart);
    proof {
        lemma_cell_wf_extends(cells.lines, pre0, *store);
        lemma_cell_wf_extends(cells.quantity, pre0, *store);
    }
    let ghost pre1 = *store;
    let lines = interned_prop(store, cart, &mut cells.lines);
    proof {
        crate::store::lemma_extends_trans(*store, pre1, pre0);
        lemma_cell_wf_extends(cells.cart, pre1, *store);
        lemma_cell_wf_extends(cells.quantity, pre1, *store);
    }
    let n = match lines.array_len(store) {
        Some(n) => n,
        None => {
            return Err(Error::Read(ReadError::InvalidType));
        },
    };
    let ghost ls = run_lines(v0)->Arr_0;
    let mut found = false;
    let mut k: usize = 0;
    while k < n
        invariant
            k <= n,
            old(store).wf(),
            store.wf(),
            store.extends(*old(store)),
            store.spec_string_lookups() == old(store).spec_string_lookups(),
            cells.wf_for(*store),
            cells.cart.spec_literal() == "cart"@,
            cells.lines.spec_literal() == "lines"@,
            cells.quantity.spec_literal() == "quantity"@,
            lines.wf_for(*store),
            lines.view_in(*store) == run_lines(root.view_in(*old(store))),
            lines.view_in(*store) is Arr,
            ls == lines.view_in(*store)->Arr_0,
            n == ls.len(),
            forall|t: int|
                0 <= t < k ==> i64::decode_spec(
                    prop_lookup(#[trigger] ls[t], "quantity"@),
                ) is Ok,
            found == exists|t: int| 0 <= t < k && line_over_one(ls, t),
        decreases n - k,
    {
        let ghost sp = *store;
        let line = lines.get_at_index(store, k);
        let qv = interned_prop(store, line, &mut cells.quantity);
        proof {
            crate::store::lemma_extends_trans(*store, sp, *old(store));
            crate::store::lemma_value_view_extends(sp, *store, lines);
            lemma_cell_wf_extends(cells.cart, sp, *store);
            lemma_cell_wf_extends(cells.lines, sp, *store);
        }
        let q = match read_opt_i64(store, qv) {
            Ok(Some(q)) => q,
            Ok(None) => {
                return Err(Error::Read(ReadError::InvalidType));
            },
            Err(e) => {
                return Err(Error::Read(e));
            },
        };
        if q > 1 {
            proof {
                assert(line_over_one(ls, k as int));
            }
            found = true;
        }
        proof {
            if found {
                assert(exists|t: int| 0 <= t < k + 1 && line_over_one(ls, t));
            }
        }
        k = k + 1;
    }
    let mut errors: Vec<FunctionError> = Vec::new();
    if found {
        errors.push(
            FunctionError {
                localized_message: String::from_str("Quantity must be 1"),
                target: String::from_str("cart.lines.quantity"),
            },
        );
    }
    Ok(FunctionRunResult { errors })
}

/// A plain schema enumeration, as the generator emits it: members decode and
/// encode by exact string match, an unknown member name decodes to the
/// catch-all variant so that new host members do not break older modules,
/// and the catch-all itself cannot be encoded — there is no string to emit.
#[derive(Clone, Copy, Debug, PartialEq, Eq, Structural)]
pub enum CountryCode {
    Ca,
    Us,
    Other,
}

impl CountryCode {
    /// The member for a host-side name; an unknown name is the catch-all.
    pub open spec fn spec_from_str(s: Seq<char>) -> CountryCode {
        if s == "CA"@ {
            CountryCode::Ca
        } else if s == "US"@ {
            CountryCode::Us
        } else {
            CountryCode::Other
        }
    }

    /// The host-side member name; the catch-all has none.
    pub open spec fn shape(self) -> JVal {
        match self {
            CountryCode::Ca => JVal::Str("CA"@),
            CountryCode::Us => JVal::Str("US"@),
            CountryCode::Other => JVal::Null,
        }
    }

    /// The member for a host-side name; an unknown name is the catch-all.
    pub fn from_str(s: &str) -> (r: CountryCode)
        ensures
            r == CountryCode::spec_from_str(s@),
    {
        if crate::store::str_eq(s, "CA") {
            CountryCode::Ca
        } else if crate::store::str_eq(s, "US") {
            CountryCode::Us
        } else {
            CountryCode::Other
        }
    }
}

impl DeepView for CountryCode {
    type V = CountryCode;

    open spec fn deep_view(&self) -> CountryCode {
        *self
    }
}

impl WasmDeserialize for CountryCode {
    /// Any string decodes — unknown member names become the catch-all;
    /// anything but a string is a type error.
    open spec fn decode_spec(v: JVal) -> Result<CountryCode, ReadError> {
        match crate::store::as_string_spec(v) {
            Some(s) => Ok(CountryCode::spec_from_str(s)),
            None => Err(ReadError::InvalidType),
        }
    }

    open spec fn decoded_inv(self, store: ValueStore, v: JVal) -> bool {
        true
    }

    proof fn decoded_inv_extends(self, s1: ValueStore, s2: ValueStore, v: JVal) {
    }

    fn deserialize(store: &mut ValueStore, v: Value) -> (r: Result<CountryCode, ReadError>) {
        proof {
            crate::store::lemma_extends_refl(*store);
        }
        match v.as_string(store) {
            Some(s) => Ok(CountryCode::from_str(s.as_str())),
            None => Err(ReadError::InvalidType),
        }
    }
}

impl WasmSerialize for CountryCode {
    /// The catch-all member cannot be encoded — there is no member name to
    /// emit — so encoding it is a programming error, excluded by contract.
    open spec fn ser_ok(v: CountryCode) -> bool {
        !(v is Other)
    }

    open spec fn encoded(v: CountryCode) -> JVal {
        v.shape()
    }

    fn serialize(&self, context: &mut Context) -> (r: Result<(), WriteError>) {
        let s: &str = match self {
            CountryCode::Ca => "CA",
            CountryCode::Us => "US",
            CountryCode::Other => "",
        };
        proof {
            crate::write::lemma_push_str_is_value(context.out_state(), s@);
        }
        context.write_utf8_str(s)
    }
}

/// Round trip of a plain enumeration: every encodable member decodes back to
/// itself from its own member name.
pub proof fn lemma_enum_round_trip(c: CountryCode)
    requires
        !(c is Other),
    ensures
        CountryCode::decode_spec(c.shape()) == Ok::<CountryCode, ReadError>(c),
{
    reveal_strlit("CA");
    reveal_strlit("US");
    assert("CA"@ != "US"@) by {
        assert("CA"@[1] != "US"@[1]);
    }
}

} // verus!
