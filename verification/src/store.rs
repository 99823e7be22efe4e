//! The tagged value store and the opaque value handle.
//!
//! A store owns an arena of immutable tagged nodes and a table of interned
//! key strings. A [`Value`] is a cheap, copyable handle into the arena,
//! queryable without copying the underlying payload. The store also counts
//! every interning call and every property lookup, so that laziness and
//! memoization are observable facts about it.

use vstd::prelude::*;
use vstd::string::*;
use crate::decimal::Decimal;

verus! {

/// The mathematical shape of a stored value: the closed tag set over which
/// every value handle is polymorphic.
#[verifier::ext_equal]
pub enum JVal {
    Null,
    Bool(bool),
    Num(Decimal),
    Str(Seq<char>),
    Arr(Seq<JVal>),
    Obj(Seq<(Seq<char>, JVal)>),
}

/// The value of the first property named `name`, or null when there is none:
/// a missing key and an explicit null are indistinguishable by design.
pub open spec fn obj_lookup(pairs: Seq<(Seq<char>, JVal)>, name: Seq<char>) -> JVal
    decreases pairs.len(),
{
    if pairs.len() == 0 {
        JVal::Null
    } else if pairs[0].0 == name {
        pairs[0].1
    } else {
        obj_lookup(pairs.skip(1), name)
    }
}

/// One arena node. Children sit at strictly smaller indices than their
/// parent; object keys are tokens into the store's key table.
pub enum Node {
    Null,
    Bool(bool),
    Num(Decimal),
    Str(String),
    Arr(Vec<usize>),
    Obj(Vec<(usize, usize)>),
}

/// A node's well-formedness at position `i` of the arena: children below the
/// parent, key tokens inside the key table.
pub open spec fn node_wf(n: Node, i: int, nkeys: int) -> bool {
    match n {
        Node::Arr(ch) => forall|k: int| 0 <= k < ch@.len() ==> (#[trigger] ch@[k]) < i,
        Node::Obj(ps) => forall|k: int|
            0 <= k < ps@.len() ==> (#[trigger] ps@[k]).0 < nkeys && ps@[k].1 < i,
        _ => true,
    }
}

/// The mathematical value of node `i`, read off the arena.
pub open spec fn node_view(nodes: Seq<Node>, keys: Seq<Seq<char>>, i: int) -> JVal
    decreases i,
{
    if 0 <= i < nodes.len() {
        match nodes[i] {
            Node::Null => JVal::Null,
            Node::Bool(b) => JVal::Bool(b),
            Node::Num(d) => JVal::Num(d),
            Node::Str(s) => JVal::Str(s@),
            Node::Arr(ch) => JVal::Arr(
                Seq::new(
                    ch@.len(),
                    |k: int|
                        if 0 <= k < ch@.len() && ch@[k] < i {
                            node_view(nodes, keys, ch@[k] as int)
                        } else {
                            JVal::Null
                        },
                ),
            ),
            Node::Obj(ps) => JVal::Obj(
                Seq::new(
                    ps@.len(),
                    |k: int|
                        (
                            if 0 <= k < ps@.len() && ps@[k].0 < keys.len() {
                                keys[ps@[k].0 as int]
                            } else {
                                Seq::<char>::empty()
                            },
                            if 0 <= k < ps@.len() && ps@[k].1 < i {
                                node_view(nodes, keys, ps@[k].1 as int)
                            } else {
                                JVal::Null
                            },
                        ),
                ),
            ),
        }
    } else {
        JVal::Null
    }
}

/// Saturating increment, for the store's instrumentation counters.
pub open spec fn inc(c: u64) -> u64 {
    if c < u64::MAX {
        (c + 1) as u64
    } else {
        c
    }
}

/// The host-side value store: an arena of tagged nodes, a table of interned
/// key strings, and counters of every interning call and property lookup.
pub struct ValueStore {
    nodes: Vec<Node>,
    keys: Vec<String>,
    store_id: u64,
    interns: u64,
    string_lookups: u64,
    token_lookups: u64,
}

/// A host-assigned token for an interned key string: valid only against the
/// store that assigned it.
#[derive(Clone, Copy, PartialEq, Eq, Structural)]
pub struct InternedStringId {
    tok: usize,
}

impl InternedStringId {
    pub closed spec fn spec_tok(self) -> int {
        self.tok as int
    }

    /// The token indexes this store's key table.
    pub open spec fn wf_for(self, store: ValueStore) -> bool {
        0 <= self.spec_tok() < store.key_count()
    }
}

/// A cheap, copyable handle into a store's arena. Immutable once obtained;
/// two handles with an equal index denote the same node.
#[derive(Clone, Copy, PartialEq, Eq, Structural, Debug)]
pub struct Value {
    idx: usize,
}

impl ValueStore {
    pub closed spec fn spec_nodes(self) -> Seq<Node> {
        self.nodes@
    }

    /// The interned key strings, as character sequences.
    pub closed spec fn key_views(self) -> Seq<Seq<char>> {
        Seq::new(self.keys@.len(), |i: int| self.keys@[i]@)
    }

    pub open spec fn node_count(self) -> int {
        self.spec_nodes().len() as int
    }

    pub open spec fn key_count(self) -> int {
        self.key_views().len() as int
    }

    /// The key string a token stands for.
    pub open spec fn key_view(self, tok: InternedStringId) -> Seq<char> {
        self.key_views()[tok.spec_tok()]
    }

    pub closed spec fn spec_store_id(self) -> u64 {
        self.store_id
    }

    /// How many interning calls the store has served.
    pub closed spec fn spec_interns(self) -> u64 {
        self.interns
    }

    /// How many property lookups by string the store has served.
    pub closed spec fn spec_string_lookups(self) -> u64 {
        self.string_lookups
    }

    /// How many property lookups by token the store has served.
    pub closed spec fn spec_token_lookups(self) -> u64 {
        self.token_lookups
    }

    /// Arena and key table are internally consistent: node zero is the
    /// shared null node, children precede parents, tokens index the key
    /// table, and interned keys are pairwise distinct.
    pub closed spec fn wf(self) -> bool {
        &&& self.nodes@.len() >= 1
        &&& self.nodes@[0] is Null
        &&& forall|i: int|
            0 <= i < self.nodes@.len() ==> node_wf(
                #[trigger] self.nodes@[i],
                i,
                self.keys@.len() as int,
            )
        &&& forall|i: int, j: int|
            0 <= i < j < self.key_views().len() ==> self.key_views()[i] != self.key_views()[j]
    }

    /// The mathematical value of the node at index `i`.
    pub open spec fn view_at(self, i: int) -> JVal {
        node_view(self.spec_nodes(), self.key_views(), i)
    }

    /// The new store still holds everything the old one held, at the same
    /// places, and belongs to the same invocation: arena and key table only
    /// grow at the end, so every old handle and token keeps its meaning.
    pub open spec fn extends(self, old: ValueStore) -> bool {
        &&& self.spec_nodes().len() >= old.spec_nodes().len()
        &&& self.spec_nodes().take(old.spec_nodes().len() as int) == old.spec_nodes()
        &&& self.key_views().len() >= old.key_views().len()
        &&& self.key_views().take(old.key_views().len() as int) == old.key_views()
        &&& self.spec_store_id() == old.spec_store_id()
    }

    /// The store's arena and key table are exactly the old ones: only the
    /// counters may have moved.
    pub open spec fn same_content(self, old: ValueStore) -> bool {
        &&& self.spec_nodes() == old.spec_nodes()
        &&& self.key_views() == old.key_views()
        &&& self.spec_store_id() == old.spec_store_id()
    }
}

impl Value {
    pub closed spec fn spec_idx(self) -> int {
        self.idx as int
    }

    /// The handle points into this store's arena.
    pub open spec fn wf_for(self, store: ValueStore) -> bool {
        self.spec_idx() < store.node_count()
    }

    /// The mathematical value this handle denotes in the given store.
    pub open spec fn view_in(self, store: ValueStore) -> JVal {
        store.view_at(self.spec_idx())
    }
}

/// Growing a store at the end never changes the meaning of a node that was
/// already there.
pub proof fn lemma_view_extends(nodes1: Seq<Node>, keys1: Seq<Seq<char>>, nodes2: Seq<Node>, keys2: Seq<Seq<char>>, i: int)
    requires
        nodes2.len() >= nodes1.len(),
        nodes2.take(nodes1.len() as int) == nodes1,
        keys2.len() >= keys1.len(),
        keys2.take(keys1.len() as int) == keys1,
        forall|j: int| 0 <= j < nodes1.len() ==> node_wf(#[trigger] nodes1[j], j, keys1.len() as int),
        i < nodes1.len(),
    ensures
        node_view(nodes2, keys2, i) == node_view(nodes1, keys1, i),
    decreases (if i >= 0 { i + 1 } else { 0 }),
{
    if 0 <= i {
        assert(nodes2[i] == nodes2.take(nodes1.len() as int)[i]);
        assert(nodes2[i] == nodes1[i]);
        assert(node_wf(nodes1[i], i, keys1.len() as int));
        let v1 = node_view(nodes1, keys1, i);
        let v2 = node_view(nodes2, keys2, i);
        match nodes1[i] {
            Node::Arr(ch) => {
                let s1 = v1->Arr_0;
                let s2 = v2->Arr_0;
                assert(s1.len() == ch@.len());
                assert(s2.len() == ch@.len());
                assert forall|k: int| 0 <= k < ch@.len() implies s2[k] == s1[k] by {
                    assert(ch@[k] < i);
                    lemma_view_extends(nodes1, keys1, nodes2, keys2, ch@[k] as int);
                    assert(s1[k] == node_view(nodes1, keys1, ch@[k] as int));
                    assert(s2[k] == node_view(nodes2, keys2, ch@[k] as int));
                }
                assert(s2 =~= s1);
            },
            Node::Obj(ps) => {
                let s1 = v1->Obj_0;
                let s2 = v2->Obj_0;
                assert(s1.len() == ps@.len());
                assert(s2.len() == ps@.len());
                assert forall|k: int| 0 <= k < ps@.len() implies s2[k] == s1[k] by {
                    assert(ps@[k].1 < i);
                    assert(ps@[k].0 < keys1.len());
                    lemma_view_extends(nodes1, keys1, nodes2, keys2, ps@[k].1 as int);
                    let t = ps@[k].0 as int;
                    assert(keys2[t] == keys2.take(keys1.len() as int)[t]);
                    assert(s1[k] == (keys1[t], node_view(nodes1, keys1, ps@[k].1 as int)));
                    assert(s2[k] == (keys2[t], node_view(nodes2, keys2, ps@[k].1 as int)));
                }
                assert(s2 =~= s1);
            },
            _ => {},
        }
    }
}

/// What `as_bool` sees of a value.
pub open spec fn as_bool_spec(v: JVal) -> Option<bool> {
    match v {
        JVal::Bool(b) => Some(b),
        _ => None,
    }
}

/// What `as_number` sees of a value.
pub open spec fn as_number_spec(v: JVal) -> Option<Decimal> {
    match v {
        JVal::Num(d) => Some(d),
        _ => None,
    }
}

/// What `as_string` sees of a value.
pub open spec fn as_string_spec(v: JVal) -> Option<Seq<char>> {
    match v {
        JVal::Str(s) => Some(s),
        _ => None,
    }
}

/// What `array_len` sees of a value.
pub open spec fn array_len_spec(v: JVal) -> Option<int> {
    match v {
        JVal::Arr(items) => Some(items.len() as int),
        _ => None,
    }
}

/// What `obj_len` sees of a value.
pub open spec fn obj_len_spec(v: JVal) -> Option<int> {
    match v {
        JVal::Obj(pairs) => Some(pairs.len() as int),
        _ => None,
    }
}

/// Property lookup on any value: the first property of that name on an
/// object, null on everything else and on a missing key.
pub open spec fn prop_lookup(v: JVal, name: Seq<char>) -> JVal {
    match v {
        JVal::Obj(pairs) => obj_lookup(pairs, name),
        _ => JVal::Null,
    }
}

/// Character-for-character string equality.
pub fn str_eq(a: &str, b: &str) -> (r: bool)
    ensures
        r == (a@ == b@),
{
    let la = a.unicode_len();
    let lb = b.unicode_len();
    if la != lb {
        return false;
    }
    let mut i: usize = 0;
    while i < la
        invariant
            i <= la,
            la == a@.len(),
            la == b@.len(),
            forall|j: int| 0 <= j < i ==> a@[j] == b@[j],
        decreases la - i,
    {
        if a.get_char(i) != b.get_char(i) {
            return false;
        }
        i = i + 1;
    }
    proof {
        assert(a@ =~= b@);
    }
    true
}

proof fn lemma_obj_lookup_step(pairs: Seq<(Seq<char>, JVal)>, name: Seq<char>, j: int)
    requires
        0 <= j < pairs.len(),
        pairs[j].0 != name,
        obj_lookup(pairs, name) == obj_lookup(pairs.skip(j), name),
    ensures
        obj_lookup(pairs, name) == obj_lookup(pairs.skip(j + 1), name),
{
    assert(pairs.skip(j)[0] == pairs[j]);
    assert(pairs.skip(j).skip(1) =~= pairs.skip(j + 1));
}

proof fn lemma_obj_lookup_found(pairs: Seq<(Seq<char>, JVal)>, name: Seq<char>, j: int)
    requires
        0 <= j < pairs.len(),
        pairs[j].0 == name,
        obj_lookup(pairs, name) == obj_lookup(pairs.skip(j), name),
    ensures
        obj_lookup(pairs, name) == pairs[j].1,
{
    assert(pairs.skip(j)[0] == pairs[j]);
    assert(pairs.skip(j).len() > 0);
}

impl ValueStore {
    /// Counters are exactly as they were.
    pub open spec fn same_counters(self, old: ValueStore) -> bool {
        &&& self.spec_interns() == old.spec_interns()
        &&& self.spec_string_lookups() == old.spec_string_lookups()
        &&& self.spec_token_lookups() == old.spec_token_lookups()
    }

    /// A fresh, empty store for one invocation, holding only the shared null
    /// node. The caller assigns the identity that tokens will be bound to;
    /// two live stores must not share one.
    pub fn new(store_id: u64) -> (r: ValueStore)
        ensures
            r.wf(),
            r.node_count() == 1,
            r.key_count() == 0,
            r.spec_store_id() == store_id,
            r.spec_interns() == 0,
            r.spec_string_lookups() == 0,
            r.spec_token_lookups() == 0,
    {
        let mut nodes: Vec<Node> = Vec::new();
        nodes.push(Node::Null);
        let r = ValueStore {
            nodes,
            keys: Vec::new(),
            store_id,
            interns: 0,
            string_lookups: 0,
            token_lookups: 0,
        };
        proof {
            assert(r.key_views() =~= Seq::<Seq<char>>::empty());
        }
        r
    }

    /// The identity of this store. Interned tokens are bound to it.
    pub fn id(&self) -> (r: u64)
        ensures
            r == self.spec_store_id(),
    {
        self.store_id
    }

    /// How many interning calls the store has served so far.
    pub fn interns(&self) -> (r: u64)
        ensures
            r == self.spec_interns(),
    {
        self.interns
    }

    /// How many property lookups by string the store has served so far.
    pub fn string_lookups(&self) -> (r: u64)
        ensures
            r == self.spec_string_lookups(),
    {
        self.string_lookups
    }

    /// How many property lookups by token the store has served so far.
    pub fn token_lookups(&self) -> (r: u64)
        ensures
            r == self.spec_token_lookups(),
    {
        self.token_lookups
    }

    /// The shared null node: what a missing property lookup hands out.
    pub fn null_value(&self) -> (r: Value)
        requires
            self.wf(),
        ensures
            r.wf_for(*self),
            r.view_in(*self) == JVal::Null,
    {
        Value { idx: 0 }
    }

    /// Find the token of a key string, interning it when it is new. Internal:
    /// the instrumented entry point is `intern_utf8_str`.
    fn find_or_add_key(&mut self, s: &str) -> (r: InternedStringId)
        requires
            old(self).wf(),
        ensures
            final(self).wf(),
            final(self).extends(*old(self)),
            final(self).same_counters(*old(self)),
            final(self).spec_nodes() == old(self).spec_nodes(),
            r.wf_for(*final(self)),
            final(self).key_view(r) == s@,
            (exists|t: int| 0 <= t < old(self).key_count() && old(self).key_views()[t] == s@)
                ==> final(self).key_count() == old(self).key_count(),
            final(self).key_count() <= old(self).key_count() + 1,
    {
        let n = self.keys.len();
        let mut j: usize = 0;
        while j < n
            invariant
                j <= n,
                n == self.keys@.len(),
                self == old(self),
                old(self).wf(),
                forall|t: int| 0 <= t < j ==> old(self).key_views()[t] != s@,
            decreases n - j,
        {
            if str_eq(self.keys[j].as_str(), s) {
                proof {
                    assert(self.key_views()[j as int] == self.keys@[j as int]@);
                    assert(self.key_views().take(self.key_count()) =~= self.key_views());
                    assert(self.spec_nodes().take(self.node_count()) =~= self.spec_nodes());
                }
                return InternedStringId { tok: j };
            }
            j = j + 1;
        }
        let ghost old_keys = self.key_views();
        self.keys.push(s.to_owned());
        proof {
            assert(self.key_views().len() == old_keys.len() + 1);
            assert(self.key_views().take(old_keys.len() as int) =~= old_keys);
            assert(self.key_views()[old_keys.len() as int] == s@);
            assert(self.spec_nodes().take(self.node_count()) =~= self.spec_nodes());
            // distinctness: the new key differs from every old one
            assert(forall|t: int| 0 <= t < old_keys.len() ==> old_keys[t] != s@);
            assert forall|i: int, j2: int|
                0 <= i < j2 < self.key_views().len() implies self.key_views()[i]
                != self.key_views()[j2] by {
                if j2 < old_keys.len() {
                    assert(self.key_views()[i] == old_keys[i]);
                    assert(self.key_views()[j2] == old_keys[j2]);
                } else {
                    assert(self.key_views()[i] == old_keys[i]);
                    assert(self.key_views()[j2] == s@);
                }
            }
            // node well-formedness is monotone in the key table's size
            assert forall|i: int|
                0 <= i < self.nodes@.len() implies node_wf(
                #[trigger] self.nodes@[i],
                i,
                self.keys@.len() as int,
            ) by {
                assert(node_wf(self.nodes@[i], i, old_keys.len() as int));
            }
        }
        InternedStringId { tok: n }
    }

    /// Ask the store to intern a key string: the instrumented host call the
    /// field-name cache goes through exactly once per literal and store.
    pub fn intern_utf8_str(&mut self, s: &str) -> (r: InternedStringId)
        requires
            old(self).wf(),
        ensures
            final(self).wf(),
            final(self).extends(*old(self)),
            final(self).spec_nodes() == old(self).spec_nodes(),
            final(self).spec_interns() == inc(old(self).spec_interns()),
            final(self).spec_string_lookups() == old(self).spec_string_lookups(),
            final(self).spec_token_lookups() == old(self).spec_token_lookups(),
            r.wf_for(*final(self)),
            final(self).key_view(r) == s@,
    {
        if self.interns < u64::MAX {
            self.interns = self.interns + 1;
        }
        self.find_or_add_key(s)
    }
}

impl Value {
    /// Whether this value is null. No implicit coercion: a read-only tag
    /// check.
    pub fn is_null(self, store: &ValueStore) -> (r: bool)
        requires
            store.wf(),
            self.wf_for(*store),
        ensures
            r == (self.view_in(*store) is Null),
    {
        match &store.nodes[self.idx] {
            Node::Null => true,
            _ => false,
        }
    }

    /// The boolean behind this value, or nothing on a tag mismatch.
    pub fn as_bool(self, store: &ValueStore) -> (r: Option<bool>)
        requires
            store.wf(),
            self.wf_for(*store),
        ensures
            r == as_bool_spec(self.view_in(*store)),
    {
        match &store.nodes[self.idx] {
            Node::Bool(b) => Some(*b),
            _ => None,
        }
    }

    /// The number behind this value, or nothing on a tag mismatch.
    pub fn as_number(self, store: &ValueStore) -> (r: Option<Decimal>)
        requires
            store.wf(),
            self.wf_for(*store),
        ensures
            r == as_number_spec(self.view_in(*store)),
    {
        match &store.nodes[self.idx] {
            Node::Num(d) => Some(*d),
            _ => None,
        }
    }

    /// The string behind this value, or nothing on a tag mismatch.
    pub fn as_string(self, store: &ValueStore) -> (r: Option<String>)
        requires
            store.wf(),
            self.wf_for(*store),
        ensures
            match r {
                Some(s) => as_string_spec(self.view_in(*store)) == Some(s@),
                None => as_string_spec(self.view_in(*store)) is None,
            },
    {
        match &store.nodes[self.idx] {
            Node::Str(s) => Some(s.clone()),
            _ => None,
        }
    }

    /// The element count of an array value, or nothing on a tag mismatch.
    pub fn array_len(self, store: &ValueStore) -> (r: Option<usize>)
        requires
            store.wf(),
            self.wf_for(*store),
        ensures
            match r {
                Some(n) => array_len_spec(self.view_in(*store)) == Some(n as int),
                None => array_len_spec(self.view_in(*store)) is None,
            },
    {
        match &store.nodes[self.idx] {
            Node::Arr(ch) => Some(ch.len()),
            _ => None,
        }
    }

    /// The property count of an object value, or nothing on a tag mismatch.
    pub fn obj_len(self, store: &ValueStore) -> (r: Option<usize>)
        requires
            store.wf(),
            self.wf_for(*store),
        ensures
            match r {
                Some(n) => obj_len_spec(self.view_in(*store)) == Some(n as int),
                None => obj_len_spec(self.view_in(*store)) is None,
            },
    {
        match &store.nodes[self.idx] {
            Node::Obj(ps) => Some(ps.len()),
            _ => None,
        }
    }

    /// The `i`th element of an array, or the `i`th property value of an
    /// object. Out of range is a programming error, excluded by contract:
    /// callers come from schema-checked code that knows the length.
    pub fn get_at_index(self, store: &ValueStore, i: usize) -> (r: Value)
        requires
            store.wf(),
            self.wf_for(*store),
            ({
                let v = self.view_in(*store);
                (v is Arr && i < v->Arr_0.len()) || (v is Obj && i < v->Obj_0.len())
            }),
        ensures
            r.wf_for(*store),
            0 <= r.spec_idx() < self.spec_idx(),
            self.view_in(*store) is Arr ==> r.view_in(*store) == self.view_in(
                *store,
            )->Arr_0[i as int],
            self.view_in(*store) is Obj ==> r.view_in(*store) == self.view_in(
                *store,
            )->Obj_0[i as int].1,
    {
        proof {
            assert(node_wf(store.nodes@[self.spec_idx()], self.spec_idx(), store.key_count()));
        }
        match &store.nodes[self.idx] {
            Node::Arr(ch) => Value { idx: ch[i] },
            Node::Obj(ps) => Value { idx: ps[i].1 },
            _ => Value { idx: 0 },
        }
    }

    /// The `i`th property name of an object value, for enumeration and
    /// union-style discrimination; nothing on a tag mismatch or out of range.
    pub fn get_obj_key_at_index(self, store: &ValueStore, i: usize) -> (r: Option<String>)
        requires
            store.wf(),
            self.wf_for(*store),
        ensures
            match r {
                Some(k) => {
                    let v = self.view_in(*store);
                    v is Obj && i < v->Obj_0.len() && k@ == v->Obj_0[i as int].0
                },
                None => {
                    let v = self.view_in(*store);
                    !(v is Obj && i < v->Obj_0.len())
                },
            },
    {
        proof {
            assert(node_wf(store.nodes@[self.spec_idx()], self.spec_idx(), store.key_count()));
        }
        match &store.nodes[self.idx] {
            Node::Obj(ps) => {
                if i < ps.len() {
                    let tok = ps[i].0;
                    Some(store.keys[tok].clone())
                } else {
                    None
                }
            },
            _ => None,
        }
    }

    /// Look a property up by its literal name: one counted lookup by string.
    /// A missing key and a non-object receiver both give the null value, so
    /// that a downstream optional decode naturally yields nothing.
    pub fn get_obj_prop(self, store: &mut ValueStore, name: &str) -> (r: Value)
        requires
            old(store).wf(),
            self.wf_for(*old(store)),
        ensures
            final(store).wf(),
            final(store).same_content(*old(store)),
            final(store).spec_string_lookups() == inc(old(store).spec_string_lookups()),
            final(store).spec_interns() == old(store).spec_interns(),
            final(store).spec_token_lookups() == old(store).spec_token_lookups(),
            r.wf_for(*final(store)),
            r.view_in(*final(store)) == prop_lookup(self.view_in(*old(store)), name@),
    {
        if store.string_lookups < u64::MAX {
            store.string_lookups = store.string_lookups + 1;
        }
        self.lookup_by(store, name, None)
    }

    /// Look a property up by an interned token: one counted lookup by token,
    /// with no string comparison. The token must come from this store.
    pub fn get_interned_obj_prop(self, store: &mut ValueStore, tok: InternedStringId) -> (r: Value)
        requires
            old(store).wf(),
            self.wf_for(*old(store)),
            tok.wf_for(*old(store)),
        ensures
            final(store).wf(),
            final(store).same_content(*old(store)),
            final(store).spec_token_lookups() == inc(old(store).spec_token_lookups()),
            final(store).spec_interns() == old(store).spec_interns(),
            final(store).spec_string_lookups() == old(store).spec_string_lookups(),
            r.wf_for(*final(store)),
            r.view_in(*final(store)) == prop_lookup(
                self.view_in(*old(store)),
                old(store).key_view(tok),
            ),
    {
        if store.token_lookups < u64::MAX {
            store.token_lookups = store.token_lookups + 1;
        }
        self.lookup_by(store, "", Some(tok))
    }

    /// Uncounted property lookup, by name or by token.
    fn lookup_by(self, store: &ValueStore, name: &str, tok: Option<InternedStringId>) -> (r: Value)
        requires
            store.wf(),
            self.wf_for(*store),
            tok is Some ==> tok.unwrap().wf_for(*store),
        ensures
            r.wf_for(*store),
            r.view_in(*store) == prop_lookup(
                self.view_in(*store),
                match tok {
                    Some(t) => store.key_view(t),
                    None => name@,
                },
            ),
    {
        let ghost needle = match tok {
            Some(t) => store.key_view(t),
            None => name@,
        };
        proof {
            assert(node_wf(store.nodes@[self.spec_idx()], self.spec_idx(), store.key_count()));
        }
        match &store.nodes[self.idx] {
            Node::Obj(ps) => {
                let ghost pairs = self.view_in(*store)->Obj_0;
                let n = ps.len();
                proof {
                    assert(pairs.skip(0) =~= pairs);
                }
                let mut j: usize = 0;
                while j < n
                    invariant
                        store.wf(),
                        self.wf_for(*store),
                        self.view_in(*store) is Obj,
                        pairs == self.view_in(*store)->Obj_0,
                        store.nodes@[self.spec_idx()] == Node::Obj(*ps),
                        node_wf(store.nodes@[self.spec_idx()], self.spec_idx(), store.key_count()),
                        n == ps@.len(),
                        pairs.len() == n,
                        j <= n,
                        needle == (match tok {
                            Some(t) => store.key_view(t),
                            None => name@,
                        }),
                        tok is Some ==> tok.unwrap().wf_for(*store),
                        obj_lookup(pairs, needle) == obj_lookup(pairs.skip(j as int), needle),
                        forall|k: int|
                            0 <= k < pairs.len() ==> (#[trigger] pairs[k]) == (
                            store.key_views()[ps@[k].0 as int],
                            store.view_at(ps@[k].1 as int),
                            ),
                    decreases n - j,
                {
                    let hit = match tok {
                        Some(t) => ps[j].0 == t.tok,
                        None => str_eq(store.keys[ps[j].0].as_str(), name),
                    };
                    proof {
                        // token equality coincides with name equality because
                        // interned keys are pairwise distinct
                        if tok is Some {
                            let t = tok.unwrap().spec_tok();
                            let u = ps@[j as int].0 as int;
                            if u != t && store.key_views()[u] == store.key_views()[t] {
                                if u < t {
                                    assert(false);
                                } else {
                                    assert(false);
                                }
                            }
                        }
                    }
                    if hit {
                        proof {
                            lemma_obj_lookup_found(pairs, needle, j as int);
                        }
                        return Value { idx: ps[j].1 };
                    }
                    proof {
                        lemma_obj_lookup_step(pairs, needle, j as int);
                    }
                    j = j + 1;
                }
                proof {
                    assert(pairs.skip(n as int) =~= Seq::<(Seq<char>, JVal)>::empty());
                }
                Value { idx: 0 }
            },
            _ => Value { idx: 0 },
        }
    }
}

/// Extension of stores composes.
pub proof fn lemma_extends_trans(s3: ValueStore, s2: ValueStore, s1: ValueStore)
    requires
        s3.extends(s2),
        s2.extends(s1),
    ensures
        s3.extends(s1),
{
    assert(s3.spec_nodes().take(s1.spec_nodes().len() as int) =~= s3.spec_nodes().take(
        s2.spec_nodes().len() as int,
    ).take(s1.spec_nodes().len() as int));
    assert(s3.key_views().take(s1.key_views().len() as int) =~= s3.key_views().take(
        s2.key_views().len() as int,
    ).take(s1.key_views().len() as int));
}

/// A store whose content is unchanged extends the old one.
pub proof fn lemma_same_content_extends(s2: ValueStore, s1: ValueStore)
    requires
        s2.same_content(s1),
    ensures
        s2.extends(s1),
{
    assert(s2.spec_nodes().take(s1.spec_nodes().len() as int) =~= s1.spec_nodes());
    assert(s2.key_views().take(s1.key_views().len() as int) =~= s1.key_views());
}

/// Extension of stores is reflexive.
pub proof fn lemma_extends_refl(s: ValueStore)
    ensures
        s.extends(s),
{
    assert(s.spec_nodes().take(s.spec_nodes().len() as int) =~= s.spec_nodes());
    assert(s.key_views().take(s.key_views().len() as int) =~= s.key_views());
}

impl ValueStore {
    /// Append one well-formed node to the arena.
    fn push_node(&mut self, node: Node) -> (r: Value)
        requires
            old(self).wf(),
            node_wf(node, old(self).node_count(), old(self).key_count()),
        ensures
            final(self).wf(),
            final(self).extends(*old(self)),
            final(self).same_counters(*old(self)),
            final(self).key_views() == old(self).key_views(),
            final(self).node_count() == old(self).node_count() + 1,
            final(self).spec_nodes() == old(self).spec_nodes().push(node),
            r.wf_for(*final(self)),
            r.spec_idx() == old(self).node_count(),
    {
        let idx = self.nodes.len();
        self.nodes.push(node);
        proof {
            assert(self.spec_nodes().take(old(self).node_count()) =~= old(self).spec_nodes());
            assert(self.key_views().take(old(self).key_count()) =~= self.key_views());
            assert forall|i: int|
                0 <= i < self.nodes@.len() implies node_wf(
                #[trigger] self.nodes@[i],
                i,
                self.keys@.len() as int,
            ) by {
                if i < old(self).node_count() {
                    assert(self.nodes@[i] == old(self).spec_nodes()[i]);
                }
            }
        }
        Value { idx }
    }

    /// Place a null value in the store.
    pub fn push_null(&mut self) -> (r: Value)
        requires
            old(self).wf(),
        ensures
            final(self).wf(),
            final(self).extends(*old(self)),
            final(self).same_counters(*old(self)),
            r.wf_for(*final(self)),
            r.view_in(*final(self)) == JVal::Null,
    {
        self.push_node(Node::Null)
    }

    /// Place a boolean value in the store.
    pub fn push_bool(&mut self, b: bool) -> (r: Value)
        requires
            old(self).wf(),
        ensures
            final(self).wf(),
            final(self).extends(*old(self)),
            final(self).same_counters(*old(self)),
            r.wf_for(*final(self)),
            r.view_in(*final(self)) == JVal::Bool(b),
    {
        self.push_node(Node::Bool(b))
    }

    /// Place a number in the store.
    pub fn push_num(&mut self, d: Decimal) -> (r: Value)
        requires
            old(self).wf(),
        ensures
            final(self).wf(),
            final(self).extends(*old(self)),
            final(self).same_counters(*old(self)),
            r.wf_for(*final(self)),
            r.view_in(*final(self)) == JVal::Num(d),
    {
        self.push_node(Node::Num(d))
    }

    /// Place a string value in the store.
    pub fn push_str(&mut self, s: &str) -> (r: Value)
        requires
            old(self).wf(),
        ensures
            final(self).wf(),
            final(self).extends(*old(self)),
            final(self).same_counters(*old(self)),
            r.wf_for(*final(self)),
            r.view_in(*final(self)) == JVal::Str(s@),
    {
        self.push_node(Node::Str(s.to_owned()))
    }

    /// Place an array in the store, from handles to values already there.
    pub fn push_array(&mut self, items: &Vec<Value>) -> (r: Value)
        requires
            old(self).wf(),
            forall|k: int| 0 <= k < items@.len() ==> (#[trigger] items@[k]).wf_for(*old(self)),
        ensures
            final(self).wf(),
            final(self).extends(*old(self)),
            final(self).same_counters(*old(self)),
            r.wf_for(*final(self)),
            r.view_in(*final(self)) == JVal::Arr(
                Seq::new(items@.len(), |k: int| items@[k].view_in(*old(self))),
            ),
    {
        let n = items.len();
        let mut ch: Vec<usize> = Vec::new();
        let mut k: usize = 0;
        while k < n
            invariant
                k <= n,
                n == items@.len(),
                ch@.len() == k,
                forall|t: int| 0 <= t < k ==> (#[trigger] ch@[t]) == items@[t].spec_idx(),
            decreases n - k,
        {
            ch.push(items[k].idx);
            k = k + 1;
        }
        let ghost pre = *self;
        let r = self.push_node(Node::Arr(ch));
        proof {
            let want = Seq::new(items@.len(), |k: int| items@[k].view_in(pre));
            let got = r.view_in(*self);
            assert(self.spec_nodes()[r.spec_idx()] == Node::Arr(ch));
            assert(got is Arr);
            assert(got->Arr_0.len() == items@.len());
            assert forall|t: int| 0 <= t < items@.len() implies got->Arr_0[t] == want[t] by {
                assert(ch@[t] == items@[t].spec_idx());
                assert(ch@[t] < r.spec_idx());
                lemma_view_extends(
                    pre.spec_nodes(),
                    pre.key_views(),
                    self.spec_nodes(),
                    self.key_views(),
                    ch@[t] as int,
                );
            }
            assert(got->Arr_0 =~= want);
            assert(got =~= JVal::Arr(want));
        }
        r
    }

    /// Place an object in the store, from named handles to values already
    /// there. The keys are registered in the key table.
    pub fn push_object(&mut self, pairs: &Vec<(String, Value)>) -> (r: Value)
        requires
            old(self).wf(),
            forall|k: int| 0 <= k < pairs@.len() ==> (#[trigger] pairs@[k]).1.wf_for(*old(self)),
        ensures
            final(self).wf(),
            final(self).extends(*old(self)),
            final(self).same_counters(*old(self)),
            r.wf_for(*final(self)),
            r.view_in(*final(self)) == JVal::Obj(
                Seq::new(
                    pairs@.len(),
                    |k: int| (pairs@[k].0@, pairs@[k].1.view_in(*old(self))),
                ),
            ),
    {
        let n = pairs.len();
        let mut ps: Vec<(usize, usize)> = Vec::new();
        let mut k: usize = 0;
        proof {
            lemma_extends_refl(*self);
        }
        while k < n
            invariant
                k <= n,
                n == pairs@.len(),
                self.wf(),
                self.extends(*old(self)),
                self.same_counters(*old(self)),
                self.spec_nodes() == old(self).spec_nodes(),
                forall|t: int|
                    0 <= t < pairs@.len() ==> (#[trigger] pairs@[t]).1.wf_for(*old(self)),
                ps@.len() == k,
                forall|t: int|
                    0 <= t < k ==> (#[trigger] ps@[t]).0 < self.key_count() && self.key_views()[
                        ps@[t].0 as int
                    ] == pairs@[t].0@ && ps@[t].1 == pairs@[t].1.spec_idx(),
            decreases n - k,
        {
            let ghost mid = *self;
            let tok = self.find_or_add_key(pairs[k].0.as_str());
            proof {
                lemma_extends_trans(*self, mid, *old(self));
                assert forall|t: int|
                    0 <= t < k implies (#[trigger] ps@[t]).0 < self.key_count()
                    && self.key_views()[ps@[t].0 as int] == pairs@[t].0@ by {
                    assert(self.key_views()[ps@[t].0 as int] == self.key_views().take(
                        mid.key_count(),
                    )[ps@[t].0 as int]);
                }
            }
            ps.push((tok.tok, pairs[k].1.idx));
            k = k + 1;
        }
        let ghost pre = *self;
        let r = self.push_node(Node::Obj(ps));
        proof {
            let want = Seq::new(
                pairs@.len(),
                |k: int| (pairs@[k].0@, pairs@[k].1.view_in(*old(self))),
            );
            let got = r.view_in(*self);
            assert(self.spec_nodes()[r.spec_idx()] == Node::Obj(ps));
            assert(got is Obj);
            assert(got->Obj_0.len() == pairs@.len());
            assert forall|t: int| 0 <= t < pairs@.len() implies got->Obj_0[t] == want[t] by {
                assert(ps@[t].1 == pairs@[t].1.spec_idx());
                assert(ps@[t].1 < r.spec_idx());
                lemma_view_extends(
                    old(self).spec_nodes(),
                    old(self).key_views(),
                    self.spec_nodes(),
                    self.key_views(),
                    ps@[t].1 as int,
                );
            }
            assert(got->Obj_0 =~= want);
            assert(got =~= JVal::Obj(want));
        }
        r
    }
}

/// A handle's meaning survives any growth of its store.
pub proof fn lemma_value_view_extends(s1: ValueStore, s2: ValueStore, v: Value)
    requires
        s1.wf(),
        s2.extends(s1),
        v.wf_for(s1),
    ensures
        v.wf_for(s2),
        v.view_in(s2) == v.view_in(s1),
{
    lemma_view_extends(s1.spec_nodes(), s1.key_views(), s2.spec_nodes(), s2.key_views(), v.spec_idx());
}

} // verus!
