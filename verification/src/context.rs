//! The read/write session: one input value tree, one output tree under
//! construction, and exactly one finalization.
//!
//! The output is built container by container. Objects and arrays declare
//! their size up front; closing one with a different number of writes is an
//! arity error. Nothing is visible as output until the one finalize call.

use vstd::prelude::*;
use crate::json_value::{jv_view, JsonProp, JsonValue};
use crate::store::{JVal, Value, ValueStore};

verus! {

/// Why a write was refused.
#[derive(Debug, Clone, Copy, PartialEq, Eq, Structural)]
pub enum WriteError {
    /// A container was closed after a different number of writes than it
    /// declared up front.
    ArityMismatch,
    /// A write arrived where no value can go: after finalization, beside an
    /// already complete root, closing a container that is not open, or
    /// finalizing an incomplete output.
    InvalidState,
}

/// The shape of one open container frame.
#[verifier::ext_equal]
pub enum FrameV {
    Obj { expected: int, pairs: Seq<(Seq<char>, JVal)>, pending: Option<Seq<char>> },
    Arr { expected: int, items: Seq<JVal> },
}

/// The shape of the write side of a session: the open container stack, the
/// completed root if any, and whether the output was finalized.
#[verifier::ext_equal]
pub struct OutState {
    pub stack: Seq<FrameV>,
    pub root: Option<JVal>,
    pub finalized: bool,
}

/// The write side of a fresh session.
pub open spec fn empty_out() -> OutState {
    OutState { stack: Seq::empty(), root: None, finalized: false }
}

/// A complete value may land here: nothing finalized, and either no root
/// written yet, or an open array, or an open object that has its key.
pub open spec fn out_accepts_value(st: OutState) -> bool {
    &&& !st.finalized
    &&& if st.stack.len() == 0 {
        st.root is None
    } else {
        match st.stack.last() {
            FrameV::Arr { .. } => true,
            FrameV::Obj { pending, .. } => pending is Some,
        }
    }
}

/// A string may land here: inside an open object it is a key or a value, so
/// only a finalized session or a complete root refuses it.
pub open spec fn out_accepts_str(st: OutState) -> bool {
    &&& !st.finalized
    &&& (st.stack.len() > 0 || st.root is None)
}

/// Where a complete value lands: the root, the open array, or the open
/// object together with its pending key.
pub open spec fn out_push_value(st: OutState, v: JVal) -> OutState
    recommends
        out_accepts_value(st),
{
    if st.stack.len() == 0 {
        OutState { root: Some(v), ..st }
    } else {
        let top = st.stack.len() - 1;
        match st.stack.last() {
            FrameV::Arr { expected, items } => OutState {
                stack: st.stack.update(top, FrameV::Arr { expected, items: items.push(v) }),
                ..st
            },
            FrameV::Obj { expected, pairs, pending } => match pending {
                Some(k) => OutState {
                    stack: st.stack.update(
                        top,
                        FrameV::Obj { expected, pairs: pairs.push((k, v)), pending: None },
                    ),
                    ..st
                },
                None => st,
            },
        }
    }
}

/// Where a string lands: the key slot of an open object that has none yet,
/// otherwise wherever a value lands.
pub open spec fn out_push_str(st: OutState, s: Seq<char>) -> OutState {
    if st.stack.len() > 0 && (st.stack.last() matches FrameV::Obj { pending: None, .. }) {
        let top = st.stack.len() - 1;
        match st.stack.last() {
            FrameV::Obj { expected, pairs, pending } => OutState {
                stack: st.stack.update(
                    top,
                    FrameV::Obj { expected, pairs, pending: Some(s) },
                ),
                ..st
            },
            FrameV::Arr { .. } => st,
        }
    } else {
        out_push_value(st, JVal::Str(s))
    }
}

/// Internal consistency of the write side: while containers are open there
/// is no root and no finalization, and every enclosing container is ready to
/// take the value of the container above it when that one closes.
pub open spec fn out_wf(st: OutState) -> bool {
    st.stack.len() > 0 ==> {
        &&& st.root is None
        &&& !st.finalized
        &&& forall|i: int|
            0 <= i < st.stack.len() - 1 ==> match #[trigger] st.stack[i] {
                FrameV::Arr { .. } => true,
                FrameV::Obj { pending, .. } => pending is Some,
            }
    }
}

/// Every number already written is in canonical form.
pub open spec fn jv_nums_wf(v: JsonValue) -> bool {
    crate::json_text::json_num_wf(v)
}

/// One open container under construction.
enum Frame {
    Obj { expected: usize, pairs: Vec<JsonProp>, pending: Option<String> },
    Arr { expected: usize, items: Vec<JsonValue> },
}

/// The shape of an open frame.
spec fn frame_view(f: Frame) -> FrameV {
    match f {
        Frame::Obj { expected, pairs, pending } => FrameV::Obj {
            expected: expected as int,
            pairs: Seq::new(
                pairs@.len(),
                |k: int|
                    if 0 <= k < pairs@.len() {
                        (pairs@[k].key@, jv_view(pairs@[k].value))
                    } else {
                        (Seq::<char>::empty(), JVal::Null)
                    },
            ),
            pending: match pending {
                Some(s) => Some(s@),
                None => None,
            },
        },
        Frame::Arr { expected, items } => FrameV::Arr {
            expected: expected as int,
            items: Seq::new(
                items@.len(),
                |k: int|
                    if 0 <= k < items@.len() {
                        jv_view(items@[k])
                    } else {
                        JVal::Null
                    },
            ),
        },
    }
}

/// Every number in an open frame is canonical.
spec fn frame_nums_wf(f: Frame) -> bool {
    match f {
        Frame::Obj { pairs, .. } => forall|k: int|
            0 <= k < pairs@.len() ==> jv_nums_wf(#[trigger] pairs@[k].value),
        Frame::Arr { items, .. } => forall|k: int|
            0 <= k < items@.len() ==> jv_nums_wf(#[trigger] items@[k]),
    }
}

/// The read/write session: exactly one input value tree (or none), and one
/// output tree that is finalized exactly once.
pub struct Context {
    store: ValueStore,
    input: Option<Value>,
    frames: Vec<Frame>,
    out_root: Option<JsonValue>,
    finalized: bool,
}

impl Context {
    /// The store this session reads from.
    pub closed spec fn spec_store(self) -> ValueStore {
        self.store
    }

    /// The root of the input tree, if the session has one.
    pub closed spec fn spec_input(self) -> Option<Value> {
        self.input
    }

    /// The shape of the write side.
    pub closed spec fn out_state(self) -> OutState {
        OutState {
            stack: Seq::new(self.frames@.len(), |i: int| frame_view(self.frames@[i])),
            root: match self.out_root {
                Some(v) => Some(jv_view(v)),
                None => None,
            },
            finalized: self.finalized,
        }
    }

    /// Every number in the output under construction is canonical, so the
    /// finished tree can always be rendered.
    pub closed spec fn nums_wf(self) -> bool {
        &&& (self.out_root matches Some(v) ==> jv_nums_wf(v))
        &&& forall|i: int|
            0 <= i < self.frames@.len() ==> frame_nums_wf(#[trigger] self.frames@[i])
    }

    /// A consistent session.
    pub open spec fn wf(self) -> bool {
        &&& self.spec_store().wf()
        &&& (self.spec_input() matches Some(v) ==> v.wf_for(self.spec_store()))
        &&& out_wf(self.out_state())
    }

    /// A session over a host store whose input is the given root value.
    pub fn new_with_input(store: ValueStore, root: Value) -> (r: Context)
        requires
            store.wf(),
            root.wf_for(store),
        ensures
            r.wf(),
            r.nums_wf(),
            r.spec_store() == store,
            r.spec_input() == Some(root),
            r.out_state() == empty_out(),
    {
        let r = Context { store, input: Some(root), frames: Vec::new(), out_root: None, finalized: false };
        proof {
            assert(r.out_state().stack =~= empty_out().stack);
            assert(r.out_state() =~= empty_out());
        }
        r
    }

    /// A session with no input, for building output alone.
    pub fn new(store: ValueStore) -> (r: Context)
        requires
            store.wf(),
        ensures
            r.wf(),
            r.nums_wf(),
            r.spec_store() == store,
            r.spec_input() is None,
            r.out_state() == empty_out(),
    {
        let r = Context { store, input: None, frames: Vec::new(), out_root: None, finalized: false };
        proof {
            assert(r.out_state().stack =~= empty_out().stack);
            assert(r.out_state() =~= empty_out());
        }
        r
    }

    /// The root of the input tree. Every call returns the same handle.
    pub fn input_get(&self) -> (r: Option<Value>)
        ensures
            r == self.spec_input(),
    {
        self.input
    }

    /// Borrow the store for decoding. The write side is untouched.
    pub fn store_mut(&mut self) -> (r: &mut ValueStore)
        ensures
            *r == old(self).spec_store(),
            final(self).spec_store() == *final(r),
            final(self).spec_input() == old(self).spec_input(),
            final(self).out_state() == old(self).out_state(),
    {
        &mut self.store
    }

    /// Borrow the store for reading.
    pub fn store_ref(&self) -> (r: &ValueStore)
        ensures
            *r == self.spec_store(),
    {
        &self.store
    }

    /// Land one complete value.
    fn push_value(&mut self, v: JsonValue) -> (r: Result<(), WriteError>)
        requires
            out_wf(old(self).out_state()),
            old(self).nums_wf(),
            jv_nums_wf(v),
        ensures
            final(self).spec_store() == old(self).spec_store(),
            final(self).spec_input() == old(self).spec_input(),
            out_wf(final(self).out_state()),
            final(self).nums_wf(),
            if out_accepts_value(old(self).out_state()) {
                r == Ok::<(), WriteError>(()) && final(self).out_state() == out_push_value(
                    old(self).out_state(),
                    jv_view(v),
                )
            } else {
                r == Err::<(), WriteError>(WriteError::InvalidState) && final(self).out_state()
                    == old(self).out_state()
            },
    {
        if self.finalized {
            return Err(WriteError::InvalidState);
        }
        let n = self.frames.len();
        if n == 0 {
            if self.out_root.is_some() {
                return Err(WriteError::InvalidState);
            }
            self.out_root = Some(v);
            proof {
                assert(final(self).out_state().stack =~= out_push_value(
                    old(self).out_state(),
                    jv_view(v),
                ).stack);
                assert(final(self).out_state() =~= out_push_value(
                    old(self).out_state(),
                    jv_view(v),
                ));
            }
            Ok(())
        } else {
            let ghost st0 = self.out_state();
            match &mut self.frames[n - 1] {
                Frame::Arr { items, .. } => {
                    items.push(v);
                },
                Frame::Obj { pairs, pending, .. } => {
                    let k = pending.take();
                    match k {
                        Some(key) => {
                            pairs.push(JsonProp { key, value: v });
                        },
                        None => {
                            proof {
                                assert(self.frames@[n - 1] == old(self).frames@[n - 1]) by {
                                    assert(frame_view(self.frames@[n - 1]) == frame_view(
                                        old(self).frames@[n - 1],
                                    ));
                                }
                                assert(self.frames@ =~= old(self).frames@);
                                assert(self.out_state().stack =~= old(self).out_state().stack);
                                assert(self.out_state() =~= old(self).out_state());
                            }
                            return Err(WriteError::InvalidState);
                        },
                    }
                },
            }
            proof {
                let pre = old(self).out_state();
                let post = self.out_state();
                let want = out_push_value(pre, jv_view(v));
                let top = pre.stack.len() - 1;
                assert(post.stack.len() == pre.stack.len());
                assert forall|i: int| 0 <= i < post.stack.len() - 1 implies post.stack[i]
                    == pre.stack[i] by {
                    assert(self.frames@[i] == old(self).frames@[i]);
                }
                if pre.stack[top] is Arr {
                    assert(post.stack[top]->Arr_items =~= pre.stack[top]->Arr_items.push(
                        jv_view(v),
                    ));
                    assert(post.stack[top] =~= want.stack[top]);
                } else {
                    assert(post.stack[top]->Obj_pairs =~= pre.stack[top]->Obj_pairs.push(
                        (pre.stack[top]->Obj_pending.unwrap(), jv_view(v)),
                    ));
                    assert(post.stack[top] =~= want.stack[top]);
                }
                assert(post.stack =~= want.stack);
                assert(post =~= want);
            }
            Ok(())
        }
    }

    /// Write a null value.
    pub fn write_null(&mut self) -> (r: Result<(), WriteError>)
        requires
            out_wf(old(self).out_state()),
            old(self).nums_wf(),
        ensures
            final(self).spec_store() == old(self).spec_store(),
            final(self).spec_input() == old(self).spec_input(),
            out_wf(final(self).out_state()),
            final(self).nums_wf(),
            if out_accepts_value(old(self).out_state()) {
                r == Ok::<(), WriteError>(()) && final(self).out_state() == out_push_value(
                    old(self).out_state(),
                    JVal::Null,
                )
            } else {
                r == Err::<(), WriteError>(WriteError::InvalidState) && final(self).out_state()
                    == old(self).out_state()
            },
    {
        self.push_value(JsonValue::Null)
    }

    /// Write a boolean value.
    pub fn write_bool(&mut self, b: bool) -> (r: Result<(), WriteError>)
        requires
            out_wf(old(self).out_state()),
            old(self).nums_wf(),
        ensures
            final(self).spec_store() == old(self).spec_store(),
            final(self).spec_input() == old(self).spec_input(),
            out_wf(final(self).out_state()),
            final(self).nums_wf(),
            if out_accepts_value(old(self).out_state()) {
                r == Ok::<(), WriteError>(()) && final(self).out_state() == out_push_value(
                    old(self).out_state(),
                    JVal::Bool(b),
                )
            } else {
                r == Err::<(), WriteError>(WriteError::InvalidState) && final(self).out_state()
                    == old(self).out_state()
            },
    {
        self.push_value(JsonValue::Boolean(b))
    }

    /// Write a number: the decimal must be canonical, as the constructors
    /// make it.
    pub fn write_num(&mut self, d: crate::decimal::Decimal) -> (r: Result<(), WriteError>)
        requires
            out_wf(old(self).out_state()),
            old(self).nums_wf(),
            d.wf(),
        ensures
            final(self).spec_store() == old(self).spec_store(),
            final(self).spec_input() == old(self).spec_input(),
            out_wf(final(self).out_state()),
            final(self).nums_wf(),
            if out_accepts_value(old(self).out_state()) {
                r == Ok::<(), WriteError>(()) && final(self).out_state() == out_push_value(
                    old(self).out_state(),
                    JVal::Num(d),
                )
            } else {
                r == Err::<(), WriteError>(WriteError::InvalidState) && final(self).out_state()
                    == old(self).out_state()
            },
    {
        self.push_value(JsonValue::Number(d))
    }

    /// Write a string: inside an open object it becomes the key when none is
    /// pending, and the value otherwise.
    pub fn write_utf8_str(&mut self, s: &str) -> (r: Result<(), WriteError>)
        requires
            out_wf(old(self).out_state()),
            old(self).nums_wf(),
        ensures
            final(self).spec_store() == old(self).spec_store(),
            final(self).spec_input() == old(self).spec_input(),
            out_wf(final(self).out_state()),
            final(self).nums_wf(),
            if out_accepts_str(old(self).out_state()) {
                r == Ok::<(), WriteError>(()) && final(self).out_state() == out_push_str(
                    old(self).out_state(),
                    s@,
                )
            } else {
                r == Err::<(), WriteError>(WriteError::InvalidState) && final(self).out_state()
                    == old(self).out_state()
            },
    {
        if self.finalized {
            return Err(WriteError::InvalidState);
        }
        let n = self.frames.len();
        if n > 0 {
            let is_key_slot = match &self.frames[n - 1] {
                Frame::Obj { pending, .. } => pending.is_none(),
                Frame::Arr { .. } => false,
            };
            if is_key_slot {
                match &mut self.frames[n - 1] {
                    Frame::Obj { pending, .. } => {
                        *pending = Some(s.to_owned());
                    },
                    Frame::Arr { .. } => {},
                }
                proof {
                    let pre = old(self).out_state();
                    let post = self.out_state();
                    let want = out_push_str(pre, s@);
                    assert forall|i: int| 0 <= i < post.stack.len() - 1 implies post.stack[i]
                        == pre.stack[i] by {
                        assert(self.frames@[i] == old(self).frames@[i]);
                    }
                    assert(frame_view(self.frames@[n - 1]) == want.stack[n - 1]) by {
                        assert(frame_view(self.frames@[n - 1])->Obj_pairs =~= frame_view(
                            old(self).frames@[n - 1],
                        )->Obj_pairs);
                        assert(frame_view(self.frames@[n - 1]) =~= want.stack[n - 1]);
                    }
                    assert(post.stack =~= want.stack);
                    assert(post =~= want);
                }
                return Ok(());
            }
        }
        self.push_value(JsonValue::String(s.to_owned()))
    }

    /// Open an object that will hold exactly `expected_field_count`
    /// key/value pairs.
    pub fn write_object_begin(&mut self, expected_field_count: usize) -> (r: Result<
        (),
        WriteError,
    >)
        requires
            out_wf(old(self).out_state()),
            old(self).nums_wf(),
        ensures
            final(self).spec_store() == old(self).spec_store(),
            final(self).spec_input() == old(self).spec_input(),
            out_wf(final(self).out_state()),
            final(self).nums_wf(),
            if out_accepts_value(old(self).out_state()) {
                r == Ok::<(), WriteError>(()) && final(self).out_state() == (OutState {
                    stack: old(self).out_state().stack.push(
                        FrameV::Obj {
                            expected: expected_field_count as int,
                            pairs: Seq::empty(),
                            pending: None,
                        },
                    ),
                    ..old(self).out_state()
                })
            } else {
                r == Err::<(), WriteError>(WriteError::InvalidState) && final(self).out_state()
                    == old(self).out_state()
            },
    {
        if !self.accepts_value() {
            return Err(WriteError::InvalidState);
        }
        self.frames.push(
            Frame::Obj { expected: expected_field_count, pairs: Vec::new(), pending: None },
        );
        proof {
            let pre = old(self).out_state();
            let post = self.out_state();
            assert forall|i: int| 0 <= i < post.stack.len() - 1 implies post.stack[i]
                == pre.stack[i] by {
                assert(self.frames@[i] == old(self).frames@[i]);
            }
            assert(frame_view(self.frames@[pre.stack.len() as int])->Obj_pairs
                =~= Seq::<(Seq<char>, JVal)>::empty());
            assert(post.stack =~= pre.stack.push(
                FrameV::Obj {
                    expected: expected_field_count as int,
                    pairs: Seq::empty(),
                    pending: None,
                },
            ));
            assert(post =~= (OutState {
                stack: pre.stack.push(
                    FrameV::Obj {
                        expected: expected_field_count as int,
                        pairs: Seq::empty(),
                        pending: None,
                    },
                ),
                ..pre
            }));
        }
        Ok(())
    }

    /// Open an array that will hold exactly `expected_len` values.
    pub fn write_array_begin(&mut self, expected_len: usize) -> (r: Result<(), WriteError>)
        requires
            out_wf(old(self).out_state()),
            old(self).nums_wf(),
        ensures
            final(self).spec_store() == old(self).spec_store(),
            final(self).spec_input() == old(self).spec_input(),
            out_wf(final(self).out_state()),
            final(self).nums_wf(),
            if out_accepts_value(old(self).out_state()) {
                r == Ok::<(), WriteError>(()) && final(self).out_state() == (OutState {
                    stack: old(self).out_state().stack.push(
                        FrameV::Arr { expected: expected_len as int, items: Seq::empty() },
                    ),
                    ..old(self).out_state()
                })
            } else {
                r == Err::<(), WriteError>(WriteError::InvalidState) && final(self).out_state()
                    == old(self).out_state()
            },
    {
        if !self.accepts_value() {
            return Err(WriteError::InvalidState);
        }
        self.frames.push(Frame::Arr { expected: expected_len, items: Vec::new() });
        proof {
            let pre = old(self).out_state();
            let post = self.out_state();
            assert forall|i: int| 0 <= i < post.stack.len() - 1 implies post.stack[i]
                == pre.stack[i] by {
                assert(self.frames@[i] == old(self).frames@[i]);
            }
            assert(frame_view(self.frames@[pre.stack.len() as int])->Arr_items
                =~= Seq::<JVal>::empty());
            assert(post.stack =~= pre.stack.push(
                FrameV::Arr { expected: expected_len as int, items: Seq::empty() },
            ));
            assert(post =~= (OutState {
                stack: pre.stack.push(
                    FrameV::Arr { expected: expected_len as int, items: Seq::empty() },
                ),
                ..pre
            }));
        }
        Ok(())
    }

    /// Whether a complete value may land now.
    fn accepts_value(&self) -> (r: bool)
        ensures
            r == out_accepts_value(self.out_state()),
    {
        if self.finalized {
            return false;
        }
        let n = self.frames.len();
        if n == 0 {
            self.out_root.is_none()
        } else {
            match &self.frames[n - 1] {
                Frame::Arr { .. } => true,
                Frame::Obj { pending, .. } => pending.is_some(),
            }
        }
    }

    /// Close the open object. The declared and the written pair count must
    /// agree, and no key may be dangling: otherwise the arity error.
    pub fn write_object_end(&mut self) -> (r: Result<(), WriteError>)
        requires
            out_wf(old(self).out_state()),
            old(self).nums_wf(),
        ensures
            final(self).spec_store() == old(self).spec_store(),
            final(self).spec_input() == old(self).spec_input(),
            out_wf(final(self).out_state()),
            final(self).nums_wf(),
            ({
                let st = old(self).out_state();
                if st.finalized || st.stack.len() == 0 || !(st.stack.last() is Obj) {
                    r == Err::<(), WriteError>(WriteError::InvalidState) && final(self).out_state()
                        == st
                } else if !(st.stack.last()->Obj_pending is None) || st.stack.last()->Obj_pairs.len()
                    != st.stack.last()->Obj_expected {
                    r == Err::<(), WriteError>(WriteError::ArityMismatch) && final(self).out_state()
                        == st
                } else {
                    r == Ok::<(), WriteError>(()) && final(self).out_state() == out_push_value(
                        OutState { stack: st.stack.drop_last(), ..st },
                        JVal::Obj(st.stack.last()->Obj_pairs),
                    )
                }
            }),
    {
        if self.finalized {
            return Err(WriteError::InvalidState);
        }
        let n = self.frames.len();
        if n == 0 {
            return Err(WriteError::InvalidState);
        }
        let ok = match &self.frames[n - 1] {
            Frame::Obj { expected, pairs, pending } => pending.is_none() && pairs.len()
                == *expected,
            Frame::Arr { .. } => {
                return Err(WriteError::InvalidState);
            },
        };
        if !ok {
            return Err(WriteError::ArityMismatch);
        }
        let frame = self.frames.pop().unwrap();
        let ghost popped = *self;
        match frame {
            Frame::Obj { pairs, .. } => {
                proof {
                    assert(old(self).frames@.drop_last() =~= self.frames@);
                    assert(popped.out_state().stack =~= old(self).out_state().stack.drop_last());
                    assert(jv_view(JsonValue::Object(pairs)) == JVal::Obj(
                        old(self).out_state().stack.last()->Obj_pairs,
                    )) by {
                        assert(jv_view(JsonValue::Object(pairs))->Obj_0 =~= old(
                            self,
                        ).out_state().stack.last()->Obj_pairs);
                    }
                }
                self.push_value(JsonValue::Object(pairs))
            },
            Frame::Arr { .. } => Err(WriteError::InvalidState),
        }
    }

    /// Close the open array. The declared and the written element count must
    /// agree: otherwise the arity error.
    pub fn write_array_end(&mut self) -> (r: Result<(), WriteError>)
        requires
            out_wf(old(self).out_state()),
            old(self).nums_wf(),
        ensures
            final(self).spec_store() == old(self).spec_store(),
            final(self).spec_input() == old(self).spec_input(),
            out_wf(final(self).out_state()),
            final(self).nums_wf(),
            ({
                let st = old(self).out_state();
                if st.finalized || st.stack.len() == 0 || !(st.stack.last() is Arr) {
                    r == Err::<(), WriteError>(WriteError::InvalidState) && final(self).out_state()
                        == st
                } else if st.stack.last()->Arr_items.len() != st.stack.last()->Arr_expected {
                    r == Err::<(), WriteError>(WriteError::ArityMismatch) && final(self).out_state()
                        == st
                } else {
                    r == Ok::<(), WriteError>(()) && final(self).out_state() == out_push_value(
                        OutState { stack: st.stack.drop_last(), ..st },
                        JVal::Arr(st.stack.last()->Arr_items),
                    )
                }
            }),
    {
        if self.finalized {
            return Err(WriteError::InvalidState);
        }
        let n = self.frames.len();
        if n == 0 {
            return Err(WriteError::InvalidState);
        }
        let ok = match &self.frames[n - 1] {
            Frame::Arr { expected, items } => items.len() == *expected,
            Frame::Obj { .. } => {
                return Err(WriteError::InvalidState);
            },
        };
        if !ok {
            return Err(WriteError::ArityMismatch);
        }
        let frame = self.frames.pop().unwrap();
        let ghost popped = *self;
        match frame {
            Frame::Arr { items, .. } => {
                proof {
                    assert(old(self).frames@.drop_last() =~= self.frames@);
                    assert(popped.out_state().stack =~= old(self).out_state().stack.drop_last());
                    assert(jv_view(JsonValue::Array(items)) == JVal::Arr(
                        old(self).out_state().stack.last()->Arr_items,
                    )) by {
                        assert(jv_view(JsonValue::Array(items))->Arr_0 =~= old(
                            self,
                        ).out_state().stack.last()->Arr_items);
                    }
                }
                self.push_value(JsonValue::Array(items))
            },
            Frame::Obj { .. } => Err(WriteError::InvalidState),
        }
    }

    /// Commit the built tree: exactly once, and only when it is one complete
    /// rooted value. A second call, or an incomplete output, is an error.
    pub fn finalize_output(&mut self) -> (r: Result<(), WriteError>)
        requires
            out_wf(old(self).out_state()),
            old(self).nums_wf(),
        ensures
            final(self).spec_store() == old(self).spec_store(),
            final(self).spec_input() == old(self).spec_input(),
            out_wf(final(self).out_state()),
            final(self).nums_wf(),
            ({
                let st = old(self).out_state();
                if !st.finalized && st.stack.len() == 0 && st.root is Some {
                    r == Ok::<(), WriteError>(()) && final(self).out_state() == (OutState {
                        finalized: true,
                        ..st
                    })
                } else {
                    r == Err::<(), WriteError>(WriteError::InvalidState) && final(self).out_state()
                        == st
                }
            }),
    {
        if self.finalized || self.frames.len() != 0 || self.out_root.is_none() {
            return Err(WriteError::InvalidState);
        }
        self.finalized = true;
        proof {
            assert(final(self).out_state() =~= (OutState {
                finalized: true,
                ..old(self).out_state()
            }));
        }
        Ok(())
    }

    /// The committed output tree, or nothing before finalization.
    pub closed spec fn spec_output(self) -> Option<JsonValue> {
        if self.finalized {
            self.out_root
        } else {
            None
        }
    }

    /// The committed output tree as JSON text: nothing is visible before
    /// finalization.
    pub fn output_json_string(&self) -> (r: Option<String>)
        requires
            self.nums_wf(),
        ensures
            match r {
                Some(t) => self.out_state().finalized && exists|v: JsonValue|
                    {
                        &&& self.out_state().root == Some(jv_view(v))
                        &&& t@ == #[trigger] crate::json_text::json_text_of(v)
                    },
                None => !self.out_state().finalized || self.out_state().root is None,
            },
    {
        if !self.finalized {
            return None;
        }
        match &self.out_root {
            Some(v) => Some(crate::json_text::to_json_string(v)),
            None => None,
        }
    }

    /// The committed output tree: nothing is visible before finalization.
    pub fn output(&self) -> (r: Option<&JsonValue>)
        ensures
            ({
                let st = self.out_state();
                match r {
                    Some(v) => st.finalized && st.root == Some(jv_view(*v)),
                    None => !st.finalized || st.root is None,
                }
            }),
    {
        if self.finalized {
            self.out_root.as_ref()
        } else {
            None
        }
    }
}

} // verus!
