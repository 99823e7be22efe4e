//! The encode half of the capability: every scalar, struct and enum type of
//! the system writes itself into a session's output tree, and structural
//! types compose the capability recursively.

use vstd::prelude::*;
use crate::context::{
    out_accepts_str, out_accepts_value, out_push_str, out_push_value, out_wf, Context, FrameV,
    OutState, WriteError,
};
use crate::decimal::{spec_repr, Decimal};
use crate::store::JVal;

verus! {

/// The encode capability. Under an open slot for a value, encoding always
/// succeeds and lands exactly `encoded` of the native value there.
pub trait WasmSerialize: DeepView {
    /// Which native values can be encoded at all (a catch-all enum variant
    /// for unknown host members, for one, cannot).
    spec fn ser_ok(v: Self::V) -> bool;

    /// The value shape the encoding writes.
    spec fn encoded(v: Self::V) -> JVal;

    /// Encode one value into the session's output.
    fn serialize(&self, context: &mut Context) -> (r: Result<(), WriteError>)
        requires
            out_wf(old(context).out_state()),
            out_accepts_value(old(context).out_state()),
            old(context).nums_wf(),
            Self::ser_ok(self.deep_view()),
        ensures
            final(context).spec_store() == old(context).spec_store(),
            final(context).spec_input() == old(context).spec_input(),
            out_wf(final(context).out_state()),
            final(context).nums_wf(),
            r == Ok::<(), WriteError>(()),
            final(context).out_state() == out_push_value(
                old(context).out_state(),
                Self::encoded(self.deep_view()),
            ),
    ;
}

/// Under an open value slot, a string write lands as a value, never as a key.
pub proof fn lemma_push_str_is_value(st: OutState, s: Seq<char>)
    requires
        out_accepts_value(st),
    ensures
        out_accepts_str(st),
        out_push_str(st, s) == out_push_value(st, JVal::Str(s)),
{
}

impl WasmSerialize for bool {
    open spec fn ser_ok(v: bool) -> bool {
        true
    }

    open spec fn encoded(v: bool) -> JVal {
        JVal::Bool(v)
    }

    fn serialize(&self, context: &mut Context) -> (r: Result<(), WriteError>) {
        context.write_bool(*self)
    }
}

impl WasmSerialize for i64 {
    open spec fn ser_ok(v: i64) -> bool {
        true
    }

    open spec fn encoded(v: i64) -> JVal {
        JVal::Num(Decimal::spec_from_i64(v as int))
    }

    fn serialize(&self, context: &mut Context) -> (r: Result<(), WriteError>) {
        context.write_num(Decimal::from_i64(*self))
    }
}

impl WasmSerialize for String {
    open spec fn ser_ok(v: Seq<char>) -> bool {
        true
    }

    open spec fn encoded(v: Seq<char>) -> JVal {
        JVal::Str(v)
    }

    fn serialize(&self, context: &mut Context) -> (r: Result<(), WriteError>) {
        proof {
            lemma_push_str_is_value(context.out_state(), self@);
        }
        context.write_utf8_str(self.as_str())
    }
}

impl WasmSerialize for Decimal {
    /// The decimal scalar travels as a string, in the codec rendering.
    open spec fn ser_ok(v: Decimal) -> bool {
        v.wf()
    }

    open spec fn encoded(v: Decimal) -> JVal {
        JVal::Str(spec_repr(v))
    }

    fn serialize(&self, context: &mut Context) -> (r: Result<(), WriteError>) {
        let s = self.to_repr_string();
        proof {
            lemma_push_str_is_value(context.out_state(), s@);
        }
        context.write_utf8_str(s.as_str())
    }
}

impl<T: WasmSerialize> WasmSerialize for Option<T> {
    /// An absent value encodes as null; at the field level, structs skip
    /// absent fields instead of calling this.
    open spec fn ser_ok(v: Option<<T as DeepView>::V>) -> bool {
        match v {
            Some(t) => T::ser_ok(t),
            None => true,
        }
    }

    open spec fn encoded(v: Option<<T as DeepView>::V>) -> JVal {
        match v {
            Some(t) => T::encoded(t),
            None => JVal::Null,
        }
    }

    fn serialize(&self, context: &mut Context) -> (r: Result<(), WriteError>) {
        match self {
            Some(t) => t.serialize(context),
            None => context.write_null(),
        }
    }
}

impl<T: WasmSerialize> WasmSerialize for Vec<T> {
    open spec fn ser_ok(v: Seq<<T as DeepView>::V>) -> bool {
        forall|k: int| 0 <= k < v.len() ==> T::ser_ok(#[trigger] v[k])
    }

    open spec fn encoded(v: Seq<<T as DeepView>::V>) -> JVal {
        JVal::Arr(Seq::new(v.len(), |k: int| T::encoded(v[k])))
    }

    fn serialize(&self, context: &mut Context) -> (r: Result<(), WriteError>) {
        let ghost pre = old(context).out_state();
        let ghost enc = Self::encoded(self.deep_view())->Arr_0;
        let n = self.len();
        match context.write_array_begin(n) {
            Ok(()) => {},
            Err(e) => {
                return Err(e);
            },
        }
        let mut k: usize = 0;
        proof {
            assert(enc.take(0) =~= Seq::<JVal>::empty());
            assert(context.out_state() =~= (OutState {
                stack: pre.stack.push(FrameV::Arr { expected: n as int, items: enc.take(0) }),
                ..pre
            }));
        }
        while k < n
            invariant
                k <= n,
                n == self@.len(),
                enc == Vec::<T>::encoded(self.deep_view())->Arr_0,
                enc.len() == n,
                forall|t: int| 0 <= t < n ==> T::ser_ok(#[trigger] self.deep_view()[t]),
                forall|t: int| 0 <= t < n ==> enc[t] == T::encoded(#[trigger] self.deep_view()[t]),
                out_wf(pre),
                out_accepts_value(pre),
                context.out_state() == (OutState {
                    stack: pre.stack.push(
                        FrameV::Arr { expected: n as int, items: enc.take(k as int) },
                    ),
                    ..pre
                }),
                out_wf(context.out_state()),
                context.nums_wf(),
                context.spec_store() == old(context).spec_store(),
                context.spec_input() == old(context).spec_input(),
            decreases n - k,
        {
            proof {
                assert(self.deep_view()[k as int] == self@[k as int].deep_view());
            }
            match self[k].serialize(context) {
                Ok(()) => {},
                Err(e) => {
                    return Err(e);
                },
            }
            proof {
                assert(context.out_state().stack =~= pre.stack.push(
                    FrameV::Arr { expected: n as int, items: enc.take(k + 1 as int) },
                )) by {
                    assert(enc.take(k as int).push(enc[k as int]) =~= enc.take(k + 1 as int));
                }
                assert(context.out_state() =~= (OutState {
                    stack: pre.stack.push(
                        FrameV::Arr { expected: n as int, items: enc.take(k + 1 as int) },
                    ),
                    ..pre
                }));
            }
            k = k + 1;
        }
        proof {
            assert(enc.take(n as int) =~= enc);
        }
        let r = context.write_array_end();
        proof {
            let st = context.out_state();
            assert(st =~= out_push_value(pre, Vec::<T>::encoded(self.deep_view()))) by {
                assert(pre.stack.push(
                    FrameV::Arr { expected: n as int, items: enc },
                ).drop_last() =~= pre.stack);
                assert(out_push_value(pre, JVal::Arr(enc)) =~= out_push_value(
                    pre,
                    Vec::<T>::encoded(self.deep_view()),
                ));
            }
        }
        r
    }
}

/// Write one named field into the open object frame: the key, then the
/// value. The frame gains exactly one pair.
pub fn write_field<T: WasmSerialize>(context: &mut Context, name: &str, value: &T) -> (r: Result<
    (),
    WriteError,
>)
    requires
        out_wf(old(context).out_state()),
        old(context).nums_wf(),
        old(context).out_state().stack.len() > 0,
        old(context).out_state().stack.last() matches FrameV::Obj { pending: None, .. },
        T::ser_ok(value.deep_view()),
    ensures
        final(context).spec_store() == old(context).spec_store(),
        final(context).spec_input() == old(context).spec_input(),
        out_wf(final(context).out_state()),
        final(context).nums_wf(),
        r == Ok::<(), WriteError>(()),
        final(context).out_state() == (OutState {
            stack: old(context).out_state().stack.update(
                old(context).out_state().stack.len() - 1,
                FrameV::Obj {
                    expected: old(context).out_state().stack.last()->Obj_expected,
                    pairs: old(context).out_state().stack.last()->Obj_pairs.push(
                        (name@, T::encoded(value.deep_view())),
                    ),
                    pending: None,
                },
            ),
            ..old(context).out_state()
        }),
{
    let ghost pre = old(context).out_state();
    let ghost top = pre.stack.len() - 1;
    let ghost expected = pre.stack.last()->Obj_expected;
    let ghost pairs = pre.stack.last()->Obj_pairs;
    let rk = context.write_utf8_str(name);
    proof {
        assert(context.out_state() =~= (OutState {
            stack: pre.stack.update(
                top,
                FrameV::Obj { expected, pairs, pending: Some(name@) },
            ),
            ..pre
        }));
    }
    match rk {
        Ok(()) => {},
        Err(e) => {
            return Err(e);
        },
    }
    let r = value.serialize(context);
    proof {
        let st = context.out_state();
        assert(st.stack =~= pre.stack.update(
            top,
            FrameV::Obj {
                expected,
                pairs: pairs.push((name@, T::encoded(value.deep_view()))),
                pending: None,
            },
        )) by {
            let mid = OutState {
                stack: pre.stack.update(
                    top,
                    FrameV::Obj { expected, pairs, pending: Some(name@) },
                ),
                ..pre
            };
            assert(mid.stack.update(
                top,
                FrameV::Obj {
                    expected,
                    pairs: pairs.push((name@, T::encoded(value.deep_view()))),
                    pending: None,
                },
            ) =~= pre.stack.update(
                top,
                FrameV::Obj {
                    expected,
                    pairs: pairs.push((name@, T::encoded(value.deep_view()))),
                    pending: None,
                },
            ));
        }
        assert(st =~= (OutState {
            stack: pre.stack.update(
                top,
                FrameV::Obj {
                    expected,
                    pairs: pairs.push((name@, T::encoded(value.deep_view()))),
                    pending: None,
                },
            ),
            ..pre
        }));
    }
    r
}

} // verus!
