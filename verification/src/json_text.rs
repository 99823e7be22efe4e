//! JSON text at the boundary: rendering an owned output tree to text, and
//! reading an input text into a value store.

use vstd::prelude::*;
use vstd::string::*;
use crate::decimal::{spec_display, Decimal};
use crate::json_value::{jv_view, JsonProp, JsonValue};
use crate::read::ReadError;
use crate::store::{JVal, Value, ValueStore};

verus! {

/// How one character appears inside a JSON string literal. Quotes and
/// backslashes are escaped, as are the common control characters.
pub open spec fn esc_char(c: char) -> Seq<char> {
    if c == '"' {
        seq!['\\', '"']
    } else if c == '\\' {
        seq!['\\', '\\']
    } else if c == '\n' {
        seq!['\\', 'n']
    } else if c == '\r' {
        seq!['\\', 'r']
    } else if c == '\t' {
        seq!['\\', 't']
    } else {
        seq![c]
    }
}

/// A string's characters, escaped for a JSON string literal.
pub open spec fn esc_str(s: Seq<char>) -> Seq<char>
    decreases s.len(),
{
    if s.len() == 0 {
        Seq::empty()
    } else {
        esc_char(s[0]) + esc_str(s.skip(1))
    }
}

/// Parts joined by commas.
pub open spec fn join_comma(parts: Seq<Seq<char>>) -> Seq<char>
    decreases parts.len(),
{
    if parts.len() == 0 {
        Seq::empty()
    } else if parts.len() == 1 {
        parts[0]
    } else {
        parts[0] + seq![','] + join_comma(parts.skip(1))
    }
}

/// A quoted, escaped JSON string literal.
pub open spec fn quoted(s: Seq<char>) -> Seq<char> {
    seq!['"'] + esc_str(s) + seq!['"']
}

/// The JSON text of an owned value tree: minimal, with no added whitespace,
/// numbers in the plain decimal rendering, properties in insertion order.
pub open spec fn json_text_of(v: JsonValue) -> Seq<char>
    decreases v,
{
    match v {
        JsonValue::Null => seq!['n', 'u', 'l', 'l'],
        JsonValue::Boolean(b) => if b {
            seq!['t', 'r', 'u', 'e']
        } else {
            seq!['f', 'a', 'l', 's', 'e']
        },
        JsonValue::Number(d) => spec_display(d),
        JsonValue::String(s) => quoted(s@),
        JsonValue::Array(a) => seq!['['] + join_comma(arr_parts(a@)) + seq![']'],
        JsonValue::Object(o) => seq!['{'] + join_comma(obj_parts(o@)) + seq!['}'],
    }
}

/// The rendered elements of an array.
pub open spec fn arr_parts(a: Seq<JsonValue>) -> Seq<Seq<char>>
    decreases a,
{
    Seq::new(
        a.len(),
        |k: int|
            if 0 <= k < a.len() {
                json_text_of(a[k])
            } else {
                Seq::empty()
            },
    )
}

/// The rendered properties of an object, each a quoted key, a colon and the
/// value.
pub open spec fn obj_parts(o: Seq<JsonProp>) -> Seq<Seq<char>>
    decreases o,
{
    Seq::new(
        o.len(),
        |k: int|
            if 0 <= k < o.len() {
                quoted(o[k].key@) + seq![':'] + json_text_of(o[k].value)
            } else {
                Seq::empty()
            },
    )
}

/// Every number in the tree is in canonical form, so that its rendering is
/// defined.
pub open spec fn json_num_wf(v: JsonValue) -> bool
    decreases v,
{
    match v {
        JsonValue::Number(d) => d.wf(),
        JsonValue::Array(a) => forall|k: int| 0 <= k < a.len() ==> json_num_wf(#[trigger] a[k]),
        JsonValue::Object(o) => forall|k: int|
            0 <= k < o.len() ==> json_num_wf(#[trigger] o[k].value),
        _ => true,
    }
}

proof fn lemma_esc_str_snoc(t: Seq<char>, c: char)
    ensures
        esc_str(t.push(c)) == esc_str(t) + esc_char(c),
    decreases t.len(),
{
    if t.len() == 0 {
        assert(t.push(c)[0] == c);
        assert(t.push(c).skip(1) =~= Seq::<char>::empty());
        assert(esc_str(Seq::<char>::empty()) =~= Seq::<char>::empty());
        assert(esc_char(c) + Seq::<char>::empty() =~= esc_char(c));
        assert(esc_str(t.push(c)) =~= esc_char(c));
        assert(esc_str(t) + esc_char(c) =~= esc_char(c));
    } else {
        lemma_esc_str_snoc(t.skip(1), c);
        assert(t.push(c)[0] == t[0]);
        assert(t.push(c).skip(1) =~= t.skip(1).push(c));
        assert(esc_char(t[0]) + (esc_str(t.skip(1)) + esc_char(c)) =~= (esc_char(t[0]) + esc_str(
            t.skip(1),
        )) + esc_char(c));
    }
}

proof fn lemma_join_comma_snoc(parts: Seq<Seq<char>>, p: Seq<char>)
    ensures
        join_comma(parts.push(p)) == if parts.len() == 0 {
            p
        } else {
            join_comma(parts) + seq![','] + p
        },
    decreases parts.len(),
{
    if parts.len() == 0 {
        assert(parts.push(p)[0] == p);
        assert(join_comma(parts.push(p)) == p);
    } else if parts.len() == 1 {
        assert(parts.push(p)[0] == parts[0]);
        assert(parts.push(p).skip(1) =~= seq![p]);
        assert(join_comma(seq![p]) == p);
    } else {
        lemma_join_comma_snoc(parts.skip(1), p);
        assert(parts.push(p)[0] == parts[0]);
        assert(parts.push(p).skip(1) =~= parts.skip(1).push(p));
        assert(parts[0] + seq![','] + (join_comma(parts.skip(1)) + seq![','] + p) =~= (parts[0]
            + seq![','] + join_comma(parts.skip(1))) + seq![','] + p);
    }
}

/// Append a string's characters to the output, escaped and quoted.
fn write_quoted(s: &str, out: &mut String)
    ensures
        final(out)@ == old(out)@ + quoted(s@),
{
    proof {
        reveal_strlit("\"");
    }
    out.append("\"");
    let n = s.unicode_len();
    let mut i: usize = 0;
    proof {
        assert(s@.take(0) =~= Seq::<char>::empty());
        assert(out@ =~= old(out)@ + seq!['"'] + esc_str(s@.take(0)));
    }
    while i < n
        invariant
            i <= n,
            n == s@.len(),
            out@ == old(out)@ + seq!['"'] + esc_str(s@.take(i as int)),
        decreases n - i,
    {
        let c = s.get_char(i);
        proof {
            lemma_esc_str_snoc(s@.take(i as int), c);
            assert(s@.take(i as int).push(c) =~= s@.take(i + 1 as int));
        }
        if c == '"' {
            proof {
                reveal_strlit("\\\"");
            }
            out.append("\\\"");
            proof {
                assert("\\\""@ =~= esc_char(c));
            }
        } else if c == '\\' {
            proof {
                reveal_strlit("\\\\");
            }
            out.append("\\\\");
            proof {
                assert("\\\\"@ =~= esc_char(c));
            }
        } else if c == '\n' {
            proof {
                reveal_strlit("\\n");
            }
            out.append("\\n");
            proof {
                assert("\\n"@ =~= esc_char(c));
            }
        } else if c == '\r' {
            proof {
                reveal_strlit("\\r");
            }
            out.append("\\r");
            proof {
                assert("\\r"@ =~= esc_char(c));
            }
        } else if c == '\t' {
            proof {
                reveal_strlit("\\t");
            }
            out.append("\\t");
            proof {
                assert("\\t"@ =~= esc_char(c));
            }
        } else {
            let piece = s.substring_char(i, i + 1);
            out.append(piece);
            proof {
                assert(piece@ =~= esc_char(c));
            }
        }
        proof {
            assert(out@ =~= old(out)@ + seq!['"'] + esc_str(s@.take(i + 1 as int)));
        }
        i = i + 1;
    }
    out.append("\"");
    proof {
        assert(s@.take(n as int) =~= s@);
        assert(out@ =~= old(out)@ + quoted(s@));
    }
}

proof fn lemma_arr_part(a: Seq<JsonValue>, k: int)
    requires
        0 <= k < a.len(),
    ensures
        arr_parts(a).len() == a.len(),
        arr_parts(a)[k] == json_text_of(a[k]),
{
}

proof fn lemma_obj_part(o: Seq<JsonProp>, k: int)
    requires
        0 <= k < o.len(),
    ensures
        obj_parts(o).len() == o.len(),
        obj_parts(o)[k] == quoted(o[k].key@) + seq![':'] + json_text_of(o[k].value),
{
}

/// Append the comma-separated JSON texts of an array's elements.
fn write_json_items(a: &Vec<JsonValue>, out: &mut String)
    requires
        forall|t: int| 0 <= t < a@.len() ==> json_num_wf(#[trigger] a@[t]),
    ensures
        final(out)@ == old(out)@ + join_comma(arr_parts(a@)),
    decreases *a, 0int,
{
    let ghost parts = arr_parts(a@);
    let n = a.len();
    let mut k: usize = 0;
    proof {
        assert(parts.take(0) =~= Seq::<Seq<char>>::empty());
        assert(join_comma(parts.take(0)) =~= Seq::<char>::empty());
        assert(out@ =~= old(out)@ + join_comma(parts.take(0)));
    }
    while k < n
        invariant
            k <= n,
            n == a@.len(),
            forall|t: int| 0 <= t < a@.len() ==> json_num_wf(#[trigger] a@[t]),
            parts == arr_parts(a@),
            out@ == old(out)@ + join_comma(parts.take(k as int)),
        decreases n - k,
    {
        if k > 0 {
            proof {
                reveal_strlit(",");
            }
            out.append(",");
            proof {
                assert(","@ =~= seq![',']);
            }
        }
        write_json(&a[k], out);
        proof {
            lemma_join_comma_snoc(parts.take(k as int), parts[k as int]);
            lemma_arr_part(a@, k as int);
            assert(parts[k as int] == json_text_of(a@[k as int]));
            assert(parts.take(k as int).push(parts[k as int]) =~= parts.take(k + 1 as int));
            assert(out@ =~= old(out)@ + join_comma(parts.take(k + 1 as int)));
        }
        k = k + 1;
    }
    proof {
        assert(parts.take(n as int) =~= parts);
    }
}

/// Append the comma-separated JSON texts of an object's properties, each a
/// quoted key, a colon and the value.
fn write_json_props(o: &Vec<JsonProp>, out: &mut String)
    requires
        forall|t: int| 0 <= t < o@.len() ==> json_num_wf(#[trigger] o@[t].value),
    ensures
        final(out)@ == old(out)@ + join_comma(obj_parts(o@)),
    decreases *o, 0int,
{
    let ghost parts = obj_parts(o@);
    let n = o.len();
    let mut k: usize = 0;
    proof {
        assert(parts.take(0) =~= Seq::<Seq<char>>::empty());
        assert(join_comma(parts.take(0)) =~= Seq::<char>::empty());
        assert(out@ =~= old(out)@ + join_comma(parts.take(0)));
    }
    while k < n
        invariant
            k <= n,
            n == o@.len(),
            forall|t: int| 0 <= t < o@.len() ==> json_num_wf(#[trigger] o@[t].value),
            parts == obj_parts(o@),
            out@ == old(out)@ + join_comma(parts.take(k as int)),
        decreases n - k,
    {
        if k > 0 {
            proof {
                reveal_strlit(",");
            }
            out.append(",");
            proof {
                assert(","@ =~= seq![',']);
            }
        }
        write_quoted(o[k].key.as_str(), out);
        proof {
            reveal_strlit(":");
        }
        out.append(":");
        proof {
            assert(":"@ =~= seq![':']);
        }
        write_json(&o[k].value, out);
        proof {
            lemma_join_comma_snoc(parts.take(k as int), parts[k as int]);
            lemma_obj_part(o@, k as int);
            assert(parts[k as int] == quoted(o@[k as int].key@) + seq![':'] + json_text_of(
                o@[k as int].value,
            ));
            assert(parts.take(k as int).push(parts[k as int]) =~= parts.take(k + 1 as int));
            assert(out@ =~= old(out)@ + join_comma(parts.take(k + 1 as int)));
        }
        k = k + 1;
    }
    proof {
        assert(parts.take(n as int) =~= parts);
    }
}

/// Append the JSON text of a value to the output.
fn write_json(v: &JsonValue, out: &mut String)
    requires
        json_num_wf(*v),
    ensures
        final(out)@ == old(out)@ + json_text_of(*v),
    decreases *v, 1int,
{
    match v {
        JsonValue::Null => {
            proof {
                reveal_strlit("null");
            }
            out.append("null");
            proof {
                assert("null"@ =~= json_text_of(*v));
            }
        },
        JsonValue::Boolean(b) => {
            if *b {
                proof {
                    reveal_strlit("true");
                }
                out.append("true");
                proof {
                    assert("true"@ =~= json_text_of(*v));
                }
            } else {
                proof {
                    reveal_strlit("false");
                }
                out.append("false");
                proof {
                    assert("false"@ =~= json_text_of(*v));
                }
            }
        },
        JsonValue::Number(d) => {
            let t = d.to_decimal_string();
            out.append(t.as_str());
            proof {
            }
        },
        JsonValue::String(s) => {
            write_quoted(s.as_str(), out);
            proof {
            }
        },
        JsonValue::Array(a) => {
            proof {
                assert(json_num_wf(JsonValue::Array(*a)));
                reveal_strlit("[");
            }
            out.append("[");
            write_json_items(a, out);
            proof {
                reveal_strlit("]");
            }
            out.append("]");
            proof {
                assert("["@ =~= seq!['[']);
                assert("]"@ =~= seq![']']);
                assert(json_text_of(*v) == seq!['['] + join_comma(arr_parts(a@)) + seq![']']);
                assert(out@ =~= old(out)@ + json_text_of(*v));
            }
        },
        JsonValue::Object(o) => {
            proof {
                assert(json_num_wf(JsonValue::Object(*o)));
                reveal_strlit("{");
            }
            out.append("{");
            write_json_props(o, out);
            proof {
                reveal_strlit("}");
            }
            out.append("}");
            proof {
                assert("{"@ =~= seq!['{']);
                assert("}"@ =~= seq!['}']);
                assert(json_text_of(*v) == seq!['{'] + join_comma(obj_parts(o@)) + seq!['}']);
                assert(out@ =~= old(out)@ + json_text_of(*v));
            }
        },
    }
}


/// The first position at or after `i` that holds no whitespace.
pub open spec fn spec_ws(s: Seq<char>, i: int) -> int
    decreases s.len() - i,
{
    if 0 <= i < s.len() && (s[i] == ' ' || s[i] == '\t' || s[i] == '\n' || s[i] == '\r') {
        spec_ws(s, i + 1)
    } else {
        i
    }
}

pub proof fn lemma_spec_ws(s: Seq<char>, i: int)
    ensures
        spec_ws(s, i) >= i,
        i <= s.len() ==> spec_ws(s, i) <= s.len(),
    decreases s.len() - i,
{
    if 0 <= i < s.len() && (s[i] == ' ' || s[i] == '\t' || s[i] == '\n' || s[i] == '\r') {
        lemma_spec_ws(s, i + 1);
    }
}

/// What one escape character stands for, if it is accepted.
pub open spec fn spec_unescape(e: char) -> Option<char> {
    if e == '"' {
        Some('"')
    } else if e == '\\' {
        Some('\\')
    } else if e == '/' {
        Some('/')
    } else if e == 'n' {
        Some('\n')
    } else if e == 't' {
        Some('\t')
    } else if e == 'r' {
        Some('\r')
    } else {
        None
    }
}

/// The unescaped content of a string literal's body beginning at `j`, and
/// the position after the closing quote.
pub open spec fn spec_string_body(s: Seq<char>, j: int) -> Option<(Seq<char>, int)>
    decreases s.len() - j,
{
    if j < 0 || j >= s.len() {
        None
    } else if s[j] == '"' {
        Some((Seq::empty(), j + 1))
    } else if s[j] == '\\' {
        if j + 1 >= s.len() {
            None
        } else {
            match spec_unescape(s[j + 1]) {
                Some(c) => match spec_string_body(s, j + 2) {
                    Some((t, end)) => Some((seq![c] + t, end)),
                    None => None,
                },
                None => None,
            }
        }
    } else {
        match spec_string_body(s, j + 1) {
            Some((t, end)) => Some((seq![s[j]] + t, end)),
            None => None,
        }
    }
}

/// A string literal at `i`: an opening quote and its body.
pub open spec fn spec_parse_string(s: Seq<char>, i: int) -> Option<(Seq<char>, int)> {
    if 0 <= i < s.len() && s[i] == '"' {
        spec_string_body(s, i + 1)
    } else {
        None
    }
}

/// Digits folded onto `mant` by base ten; digits that would overflow the
/// machine word refuse the number.
pub open spec fn spec_digits(s: Seq<char>, j: int, mant: u64) -> Option<(u64, int)>
    decreases s.len() - j,
{
    if 0 <= j < s.len() && '0' <= s[j] && s[j] <= '9' {
        let dv = (s[j] as u32 - '0' as u32) as u64;
        if mant > (u64::MAX - dv) / 10 {
            None
        } else {
            spec_digits(s, j + 1, (mant * 10 + dv) as u64)
        }
    } else {
        Some((mant, j))
    }
}

/// The optional fraction after the integer digits: more digits folded onto
/// the mantissa, and the count of fraction digits as the scale.
pub open spec fn spec_number_frac(s: Seq<char>, j: int, mant: u64) -> Option<(u64, u64, int)> {
    if 0 <= j < s.len() && s[j] == '.' {
        match spec_digits(s, j + 1, mant) {
            None => None,
            Some((m2, j2)) => if j2 == j + 1 {
                None
            } else {
                Some((m2, (j2 - (j + 1)) as u64, j2))
            },
        }
    } else {
        Some((mant, 0, j))
    }
}

/// Exponent digits, bounded well below the machine word.
pub open spec fn spec_exp_digits(s: Seq<char>, j: int, ev: u64) -> Option<(u64, int)>
    decreases s.len() - j,
{
    if 0 <= j < s.len() && '0' <= s[j] && s[j] <= '9' {
        if ev > 100000 {
            None
        } else {
            spec_exp_digits(s, j + 1, (ev * 10 + (s[j] as u32 - '0' as u32) as u64) as u64)
        }
    } else {
        Some((ev, j))
    }
}

/// Scale the mantissa up by a power of ten, refusing machine-word overflow.
pub open spec fn spec_scale_up(mant: u64, surplus: u64) -> Option<u64>
    decreases surplus,
{
    if surplus == 0 {
        Some(mant)
    } else if mant > u64::MAX / 10 {
        None
    } else {
        spec_scale_up((mant * 10) as u64, (surplus - 1) as u64)
    }
}

/// Fold an exponent into the mantissa and scale.
pub open spec fn spec_exp_fold(mant: u64, scale: u64, eneg: bool, ev: u64) -> Option<(u64, u64)> {
    if eneg {
        if scale > u64::MAX - ev {
            None
        } else {
            Some((mant, (scale + ev) as u64))
        }
    } else {
        if ev >= scale {
            match spec_scale_up(mant, (ev - scale) as u64) {
                Some(m) => Some((m, 0u64)),
                None => None,
            }
        } else {
            Some((mant, (scale - ev) as u64))
        }
    }
}

/// The optional exponent after the fraction.
pub open spec fn spec_number_exp(s: Seq<char>, j: int, mant: u64, scale: u64) -> Option<
    (u64, u64, int),
> {
    if 0 <= j < s.len() && (s[j] == 'e' || s[j] == 'E') {
        let je = j + 1;
        let eneg = je < s.len() && s[je] == '-';
        let jsign = if je < s.len() && (s[je] == '+' || s[je] == '-') {
            je + 1
        } else {
            je
        };
        match spec_exp_digits(s, jsign, 0) {
            None => None,
            Some((ev, j2)) => if j2 == jsign {
                None
            } else {
                match spec_exp_fold(mant, scale, eneg, ev) {
                    Some((m2, s2)) => Some((m2, s2, j2)),
                    None => None,
                }
            },
        }
    } else {
        Some((mant, scale, j))
    }
}

/// A JSON number at `i`: an optional minus, digits, an optional fraction and
/// an optional exponent, folded into a canonical decimal.
pub open spec fn spec_parse_number(s: Seq<char>, i: int) -> Option<(Decimal, int)> {
    let neg = 0 <= i < s.len() && s[i] == '-';
    let j0 = if neg {
        i + 1
    } else {
        i
    };
    match spec_digits(s, j0, 0) {
        None => None,
        Some((m1, j1)) => if j1 == j0 {
            None
        } else {
            match spec_number_frac(s, j1, m1) {
                None => None,
                Some((m2, sc2, j2)) => match spec_number_exp(s, j2, m2, sc2) {
                    None => None,
                    Some((m3, sc3, j3)) => if sc3 > u32::MAX as u64 {
                        None
                    } else {
                        Some((Decimal::spec_canon(neg, m3 as nat, sc3 as nat), j3))
                    },
                },
            }
        },
    }
}

/// One JSON value at `i`: the value's shape and the position after it.
pub open spec fn spec_parse_value(s: Seq<char>, i: int) -> Option<(JVal, int)>
    decreases s.len() - i, 0int,
        via spec_parse_value_dec
{
    if i < 0 || i >= s.len() {
        None
    } else {
        let c = s[i];
        if c == 'n' {
            if i + 4 <= s.len() && s.subrange(i, i + 4) == "null"@ {
                Some((JVal::Null, i + 4))
            } else {
                None
            }
        } else if c == 't' {
            if i + 4 <= s.len() && s.subrange(i, i + 4) == "true"@ {
                Some((JVal::Bool(true), i + 4))
            } else {
                None
            }
        } else if c == 'f' {
            if i + 5 <= s.len() && s.subrange(i, i + 5) == "false"@ {
                Some((JVal::Bool(false), i + 5))
            } else {
                None
            }
        } else if c == '"' {
            match spec_parse_string(s, i) {
                Some((t, j)) => Some((JVal::Str(t), j)),
                None => None,
            }
        } else if c == '[' {
            let j = spec_ws(s, i + 1);
            if j < s.len() && s[j] == ']' {
                Some((JVal::Arr(Seq::empty()), j + 1))
            } else {
                match spec_arr_items(s, j) {
                    Some((items, e)) => Some((JVal::Arr(items), e)),
                    None => None,
                }
            }
        } else if c == '{' {
            let j = spec_ws(s, i + 1);
            if j < s.len() && s[j] == '}' {
                Some((JVal::Obj(Seq::empty()), j + 1))
            } else {
                match spec_obj_props(s, j) {
                    Some((props, e)) => Some((JVal::Obj(props), e)),
                    None => None,
                }
            }
        } else {
            match spec_parse_number(s, i) {
                Some((d, j)) => Some((JVal::Num(d), j)),
                None => None,
            }
        }
    }
}

#[via_fn]
proof fn spec_parse_value_dec(s: Seq<char>, i: int) {
    assert forall|x: int| x <= s.len() implies x <= #[trigger] spec_ws(s, x) <= s.len() by {
        lemma_spec_ws(s, x);
    }
}

/// The elements of an array from the first element at `j` up to the closing
/// bracket.
pub open spec fn spec_arr_items(s: Seq<char>, j: int) -> Option<(Seq<JVal>, int)>
    decreases s.len() - j, 1int,
        via spec_arr_items_dec
{
    match spec_parse_value(s, j) {
        None => None,
        Some((v, j2)) => {
            let j3 = spec_ws(s, j2);
            if j3 < s.len() && s[j3] == ',' {
                let j4 = spec_ws(s, j3 + 1);
                if j4 <= j {
                    None
                } else {
                    match spec_arr_items(s, j4) {
                        Some((rest, e)) => Some((seq![v] + rest, e)),
                        None => None,
                    }
                }
            } else if j3 < s.len() && s[j3] == ']' {
                Some((seq![v], j3 + 1))
            } else {
                None
            }
        },
    }
}

#[via_fn]
proof fn spec_arr_items_dec(s: Seq<char>, j: int) {
    assert forall|x: int| x <= s.len() implies x <= #[trigger] spec_ws(s, x) <= s.len() by {
        lemma_spec_ws(s, x);
    }
}

/// The properties of an object from the first key at `j` up to the closing
/// brace.
pub open spec fn spec_obj_props(s: Seq<char>, j: int) -> Option<(Seq<(Seq<char>, JVal)>, int)>
    decreases s.len() - j, 1int,
        via spec_obj_props_dec
{
    match spec_parse_string(s, j) {
        None => None,
        Some((key, jk)) => {
            let jc = spec_ws(s, jk);
            if !(jc < s.len() && s[jc] == ':') {
                None
            } else {
                let jv = spec_ws(s, jc + 1);
                if jv <= j {
                    None
                } else {
                    match spec_parse_value(s, jv) {
                        None => None,
                        Some((v, j2)) => {
                            let j3 = spec_ws(s, j2);
                            if j3 < s.len() && s[j3] == ',' {
                                let j4 = spec_ws(s, j3 + 1);
                                if j4 <= j {
                                    None
                                } else {
                                    match spec_obj_props(s, j4) {
                                        Some((rest, e)) => Some((seq![(key, v)] + rest, e)),
                                        None => None,
                                    }
                                }
                            } else if j3 < s.len() && s[j3] == '}' {
                                Some((seq![(key, v)], j3 + 1))
                            } else {
                                None
                            }
                        },
                    }
                }
            }
        },
    }
}

#[via_fn]
proof fn spec_obj_props_dec(s: Seq<char>, j: int) {
    assert forall|x: int| x <= s.len() implies x <= #[trigger] spec_ws(s, x) <= s.len() by {
        lemma_spec_ws(s, x);
    }
}

/// A whole JSON text: surrounding whitespace, one value, and nothing after.
pub open spec fn spec_parse_json(s: Seq<char>) -> Option<JVal> {
    match spec_parse_value(s, spec_ws(s, 0)) {
        Some((v, j)) => if spec_ws(s, j) == s.len() {
            Some(v)
        } else {
            None
        },
        None => None,
    }
}

/// Whether a character is JSON whitespace.
fn is_ws(c: char) -> (r: bool)
    ensures
        r == (c == ' ' || c == '\t' || c == '\n' || c == '\r'),
{
    c == ' ' || c == '\t' || c == '\n' || c == '\r'
}

/// The first position at or after `i` that holds no whitespace.
fn skip_ws(s: &str, i: usize) -> (r: usize)
    requires
        i <= s@.len(),
    ensures
        i <= r <= s@.len(),
        r as int == spec_ws(s@, i as int),
{
    let n = s.unicode_len();
    let mut j = i;
    while j < n
        invariant
            i <= j <= n,
            n == s@.len(),
            spec_ws(s@, i as int) == spec_ws(s@, j as int),
        decreases n - j,
    {
        if !is_ws(s.get_char(j)) {
            return j;
        }
        j = j + 1;
    }
    j
}

/// Consume an exact keyword at `i`.
fn eat_keyword(s: &str, i: usize, kw: &str) -> (r: Option<usize>)
    requires
        i <= s@.len(),
        kw@.len() >= 1,
    ensures
        r == (if i + kw@.len() <= s@.len() && s@.subrange(i as int, i + kw@.len()) == kw@ {
            Some((i + kw@.len()) as usize)
        } else {
            None::<usize>
        }),
{
    let m = kw.unicode_len();
    let n = s.unicode_len();
    if m > n - i {
        return None;
    }
    let mut t: usize = 0;
    while t < m
        invariant
            t <= m,
            m == kw@.len(),
            n == s@.len(),
            i + m <= n,
            m >= 1,
            forall|u: int| 0 <= u < t ==> s@[i + u] == kw@[u],
        decreases m - t,
    {
        if s.get_char(i + t) != kw.get_char(t) {
            proof {
                assert(s@.subrange(i as int, i + kw@.len())[t as int] == s@[i + t]);
            }
            return None;
        }
        t = t + 1;
    }
    proof {
        assert(s@.subrange(i as int, i + kw@.len()) =~= kw@);
    }
    Some(i + m)
}

/// Parse a JSON string literal starting at the opening quote at `i`,
/// returning the unescaped content and the position after the closing quote.
fn parse_json_string(s: &str, i: usize) -> (r: Result<(String, usize), ReadError>)
    requires
        i <= s@.len(),
    ensures
        match r {
            Ok((content, j)) => spec_parse_string(s@, i as int) == Some((content@, j as int)) && i
                < j <= s@.len(),
            Err(e) => spec_parse_string(s@, i as int) is None && e == ReadError::InvalidType,
        },
{
    let n = s.unicode_len();
    if i >= n || s.get_char(i) != '"' {
        return Err(ReadError::InvalidType);
    }
    let mut out = String::new();
    let mut j = i + 1;
    proof {
        match spec_string_body(s@, i + 1) {
            Some((t, e)) => {
                assert(out@ + t =~= t);
            },
            None => {},
        }
    }
    while j < n
        invariant
            i < j <= n,
            n == s@.len(),
            s@[i as int] == '"',
            spec_string_body(s@, i + 1) == (match spec_string_body(s@, j as int) {
                Some((t, e)) => Some((out@ + t, e)),
                None => None::<(Seq<char>, int)>,
            }),
        decreases n - j,
    {
        let c = s.get_char(j);
        if c == '"' {
            proof {
                assert(spec_string_body(s@, j as int) == Some((Seq::<char>::empty(), j + 1int)));
                assert(out@ + Seq::<char>::empty() =~= out@);
            }
            return Ok((out, j + 1));
        } else if c == '\\' {
            if j + 1 >= n {
                return Err(ReadError::InvalidType);
            }
            let e = s.get_char(j + 1);
            let ghost pre = out@;
            if e == '"' {
                proof {
                    reveal_strlit("\"");
                }
                out.append("\"");
                proof {
                    assert(out@ =~= pre.push('"'));
                }
            } else if e == '\\' {
                proof {
                    reveal_strlit("\\");
                }
                out.append("\\");
                proof {
                    assert(out@ =~= pre.push('\\'));
                }
            } else if e == '/' {
                proof {
                    reveal_strlit("/");
                }
                out.append("/");
                proof {
                    assert(out@ =~= pre.push('/'));
                }
            } else if e == 'n' {
                proof {
                    reveal_strlit("\n");
                }
                out.append("\n");
                proof {
                    assert(out@ =~= pre.push('\n'));
                }
            } else if e == 't' {
                proof {
                    reveal_strlit("\t");
                }
                out.append("\t");
                proof {
                    assert(out@ =~= pre.push('\t'));
                }
            } else if e == 'r' {
                proof {
                    reveal_strlit("\r");
                }
                out.append("\r");
                proof {
                    assert(out@ =~= pre.push('\r'));
                }
            } else {
                // no other escapes are accepted; in particular \u escapes
                // are refused, since any such character can be written raw
                return Err(ReadError::InvalidType);
            }
            proof {
                let c2 = spec_unescape(s@[j + 1]).unwrap();
                assert(out@ == pre.push(c2));
                match spec_string_body(s@, j + 2int) {
                    Some((t, end)) => {
                        assert(pre + (seq![c2] + t) =~= out@ + t);
                    },
                    None => {},
                }
            }
            j = j + 2;
        } else {
            let piece = s.substring_char(j, j + 1);
            let ghost pre = out@;
            out.append(piece);
            proof {
                assert(piece@ =~= seq![s@[j as int]]);
                match spec_string_body(s@, j + 1int) {
                    Some((t, end)) => {
                        assert(pre + (seq![s@[j as int]] + t) =~= out@ + t);
                    },
                    None => {},
                }
            }
            j = j + 1;
        }
    }
    proof {
        assert(spec_string_body(s@, j as int) is None);
    }
    Err(ReadError::InvalidType)
}

/// Fold digits at `j` onto `mant` by base ten, reporting where they end;
/// digits that would overflow the machine word refuse the number.
fn scan_digits(s: &str, j: usize, mant: u64) -> (r: Result<(u64, usize), ReadError>)
    requires
        j <= s@.len(),
    ensures
        match r {
            Ok((m2, j2)) => spec_digits(s@, j as int, mant) == Some((m2, j2 as int)) && j <= j2
                <= s@.len(),
            Err(e) => spec_digits(s@, j as int, mant) is None && e == ReadError::InvalidType,
        },
{
    let n = s.unicode_len();
    let mut m = mant;
    let mut k = j;
    while k < n
        invariant
            j <= k <= n,
            n == s@.len(),
            spec_digits(s@, j as int, mant) == spec_digits(s@, k as int, m),
        decreases n - k,
    {
        let c = s.get_char(k);
        if c >= '0' && c <= '9' {
            let dv = (c as u32 - '0' as u32) as u64;
            if m > (u64::MAX - dv) / 10 {
                return Err(ReadError::InvalidType);
            }
            m = m * 10 + dv;
            k = k + 1;
        } else {
            return Ok((m, k));
        }
    }
    Ok((m, k))
}

/// Fold exponent digits at `j` onto `ev`, bounded well below the machine
/// word.
fn scan_exp_digits(s: &str, j: usize, ev: u64) -> (r: Result<(u64, usize), ReadError>)
    requires
        j <= s@.len(),
        ev <= 1000009,
    ensures
        match r {
            Ok((e2, j2)) => spec_exp_digits(s@, j as int, ev) == Some((e2, j2 as int)) && j <= j2
                <= s@.len() && e2 <= 1000009,
            Err(e) => spec_exp_digits(s@, j as int, ev) is None && e == ReadError::InvalidType,
        },
{
    let n = s.unicode_len();
    let mut m = ev;
    let mut k = j;
    while k < n
        invariant
            j <= k <= n,
            n == s@.len(),
            m <= 1000009,
            spec_exp_digits(s@, j as int, ev) == spec_exp_digits(s@, k as int, m),
        decreases n - k,
    {
        let c = s.get_char(k);
        if c >= '0' && c <= '9' {
            let dv = (c as u32 - '0' as u32) as u64;
            if m > 100000 {
                return Err(ReadError::InvalidType);
            }
            m = m * 10 + dv;
            k = k + 1;
        } else {
            return Ok((m, k));
        }
    }
    Ok((m, k))
}

/// Scale the mantissa up by a power of ten, refusing machine-word overflow.
fn scale_up(mant: u64, surplus: u64) -> (r: Result<u64, ReadError>)
    ensures
        match r {
            Ok(m2) => spec_scale_up(mant, surplus) == Some(m2),
            Err(e) => spec_scale_up(mant, surplus) is None && e == ReadError::InvalidType,
        },
{
    let mut m = mant;
    let mut left = surplus;
    while left > 0
        invariant
            spec_scale_up(mant, surplus) == spec_scale_up(m, left),
        decreases left,
    {
        if m > u64::MAX / 10 {
            return Err(ReadError::InvalidType);
        }
        m = m * 10;
        left = left - 1;
    }
    Ok(m)
}

/// Parse a JSON number starting at `i`: an optional minus, digits, an
/// optional fraction and an optional exponent, folded into an exact decimal.
/// A value whose digits do not fit the mantissa's machine word is refused.
#[verifier::rlimit(100)]
fn parse_json_number(s: &str, i: usize) -> (r: Result<(Decimal, usize), ReadError>)
    requires
        i <= s@.len(),
    ensures
        match r {
            Ok((d, j)) => spec_parse_number(s@, i as int) == Some((d, j as int)) && i < j
                <= s@.len() && d.wf(),
            Err(e) => spec_parse_number(s@, i as int) is None && e == ReadError::InvalidType,
        },
{
    let n = s.unicode_len();
    let mut j = i;
    let mut neg = false;
    if j < n && s.get_char(j) == '-' {
        neg = true;
        j = j + 1;
    }
    let ghost j0 = j as int;
    let (m1, j1) = match scan_digits(s, j, 0) {
        Ok(p) => p,
        Err(e) => {
            return Err(e);
        },
    };
    if j1 == j {
        return Err(ReadError::InvalidType);
    }
    j = j1;
    let mut mant = m1;
    let mut scale: u64 = 0;
    if j < n && s.get_char(j) == '.' {
        let (m2, j2) = match scan_digits(s, j + 1, mant) {
            Ok(p) => p,
            Err(e) => {
                return Err(e);
            },
        };
        if j2 == j + 1 {
            return Err(ReadError::InvalidType);
        }
        mant = m2;
        scale = (j2 - (j + 1)) as u64;
        j = j2;
    }
    let ghost jf = j as int;
    let ghost mf = mant;
    let ghost scf = scale;
    if j < n && (s.get_char(j) == 'e' || s.get_char(j) == 'E') {
        j = j + 1;
        let mut eneg = false;
        if j < n && (s.get_char(j) == '+' || s.get_char(j) == '-') {
            eneg = s.get_char(j) == '-';
            j = j + 1;
        }
        let ghost jsign = j as int;
        let (ev, j2) = match scan_exp_digits(s, j, 0) {
            Ok(p) => p,
            Err(e) => {
                return Err(e);
            },
        };
        if j2 == j {
            return Err(ReadError::InvalidType);
        }
        j = j2;
        if eneg {
            if scale > u64::MAX - ev {
                return Err(ReadError::InvalidType);
            }
            scale = scale + ev;
        } else {
            if ev >= scale {
                mant = match scale_up(mant, ev - scale) {
                    Ok(m) => m,
                    Err(e) => {
                        return Err(e);
                    },
                };
                scale = 0;
            } else {
                scale = scale - ev;
            }
        }
        proof {
            assert(spec_number_exp(s@, jf, mf, scf) == Some((mant, scale, j as int)));
        }
    }
    if scale > u32::MAX as u64 {
        return Err(ReadError::InvalidType);
    }
    Ok((Decimal::from_parts(neg, mant, scale as u32), j))
}

/// Parse one JSON value starting at `i`, placing it into the store: the
/// stored value's shape is exactly what the grammar gives the text.
fn parse_json_value(s: &str, i: usize, store: &mut ValueStore) -> (r: Result<
    (Value, usize),
    ReadError,
>)
    requires
        i <= s@.len(),
        old(store).wf(),
    ensures
        final(store).wf(),
        final(store).extends(*old(store)),
        final(store).same_counters(*old(store)),
        match r {
            Ok((v, j)) => spec_parse_value(s@, i as int) == Some(
                (v.view_in(*final(store)), j as int),
            ) && v.wf_for(*final(store)) && i < j <= s@.len(),
            Err(e) => spec_parse_value(s@, i as int) is None && e == ReadError::InvalidType,
        },
    decreases s@.len() - i,
{
    proof {
        crate::store::lemma_extends_refl(*store);
    }
    let n = s.unicode_len();
    if i >= n {
        return Err(ReadError::InvalidType);
    }
    let c = s.get_char(i);
    if c == 'n' {
        proof {
            reveal_strlit("null");
        }
        match eat_keyword(s, i, "null") {
            Some(j) => {
                let v = store.push_null();
                Ok((v, j))
            },
            None => Err(ReadError::InvalidType),
        }
    } else if c == 't' {
        proof {
            reveal_strlit("true");
        }
        match eat_keyword(s, i, "true") {
            Some(j) => {
                let v = store.push_bool(true);
                Ok((v, j))
            },
            None => Err(ReadError::InvalidType),
        }
    } else if c == 'f' {
        proof {
            reveal_strlit("false");
        }
        match eat_keyword(s, i, "false") {
            Some(j) => {
                let v = store.push_bool(false);
                Ok((v, j))
            },
            None => Err(ReadError::InvalidType),
        }
    } else if c == '"' {
        match parse_json_string(s, i) {
            Ok((content, j)) => {
                let v = store.push_str(content.as_str());
                Ok((v, j))
            },
            Err(e) => Err(e),
        }
    } else if c == '[' {
        let mut items: Vec<Value> = Vec::new();
        let mut j = skip_ws(s, i + 1);
        let ghost j_start = j as int;
        if j < n && s.get_char(j) == ']' {
            let v = store.push_array(&items);
            proof {
                assert(v.view_in(*store)->Arr_0 =~= Seq::<JVal>::empty());
                assert(v.view_in(*store) == JVal::Arr(Seq::<JVal>::empty()));
            }
            return Ok((v, j + 1));
        }
        let ghost mut vs: Seq<JVal> = Seq::empty();
        proof {
            match spec_arr_items(s@, j_start) {
                Some((rest, e)) => {
                    assert(vs + rest =~= rest);
                },
                None => {},
            }
        }
        loop
            invariant
                i < j <= n,
                n == s@.len(),
                store.wf(),
                store.extends(*old(store)),
                store.same_counters(*old(store)),
                items@.len() == vs.len(),
                forall|t: int|
                    0 <= t < items@.len() ==> (#[trigger] items@[t]).wf_for(*store)
                        && items@[t].view_in(*store) == vs[t],
                spec_parse_value(s@, i as int) == (match spec_arr_items(s@, j_start) {
                    Some((its, e)) => Some((JVal::Arr(its), e)),
                    None => None::<(JVal, int)>,
                }),
                spec_arr_items(s@, j_start) == (match spec_arr_items(s@, j as int) {
                    Some((rest, e)) => Some((vs + rest, e)),
                    None => None::<(Seq<JVal>, int)>,
                }),
            decreases n - j,
        {
            let ghost mid = *store;
            let r0 = parse_json_value(s, j, store);
            proof {
                crate::store::lemma_extends_trans(*store, mid, *old(store));
                assert forall|t: int| 0 <= t < items@.len() implies (
                #[trigger] items@[t]).wf_for(*store) && items@[t].view_in(*store) == vs[t] by {
                    crate::store::lemma_value_view_extends(mid, *store, items@[t]);
                }
            }
            let (v, j2) = match r0 {
                Ok(p) => p,
                Err(e) => {
                    return Err(e);
                },
            };
            let ghost vv = v.view_in(*store);
            items.push(v);
            proof {
                vs = vs.push(vv);
            }
            let j3 = skip_ws(s, j2);
            if j3 < n && s.get_char(j3) == ',' {
                let j4 = skip_ws(s, j3 + 1);
                if j4 <= j {
                    return Err(ReadError::InvalidType);
                }
                proof {
                    match spec_arr_items(s@, j4 as int) {
                        Some((rest, e)) => {
                            assert(vs.drop_last() + (seq![vv] + rest) =~= vs + rest);
                        },
                        None => {},
                    }
                }
                j = j4;
            } else if j3 < n && s.get_char(j3) == ']' {
                let ghost mid2 = *store;
                let v2 = store.push_array(&items);
                proof {
                    crate::store::lemma_extends_trans(*store, mid2, *old(store));
                    assert(vs.drop_last() + seq![vv] =~= vs);
                    assert(spec_arr_items(s@, j_start) == Some((vs, j3 + 1int)));
                    assert(v2.view_in(*store)->Arr_0 =~= vs) by {
                        assert forall|t: int| 0 <= t < items@.len() implies items@[t].view_in(
                            mid2,
                        ) == vs[t] by {
                        }
                    }
                    assert(v2.view_in(*store) == JVal::Arr(vs));
                }
                return Ok((v2, j3 + 1));
            } else {
                return Err(ReadError::InvalidType);
            }
        }
    } else if c == '{' {
        let mut pairs: Vec<(String, Value)> = Vec::new();
        let mut j = skip_ws(s, i + 1);
        let ghost j_start = j as int;
        if j < n && s.get_char(j) == '}' {
            let v = store.push_object(&pairs);
            proof {
                assert(v.view_in(*store)->Obj_0 =~= Seq::<(Seq<char>, JVal)>::empty());
                assert(v.view_in(*store) == JVal::Obj(Seq::<(Seq<char>, JVal)>::empty()));
            }
            return Ok((v, j + 1));
        }
        let ghost mut pvs: Seq<(Seq<char>, JVal)> = Seq::empty();
        proof {
            match spec_obj_props(s@, j_start) {
                Some((rest, e)) => {
                    assert(pvs + rest =~= rest);
                },
                None => {},
            }
        }
        loop
            invariant
                i < j <= n,
                n == s@.len(),
                store.wf(),
                store.extends(*old(store)),
                store.same_counters(*old(store)),
                pairs@.len() == pvs.len(),
                forall|t: int|
                    0 <= t < pairs@.len() ==> (#[trigger] pairs@[t]).1.wf_for(*store) && (
                    pairs@[t].0@,
                    pairs@[t].1.view_in(*store),
                    ) == pvs[t],
                spec_parse_value(s@, i as int) == (match spec_obj_props(s@, j_start) {
                    Some((props, e)) => Some((JVal::Obj(props), e)),
                    None => None::<(JVal, int)>,
                }),
                spec_obj_props(s@, j_start) == (match spec_obj_props(s@, j as int) {
                    Some((rest, e)) => Some((pvs + rest, e)),
                    None => None::<(Seq<(Seq<char>, JVal)>, int)>,
                }),
            decreases n - j,
        {
            let (key, jk) = match parse_json_string(s, j) {
                Ok(p) => p,
                Err(e) => {
                    return Err(e);
                },
            };
            let jc = skip_ws(s, jk);
            if !(jc < n && s.get_char(jc) == ':') {
                return Err(ReadError::InvalidType);
            }
            let jv = skip_ws(s, jc + 1);
            if jv <= j {
                return Err(ReadError::InvalidType);
            }
            let ghost mid = *store;
            let r0 = parse_json_value(s, jv, store);
            proof {
                crate::store::lemma_extends_trans(*store, mid, *old(store));
                assert forall|t: int| 0 <= t < pairs@.len() implies (
                #[trigger] pairs@[t]).1.wf_for(*store) && (
                pairs@[t].0@,
                pairs@[t].1.view_in(*store),
                ) == pvs[t] by {
                    crate::store::lemma_value_view_extends(mid, *store, pairs@[t].1);
                }
            }
            let (v, j2) = match r0 {
                Ok(p) => p,
                Err(e) => {
                    return Err(e);
                },
            };
            let ghost vv = v.view_in(*store);
            let ghost kv = key@;
            pairs.push((key, v));
            proof {
                pvs = pvs.push((kv, vv));
            }
            let j3 = skip_ws(s, j2);
            if j3 < n && s.get_char(j3) == ',' {
                let j4 = skip_ws(s, j3 + 1);
                if j4 <= j {
                    return Err(ReadError::InvalidType);
                }
                proof {
                    match spec_obj_props(s@, j4 as int) {
                        Some((rest, e)) => {
                            assert(pvs.drop_last() + (seq![(kv, vv)] + rest) =~= pvs + rest);
                        },
                        None => {},
                    }
                }
                j = j4;
            } else if j3 < n && s.get_char(j3) == '}' {
                let ghost mid2 = *store;
                let v2 = store.push_object(&pairs);
                proof {
                    crate::store::lemma_extends_trans(*store, mid2, *old(store));
                    assert(pvs.drop_last() + seq![(kv, vv)] =~= pvs);
                    assert(spec_obj_props(s@, j_start) == Some((pvs, j3 + 1int)));
                    assert(v2.view_in(*store)->Obj_0 =~= pvs);
                    assert(v2.view_in(*store) == JVal::Obj(pvs));
                }
                return Ok((v2, j3 + 1));
            } else {
                return Err(ReadError::InvalidType);
            }
        }
    } else {
        match parse_json_number(s, i) {
            Ok((d, j)) => {
                let v = store.push_num(d);
                Ok((v, j))
            },
            Err(e) => Err(e),
        }
    }
}

/// Read a JSON text into a fresh value store with the given identity,
/// returning the store and the root value. The store's instrumentation
/// counters start at zero.
pub fn parse_json(s: &str, store_id: u64) -> (r: Result<(ValueStore, Value), ReadError>)
    ensures
        match r {
            Ok((store, v)) => spec_parse_json(s@) == Some(v.view_in(store)) && store.wf()
                && v.wf_for(store) && store.spec_store_id() == store_id && store.spec_interns()
                == 0 && store.spec_string_lookups() == 0 && store.spec_token_lookups() == 0,
            Err(e) => spec_parse_json(s@) is None && e == ReadError::InvalidType,
        },
{
    let mut store = ValueStore::new(store_id);
    let n = s.unicode_len();
    let i = skip_ws(s, 0);
    let (v, j) = match parse_json_value(s, i, &mut store) {
        Ok(p) => p,
        Err(e) => {
            return Err(e);
        },
    };
    let j2 = skip_ws(s, j);
    if j2 != n {
        return Err(ReadError::InvalidType);
    }
    Ok((store, v))
}

/// The JSON text of an owned value tree.
pub fn to_json_string(v: &JsonValue) -> (r: String)
    requires
        json_num_wf(*v),
    ensures
        r@ == json_text_of(*v),
{
    let mut out = String::new();
    write_json(v, &mut out);
    proof {
        assert(Seq::<char>::empty() + json_text_of(*v) =~= json_text_of(*v));
    }
    out
}

/// The rendered text depends only on the mathematical value: two trees with
/// one shape render to one text.
pub proof fn lemma_json_text_by_view(a: JsonValue, b: JsonValue)
    requires
        a@ == b@,
    ensures
        json_text_of(a) == json_text_of(b),
    decreases a,
{
    match a {
        JsonValue::Null => {
            match b {
                JsonValue::Null => {},
                _ => {
                    assert(false);
                },
            }
        },
        JsonValue::Boolean(x) => {
            match b {
                JsonValue::Boolean(y) => {},
                _ => {
                    assert(false);
                },
            }
        },
        JsonValue::Number(x) => {
            match b {
                JsonValue::Number(y) => {},
                _ => {
                    assert(false);
                },
            }
        },
        JsonValue::String(x) => {
            match b {
                JsonValue::String(y) => {},
                _ => {
                    assert(false);
                },
            }
        },
        JsonValue::Array(xs) => {
            match b {
                JsonValue::Array(ys) => {
                    assert(xs@.len() == ys@.len()) by {
                        assert(a@->Arr_0.len() == xs@.len());
                        assert(b@->Arr_0.len() == ys@.len());
                        assert(a@->Arr_0.len() == b@->Arr_0.len());
                    }
                    assert forall|k: int| 0 <= k < xs@.len() implies json_text_of(#[trigger] xs@[k])
                        == json_text_of(ys@[k]) by {
                        assert(a@->Arr_0[k] == b@->Arr_0[k]);
                        assert(jv_view(xs@[k]) == jv_view(ys@[k]));
                        lemma_json_text_by_view(xs@[k], ys@[k]);
                    }
                    assert(arr_parts(xs@) =~= arr_parts(ys@));
                },
                _ => {
                    assert(false);
                },
            }
        },
        JsonValue::Object(xs) => {
            match b {
                JsonValue::Object(ys) => {
                    assert(xs@.len() == ys@.len()) by {
                        assert(a@->Obj_0.len() == xs@.len());
                        assert(b@->Obj_0.len() == ys@.len());
                        assert(a@->Obj_0.len() == b@->Obj_0.len());
                    }
                    assert forall|k: int| 0 <= k < xs@.len() implies quoted(#[trigger] xs@[k].key@)
                        + seq![':'] + json_text_of(xs@[k].value) == quoted(ys@[k].key@) + seq![':']
                        + json_text_of(ys@[k].value) by {
                        assert(a@->Obj_0[k] == b@->Obj_0[k]);
                        assert(xs@[k].key@ == ys@[k].key@);
                        assert(jv_view(xs@[k].value) == jv_view(ys@[k].value));
                        lemma_json_text_by_view(xs@[k].value, ys@[k].value);
                    }
                    assert(obj_parts(xs@) =~= obj_parts(ys@));
                },
                _ => {
                    assert(false);
                },
            }
        },
    }
}

} // verus!
