//! The decimal scalar: an exact, arbitrary-precision-looking decimal number
//! that is carried across the module boundary as a string.
//!
//! A value is `(-1)^neg * mantissa / 10^scale`, kept in canonical form so that
//! structural equality coincides with numeric equality.

use vstd::prelude::*;
use vstd::string::*;

verus! {

/// An exact decimal number in canonical form: no trailing zero in the
/// fraction, and zero is represented as `+0 / 10^0`.
#[derive(Clone, Copy, Debug, PartialEq, Eq, Structural)]
pub struct Decimal {
    /// Sign: true for negative values.
    pub neg: bool,
    /// All decimal digits of the value, as one integer.
    pub mantissa: u64,
    /// How many of the mantissa's low digits lie behind the decimal point.
    pub scale: u32,
}

impl View for Decimal {
    type V = Decimal;

    open spec fn view(&self) -> Decimal {
        *self
    }
}

impl DeepView for Decimal {
    type V = Decimal;

    open spec fn deep_view(&self) -> Decimal {
        *self
    }
}

/// `10^k`.
pub open spec fn pow10(k: nat) -> nat
    decreases k,
{
    if k == 0 {
        1
    } else {
        10 * pow10((k - 1) as nat)
    }
}

impl Decimal {
    /// Canonical form: the fraction has no trailing zero, and zero itself has
    /// no sign and no fraction.
    pub open spec fn wf(self) -> bool {
        &&& (self.mantissa == 0 ==> !self.neg && self.scale == 0)
        &&& (self.scale > 0 ==> self.mantissa % 10 != 0)
    }

    /// The value scaled to an integer: `self` denotes `sgn * num / 10^scale`.
    pub open spec fn num(self) -> int {
        if self.neg {
            -(self.mantissa as int)
        } else {
            self.mantissa as int
        }
    }

    pub open spec fn spec_is_zero(self) -> bool {
        self.mantissa == 0
    }

    /// Whether the value is zero.
    pub fn is_zero(&self) -> (r: bool)
        ensures
            r == self.spec_is_zero(),
    {
        self.mantissa == 0
    }

    /// The canonical decimal denoting `n / 10^scale` with the given sign.
    pub open spec fn spec_canon(neg: bool, m: nat, s: nat) -> Decimal
        decreases s,
    {
        if m == 0 {
            Decimal { neg: false, mantissa: 0, scale: 0 }
        } else if s > 0 && m % 10 == 0 {
            Self::spec_canon(neg, m / 10, (s - 1) as nat)
        } else {
            Decimal { neg, mantissa: m as u64, scale: s as u32 }
        }
    }

    /// Build the canonical decimal for `(-1)^neg * mantissa / 10^scale`.
    pub fn from_parts(neg: bool, mantissa: u64, scale: u32) -> (r: Decimal)
        ensures
            r == Self::spec_canon(neg, mantissa as nat, scale as nat),
            r.wf(),
    {
        let mut m = mantissa;
        let mut s = scale;
        while s > 0 && m % 10 == 0 && m > 0
            invariant
                Self::spec_canon(neg, m as nat, s as nat) == Self::spec_canon(
                    neg,
                    mantissa as nat,
                    scale as nat,
                ),
            decreases s,
        {
            m = m / 10;
            s = s - 1;
        }
        proof {
            Self::lemma_canon_wf(neg, mantissa as nat, scale as nat);
        }
        if m == 0 {
            Decimal { neg: false, mantissa: 0, scale: 0 }
        } else {
            Decimal { neg, mantissa: m, scale: s }
        }
    }

    /// The canonical integer decimal denoting `n`.
    pub open spec fn spec_from_i64(n: int) -> Decimal
        recommends
            i64::MIN <= n <= i64::MAX,
    {
        if n < 0 {
            Decimal { neg: true, mantissa: (-n) as u64, scale: 0 }
        } else {
            Decimal { neg: false, mantissa: n as u64, scale: 0 }
        }
    }

    /// The canonical integer decimal for `n`.
    pub fn from_i64(n: i64) -> (r: Decimal)
        ensures
            r == Self::spec_from_i64(n as int),
            r.wf(),
            r.scale == 0,
            r.num() == n as int,
    {
        if n < 0 {
            // -(i64::MIN) does not fit an i64, so negate via a subtraction on u64.
            let m: u64 = (-(n + 1)) as u64;
            Decimal { neg: true, mantissa: m + 1, scale: 0 }
        } else {
            Decimal { neg: false, mantissa: n as u64, scale: 0 }
        }
    }

    pub proof fn lemma_canon_wf(neg: bool, m: nat, s: nat)
        requires
            m <= u64::MAX,
            s <= u32::MAX,
        ensures
            Self::spec_canon(neg, m, s).wf(),
            Self::spec_canon(neg, m, s).mantissa <= m,
        decreases s,
    {
        if m != 0 && s > 0 && m % 10 == 0 {
            Self::lemma_canon_wf(neg, m / 10, (s - 1) as nat);
        }
    }
}

/// Whether `c` is a decimal digit.
pub open spec fn is_digit(c: char) -> bool {
    '0' <= c && c <= '9'
}

/// The numeric value of a digit character.
pub open spec fn digit_val(c: char) -> nat
    recommends
        is_digit(c),
{
    (c as int - '0' as int) as nat
}

/// The digit character for a value below ten.
pub open spec fn digit_char(d: nat) -> char
    recommends
        d < 10,
{
    if d == 0 {
        '0'
    } else if d == 1 {
        '1'
    } else if d == 2 {
        '2'
    } else if d == 3 {
        '3'
    } else if d == 4 {
        '4'
    } else if d == 5 {
        '5'
    } else if d == 6 {
        '6'
    } else if d == 7 {
        '7'
    } else if d == 8 {
        '8'
    } else {
        '9'
    }
}

/// All characters of `s` are decimal digits.
pub open spec fn all_digits(s: Seq<char>) -> bool {
    forall|i: int| 0 <= i < s.len() ==> is_digit(#[trigger] s[i])
}

/// The value of a digit string, most significant digit first.
pub open spec fn digits_val(s: Seq<char>) -> nat
    decreases s.len(),
{
    if s.len() == 0 {
        0
    } else {
        digits_val(s.drop_last()) * 10 + digit_val(s.last())
    }
}

/// The digit string of `n`, without leading zeros (a single zero for zero).
pub open spec fn digits_of(n: nat) -> Seq<char>
    decreases n,
{
    if n < 10 {
        seq![digit_char(n)]
    } else {
        digits_of(n / 10).push(digit_char(n % 10))
    }
}

/// The low `w` digits of `n`, zero-padded to exactly `w` characters.
pub open spec fn padded_digits(n: nat, w: nat) -> Seq<char>
    decreases w,
{
    if w == 0 {
        Seq::empty()
    } else {
        padded_digits(n / 10, (w - 1) as nat).push(digit_char(n % 10))
    }
}

/// `s` without its trailing zero characters.
pub open spec fn strip_zeros(s: Seq<char>) -> Seq<char>
    decreases s.len(),
{
    if s.len() > 0 && s.last() == '0' {
        strip_zeros(s.drop_last())
    } else {
        s
    }
}

/// The first position of a dot at or after `i`, or -1 when there is none.
pub open spec fn find_dot(s: Seq<char>, i: int) -> int
    decreases s.len() - i,
{
    if i < 0 || i >= s.len() {
        -1
    } else if s[i] == '.' {
        i
    } else {
        find_dot(s, i + 1)
    }
}

/// The strict decimal grammar: an optional minus sign, one or more digits,
/// and an optional fraction of one or more digits. The digits must fit the
/// mantissa's machine word. The parsed value is canonicalized.
pub open spec fn spec_parse_decimal(s: Seq<char>) -> Option<Decimal> {
    let neg = s.len() > 0 && s[0] == '-';
    let body = if neg {
        s.skip(1)
    } else {
        s
    };
    let d = find_dot(body, 0);
    if d == -1 {
        if body.len() > 0 && all_digits(body) && digits_val(body) <= u64::MAX {
            Some(Decimal::spec_canon(neg, digits_val(body), 0))
        } else {
            None
        }
    } else {
        let ip = body.take(d);
        let fp = body.skip(d + 1);
        if ip.len() > 0 && fp.len() > 0 && all_digits(ip) && all_digits(fp) {
            let fq = strip_zeros(fp);
            if digits_val(ip + fq) <= u64::MAX && fq.len() <= u32::MAX {
                Some(Decimal::spec_canon(neg, digits_val(ip + fq), fq.len()))
            } else {
                None
            }
        } else {
            None
        }
    }
}

/// The plain rendering of a decimal: integers bare, fractions with all their
/// digits ("10", "-5.678").
pub open spec fn spec_display(d: Decimal) -> Seq<char> {
    let sign: Seq<char> = if d.neg {
        seq!['-']
    } else {
        Seq::empty()
    };
    if d.scale == 0 {
        sign + digits_of(d.mantissa as nat)
    } else {
        let p = pow10(d.scale as nat);
        sign + digits_of(d.mantissa as nat / p) + seq!['.'] + padded_digits(
            d.mantissa as nat % p,
            d.scale as nat,
        )
    }
}

/// The codec rendering of a decimal: like the plain one, but integers carry
/// an explicit ".0" so that the string always shows a fraction part.
pub open spec fn spec_repr(d: Decimal) -> Seq<char> {
    if d.scale == 0 {
        spec_display(d) + seq!['.', '0']
    } else {
        spec_display(d)
    }
}

pub proof fn lemma_pow10_pos(k: nat)
    ensures
        pow10(k) >= 1,
    decreases k,
{
    if k > 0 {
        lemma_pow10_pos((k - 1) as nat);
    }
}

proof fn lemma_digit_char_val(d: nat)
    requires
        d < 10,
    ensures
        is_digit(digit_char(d)),
        digit_val(digit_char(d)) == d,
{
}

pub proof fn lemma_digits_of(n: nat)
    ensures
        digits_of(n).len() >= 1,
        all_digits(digits_of(n)),
        digits_val(digits_of(n)) == n,
    decreases n,
{
    if n < 10 {
        lemma_digit_char_val(n);
        let s = seq![digit_char(n)];
        assert(s.drop_last() =~= Seq::<char>::empty());
        assert(digits_val(Seq::<char>::empty()) == 0);
        assert(s.last() == digit_char(n));
        assert(digits_val(s) == digit_val(digit_char(n)));
    } else {
        lemma_digits_of(n / 10);
        lemma_digit_char_val(n % 10);
        let t = digits_of(n / 10);
        let s = t.push(digit_char(n % 10));
        assert(s.drop_last() =~= t);
        assert(s.last() == digit_char(n % 10));
        assert(digits_val(s) == (n / 10) * 10 + (n % 10));
        assert(n / 10 * 10 + n % 10 == n) by (nonlinear_arith);
        assert forall|i: int| 0 <= i < s.len() implies is_digit(#[trigger] s[i]) by {
            if i < t.len() {
                assert(s[i] == t[i]);
            }
        }
    }
}

pub proof fn lemma_padded_digits(n: nat, w: nat)
    ensures
        padded_digits(n, w).len() == w,
        all_digits(padded_digits(n, w)),
        n < pow10(w) ==> digits_val(padded_digits(n, w)) == n,
    decreases w,
{
    if w > 0 {
        lemma_padded_digits(n / 10, (w - 1) as nat);
        lemma_digit_char_val(n % 10);
        let t = padded_digits(n / 10, (w - 1) as nat);
        let s = t.push(digit_char(n % 10));
        assert(s.drop_last() =~= t);
        assert forall|i: int| 0 <= i < s.len() implies is_digit(#[trigger] s[i]) by {
            if i < t.len() {
                assert(s[i] == t[i]);
            }
        }
        if n < pow10(w) {
            assert(pow10(w) == 10 * pow10((w - 1) as nat));
            assert(n < 10 * pow10((w - 1) as nat) ==> n / 10 < pow10((w - 1) as nat))
                by (nonlinear_arith);
            assert(digits_val(s) == (n / 10) * 10 + (n % 10));
            assert(n / 10 * 10 + n % 10 == n) by (nonlinear_arith);
        }
    }
}

pub proof fn lemma_digits_val_concat(a: Seq<char>, b: Seq<char>)
    ensures
        digits_val(a + b) == digits_val(a) * pow10(b.len()) + digits_val(b),
    decreases b.len(),
{
    if b.len() == 0 {
        assert(a + b =~= a);
        assert(digits_val(a) * 1 == digits_val(a)) by (nonlinear_arith);
    } else {
        lemma_digits_val_concat(a, b.drop_last());
        let s = a + b;
        assert(s.drop_last() =~= a + b.drop_last());
        assert(s.last() == b.last());
        let x = digits_val(a);
        let p = pow10((b.len() - 1) as nat);
        let y = digits_val(b.drop_last());
        let lv = digit_val(b.last());
        assert(pow10(b.len()) == 10 * p);
        assert((x * p + y) * 10 + lv == x * (10 * p) + (y * 10 + lv)) by (nonlinear_arith);
    }
}

pub proof fn lemma_digits_val_prefix(a: Seq<char>, b: Seq<char>)
    ensures
        digits_val(a + b) >= digits_val(a),
{
    lemma_digits_val_concat(a, b);
    lemma_pow10_pos(b.len());
    let x = digits_val(a);
    let p = pow10(b.len());
    assert(p >= 1 ==> x * p >= x) by (nonlinear_arith);
}

proof fn lemma_find_dot_digits(s: Seq<char>, i: int)
    requires
        all_digits(s),
        0 <= i,
    ensures
        find_dot(s, i) == -1,
    decreases s.len() - i,
{
    if i < s.len() {
        assert(is_digit(s[i]));
        lemma_find_dot_digits(s, i + 1);
    }
}

proof fn lemma_find_dot_prefix(a: Seq<char>, rest: Seq<char>, i: int)
    requires
        all_digits(a),
        0 <= i <= a.len(),
        rest.len() > 0,
        rest[0] == '.',
    ensures
        find_dot(a + rest, i) == a.len(),
    decreases a.len() - i,
{
    let s = a + rest;
    if i < a.len() {
        assert(s[i] == a[i]);
        assert(is_digit(a[i]));
        lemma_find_dot_prefix(a, rest, i + 1);
    } else {
        assert(s[i] == rest[0]);
    }
}

proof fn lemma_strip_zeros_no_zero_tail(s: Seq<char>)
    requires
        s.len() > 0,
        s.last() != '0',
    ensures
        strip_zeros(s) == s,
{
}

proof fn lemma_canon_of_wf(d: Decimal)
    requires
        d.wf(),
    ensures
        Decimal::spec_canon(d.neg, d.mantissa as nat, d.scale as nat) == d,
{
}

proof fn lemma_display_round_trip(d: Decimal)
    requires
        d.wf(),
    ensures
        spec_parse_decimal(spec_display(d)) == Some(d),
{
    let m = d.mantissa as nat;
    let sign: Seq<char> = if d.neg {
        seq!['-']
    } else {
        Seq::empty()
    };
    lemma_canon_of_wf(d);
    if d.scale == 0 {
        lemma_digits_of(m);
        let ds = digits_of(m);
        let s = spec_display(d);
        assert(s == sign + ds);
        if d.neg {
            assert(s[0] == '-');
            assert(s.skip(1) =~= ds);
        } else {
            assert(s =~= ds);
            assert(is_digit(s[0]));
        }
        lemma_find_dot_digits(ds, 0);
    } else {
        let sc = d.scale as nat;
        let p = pow10(sc);
        lemma_pow10_pos(sc);
        let ip = m / p;
        let fp = m % p;
        lemma_digits_of(ip);
        lemma_padded_digits(fp, sc);
        let a = digits_of(ip);
        let pd = padded_digits(fp, sc);
        let rest = seq!['.'] + pd;
        let s = spec_display(d);
        assert(s == sign + a + seq!['.'] + pd);
        assert(sign + a + seq!['.'] + pd =~= sign + (a + rest));
        if d.neg {
            assert(s[0] == '-');
            assert(s.skip(1) =~= a + rest);
        } else {
            assert(s =~= a + rest);
            assert((a + rest)[0] == a[0]);
            assert(is_digit(a[0]));
        }
        let body = a + rest;
        lemma_find_dot_prefix(a, rest, 0);
        let dp = a.len() as int;
        assert(body.take(dp) =~= a);
        assert(body.skip(dp + 1) =~= pd);
        // The last fraction digit is the mantissa's last digit, which the
        // canonical form keeps nonzero, so stripping zeros changes nothing.
        assert(pd.last() == digit_char(fp % 10));
        lemma_pow10_pos((sc - 1) as nat);
        assert(p == 10 * pow10((sc - 1) as nat));
        vstd::arithmetic::div_mod::lemma_mod_mod(m as int, 10, pow10((sc - 1) as nat) as int);
        assert(fp % 10 == m % 10);
        lemma_digit_char_val(fp % 10);
        assert(pd.last() != '0');
        lemma_strip_zeros_no_zero_tail(pd);
        lemma_digits_val_concat(a, pd);
        vstd::arithmetic::div_mod::lemma_remainder_upper(m as int, p as int);
        assert(fp < p);
        assert(digits_val(a + pd) == ip * p + fp);
        vstd::arithmetic::div_mod::lemma_fundamental_div_mod(m as int, p as int);
        assert(ip * p + fp == m);
    }
}

proof fn lemma_repr_round_trip(d: Decimal)
    requires
        d.wf(),
    ensures
        spec_parse_decimal(spec_repr(d)) == Some(d),
{
    if d.scale != 0 {
        lemma_display_round_trip(d);
    } else {
        let m = d.mantissa as nat;
        let sign: Seq<char> = if d.neg {
            seq!['-']
        } else {
            Seq::empty()
        };
        lemma_canon_of_wf(d);
        lemma_digits_of(m);
        let a = digits_of(m);
        let rest = seq!['.', '0'];
        let s = spec_repr(d);
        assert(s == (sign + a) + seq!['.', '0']);
        assert((sign + a) + seq!['.', '0'] =~= sign + (a + rest));
        if d.neg {
            assert(s[0] == '-');
            assert(s.skip(1) =~= a + rest);
        } else {
            assert(s =~= a + rest);
            assert((a + rest)[0] == a[0]);
            assert(is_digit(a[0]));
        }
        let body = a + rest;
        assert(rest[0] == '.');
        lemma_find_dot_prefix(a, rest, 0);
        let dp = a.len() as int;
        assert(body.take(dp) =~= a);
        let fp = body.skip(dp + 1);
        assert(fp =~= seq!['0']);
        assert(is_digit('0'));
        assert(fp.last() == '0');
        assert(fp.drop_last() =~= Seq::<char>::empty());
        assert(strip_zeros(Seq::<char>::empty()) == Seq::<char>::empty());
        assert(strip_zeros(fp) == Seq::<char>::empty());
        assert(a + Seq::<char>::empty() =~= a);
    }
}

fn push_digit(d: u64, out: &mut String)
    requires
        d < 10,
    ensures
        final(out)@ == old(out)@ + seq![digit_char(d as nat)],
{
    proof {
        reveal_strlit("0");
        reveal_strlit("1");
        reveal_strlit("2");
        reveal_strlit("3");
        reveal_strlit("4");
        reveal_strlit("5");
        reveal_strlit("6");
        reveal_strlit("7");
        reveal_strlit("8");
        reveal_strlit("9");
    }
    if d == 0 {
        out.append("0");
        proof {
            assert("0"@ =~= seq![digit_char(d as nat)]);
        }
    } else if d == 1 {
        out.append("1");
        proof {
            assert("1"@ =~= seq![digit_char(d as nat)]);
        }
    } else if d == 2 {
        out.append("2");
        proof {
            assert("2"@ =~= seq![digit_char(d as nat)]);
        }
    } else if d == 3 {
        out.append("3");
        proof {
            assert("3"@ =~= seq![digit_char(d as nat)]);
        }
    } else if d == 4 {
        out.append("4");
        proof {
            assert("4"@ =~= seq![digit_char(d as nat)]);
        }
    } else if d == 5 {
        out.append("5");
        proof {
            assert("5"@ =~= seq![digit_char(d as nat)]);
        }
    } else if d == 6 {
        out.append("6");
        proof {
            assert("6"@ =~= seq![digit_char(d as nat)]);
        }
    } else if d == 7 {
        out.append("7");
        proof {
            assert("7"@ =~= seq![digit_char(d as nat)]);
        }
    } else if d == 8 {
        out.append("8");
        proof {
            assert("8"@ =~= seq![digit_char(d as nat)]);
        }
    } else {
        out.append("9");
        proof {
            assert("9"@ =~= seq![digit_char(d as nat)]);
        }
    }
}

fn push_digits(n: u64, out: &mut String)
    ensures
        final(out)@ == old(out)@ + digits_of(n as nat),
    decreases n,
{
    if n < 10 {
        push_digit(n, out);
    } else {
        push_digits(n / 10, out);
        push_digit(n % 10, out);
        proof {
            assert(old(out)@ + digits_of(n as nat / 10) + seq![digit_char(n as nat % 10)]
                =~= old(out)@ + digits_of(n as nat));
        }
    }
}

fn push_padded(n: u64, w: u32, out: &mut String)
    ensures
        final(out)@ == old(out)@ + padded_digits(n as nat, w as nat),
    decreases w,
{
    if w == 0 {
        proof {
            assert(old(out)@ + padded_digits(n as nat, 0) =~= old(out)@);
        }
    } else {
        push_padded(n / 10, w - 1, out);
        push_digit(n % 10, out);
        proof {
            assert(old(out)@ + padded_digits(n as nat / 10, (w - 1) as nat) + seq![
                digit_char(n as nat % 10),
            ] =~= old(out)@ + padded_digits(n as nat, w as nat));
        }
    }
}

proof fn lemma_pow10_increases(i: nat, k: nat)
    requires
        i <= k,
    ensures
        pow10(i) <= pow10(k),
    decreases k,
{
    if i < k {
        lemma_pow10_increases(i, (k - 1) as nat);
        lemma_pow10_pos((k - 1) as nat);
    }
}

fn pow10_u64(k: u32) -> (r: Option<u64>)
    ensures
        match r {
            Some(p) => p == pow10(k as nat),
            None => pow10(k as nat) > u64::MAX,
        },
{
    let mut acc: u64 = 1;
    let mut i: u32 = 0;
    while i < k
        invariant
            i <= k,
            acc == pow10(i as nat),
        decreases k - i,
    {
        if acc > u64::MAX / 10 {
            proof {
                lemma_pow10_increases((i + 1) as nat, k as nat);
            }
            return None;
        }
        acc = acc * 10;
        i = i + 1;
    }
    Some(acc)
}

impl Decimal {
    /// The plain rendering: integers bare ("10"), fractions in full
    /// ("-5.678", "0.05").
    pub fn to_decimal_string(&self) -> (r: String)
        requires
            self.wf(),
        ensures
            r@ == spec_display(*self),
    {
        let mut out = String::new();
        if self.neg {
            proof {
                reveal_strlit("-");
            }
            out.append("-");
            proof {
                assert(out@ =~= (if self.neg { seq!['-'] } else { Seq::<char>::empty() }));
            }
        } else {
            proof {
                assert(out@ =~= (if self.neg { seq!['-'] } else { Seq::<char>::empty() }));
            }
        }
        let ghost sign = out@;
        if self.scale == 0 {
            push_digits(self.mantissa, &mut out);
            proof {
                assert(out@ =~= spec_display(*self));
            }
        } else {
            match pow10_u64(self.scale) {
                Some(p) => {
                    proof {
                        lemma_pow10_pos(self.scale as nat);
                    }
                    push_digits(self.mantissa / p, &mut out);
                    proof {
                        reveal_strlit(".");
                    }
                    out.append(".");
                    push_padded(self.mantissa % p, self.scale, &mut out);
                    proof {
                        assert("."@ =~= seq!['.']);
                        assert(out@ =~= spec_display(*self));
                    }
                },
                None => {
                    // The whole mantissa lies behind the point: the integer
                    // part is zero and the fraction is the mantissa itself.
                    proof {
                        let p = pow10(self.scale as nat);
                        lemma_pow10_pos(self.scale as nat);
                        vstd::arithmetic::div_mod::lemma_basic_div(self.mantissa as int, p as int);
                        vstd::arithmetic::div_mod::lemma_small_mod(self.mantissa as nat, p);
                    }
                    push_digit(0, &mut out);
                    proof {
                        reveal_strlit(".");
                    }
                    out.append(".");
                    push_padded(self.mantissa, self.scale, &mut out);
                    proof {
                        assert("."@ =~= seq!['.']);
                        assert(digits_of(0) =~= seq![digit_char(0)]);
                        assert(out@ =~= spec_display(*self));
                    }
                },
            }
        }
        out
    }

    /// The codec rendering: like the plain one, but integers carry ".0".
    pub fn to_repr_string(&self) -> (r: String)
        requires
            self.wf(),
        ensures
            r@ == spec_repr(*self),
    {
        let mut out = self.to_decimal_string();
        if self.scale == 0 {
            proof {
                reveal_strlit(".0");
            }
            out.append(".0");
            proof {
                assert(".0"@ =~= seq!['.', '0']);
                assert(out@ =~= spec_repr(*self));
            }
        }
        out
    }
}

proof fn lemma_find_dot_props(s: Seq<char>, i: int)
    requires
        0 <= i,
    ensures
        find_dot(s, i) == -1 ==> forall|j: int| i <= j < s.len() ==> s[j] != '.',
        find_dot(s, i) != -1 ==> i <= find_dot(s, i) < s.len() && s[find_dot(s, i)] == '.' && forall|
            j: int,
        | i <= j < find_dot(s, i) ==> s[j] != '.',
    decreases s.len() - i,
{
    if i < s.len() && s[i] != '.' {
        lemma_find_dot_props(s, i + 1);
    }
}

proof fn lemma_strip_zeros_take(s: Seq<char>, k: int)
    requires
        0 <= k <= s.len(),
        forall|j: int| k <= j < s.len() ==> s[j] == '0',
        k > 0 ==> s[k - 1] != '0',
    ensures
        strip_zeros(s) == s.take(k),
    decreases s.len(),
{
    if s.len() > k {
        assert(s.last() == '0');
        let t = s.drop_last();
        lemma_strip_zeros_take(t, k);
        assert(t.take(k) =~= s.take(k));
    } else {
        if k > 0 {
            assert(s.last() != '0');
        }
        assert(s.take(k) =~= s);
    }
}

/// Accumulate the digits of `s[from..to]` onto a value already holding the
/// digits of `pre`, reporting overflow of the machine word as `None`.
fn digits_value_loop(
    s: &str,
    from: usize,
    to: usize,
    init: u64,
    Ghost(pre): Ghost<Seq<char>>,
) -> (r: Option<u64>)
    requires
        from <= to <= s@.len(),
        forall|j: int| from <= j < to ==> is_digit(#[trigger] s@[j]),
        init == digits_val(pre),
    ensures
        ({
            let whole = pre + s@.subrange(from as int, to as int);
            match r {
                Some(m) => m == digits_val(whole),
                None => digits_val(whole) > u64::MAX,
            }
        }),
{
    let ghost whole = pre + s@.subrange(from as int, to as int);
    let mut mant: u64 = init;
    let mut i: usize = from;
    while i < to
        invariant
            from <= i <= to <= s@.len(),
            forall|j: int| from <= j < to ==> is_digit(#[trigger] s@[j]),
            mant == digits_val(pre + s@.subrange(from as int, i as int)),
            whole == pre + s@.subrange(from as int, to as int),
        decreases to - i,
    {
        let c = s.get_char(i);
        assert(is_digit(c));
        let dv: u64 = (c as u32 - '0' as u32) as u64;
        let ghost cur = pre + s@.subrange(from as int, i as int);
        proof {
            assert(cur.push(c) =~= pre + s@.subrange(from as int, i + 1 as int));
            assert(cur.push(c).drop_last() =~= cur);
            assert(cur.push(c).last() == c);
            assert(digits_val(cur.push(c)) == digits_val(cur) * 10 + digit_val(c));
            assert(dv == digit_val(c));
        }
        if mant > (u64::MAX - dv) / 10 {
            proof {
                let rest = s@.subrange(i + 1 as int, to as int);
                assert(cur.push(c) + rest =~= whole);
                lemma_digits_val_prefix(cur.push(c), rest);
            }
            return None;
        }
        mant = mant * 10 + dv;
        i = i + 1;
    }
    proof {
        assert(pre + s@.subrange(from as int, to as int) =~= whole);
    }
    Some(mant)
}

/// Parse a decimal string under the strict grammar: an optional minus sign,
/// one or more digits, and an optional fraction of one or more digits.
#[verifier::rlimit(100)]
pub fn parse_decimal(s: &str) -> (r: Option<Decimal>)
    ensures
        r == spec_parse_decimal(s@),
        r is Some ==> r.unwrap().wf(),
{
    let ghost sv = s@;
    let n = s.unicode_len();
    let neg = n > 0 && s.get_char(0) == '-';
    let start: usize = if neg {
        1
    } else {
        0
    };
    let ghost body = if neg {
        sv.skip(1)
    } else {
        sv
    };
    assert(body.len() == n - start);
    assert(forall|j: int| 0 <= j < body.len() ==> body[j] == sv[j + start]);
    if n == start {
        return None;
    }
    // Shape scan: locate the single dot and check every other character is
    // a digit.
    let mut dot: usize = n;  // `n` means: no dot seen
    let mut i: usize = start;
    while i < n
        invariant
            sv == s@,
            start <= i <= n,
            n == sv.len(),
            start <= 1,
            n > start,
            neg == (sv.len() > 0 && sv[0] == '-'),
            body == (if neg { sv.skip(1) } else { sv }),
            body.len() == n - start,
            neg ==> start == 1,
            !neg ==> start == 0,
            dot == n || (start < dot < i && dot < n - 1 && sv[dot as int] == '.'),
            forall|j: int|
                start <= j < i && j != dot ==> is_digit(#[trigger] sv[j]) && sv[j] != '.',
        decreases n - i,
    {
        let c = s.get_char(i);
        if c == '.' {
            proof {
                lemma_find_dot_props(body, 0);
            }
            if dot < n {
                // a second dot: the fraction cannot be all digits
                proof {
                    let d = find_dot(body, 0);
                    assert(body[dot - start] == '.');
                    assert(d != -1);
                    assert(d == dot - start) by {
                        if d < dot - start {
                            assert(sv[d + start] == '.');
                        }
                    }
                    let fp = body.skip(d + 1);
                    assert(fp[i - start - d - 1] == sv[i as int] );
                    assert(!is_digit('.'));
                }
                return None;
            }
            if i == start {
                // empty integer part
                proof {
                    let d = find_dot(body, 0);
                    assert(body[0] == '.');
                    assert(d == 0);
                    assert(body.take(0).len() == 0);
                }
                return None;
            }
            if i == n - 1 {
                // empty fraction part
                proof {
                    let d = find_dot(body, 0);
                    assert(body[i - start] == '.');
                    assert(d != -1);
                    assert(d == i - start) by {
                        if d < i - start {
                            assert(sv[d + start] == '.');
                        }
                    }
                    assert(body.skip(d + 1).len() == 0);
                }
                return None;
            }
            dot = i;
        } else if c >= '0' && c <= '9' {
            // a digit: fine
        } else {
            // neither a digit nor the first dot: no branch of the grammar
            // accepts the string
            proof {
                lemma_find_dot_props(body, 0);
                let d = find_dot(body, 0);
                let ib = i - start;
                assert(body[ib] == sv[i as int]);
                assert(!is_digit(body[ib]) && body[ib] != '.');
                if d == -1 {
                    assert(!all_digits(body));
                } else {
                    if d < ib {
                        // the bad character lies in the fraction
                        assert(dot == n ==> body[d] != '.');
                        assert(dot < n ==> d == dot - start) by {
                            if dot < n && d < dot - start {
                                assert(sv[d + start] == '.');
                            }
                        }
                        let fp = body.skip(d + 1);
                        assert(fp[ib - d - 1] == body[ib]);
                        assert(!all_digits(fp));
                    } else {
                        // the bad character lies in the integer part
                        assert(d > ib);
                        let ip = body.take(d);
                        assert(ip[ib] == body[ib]);
                        assert(!all_digits(ip));
                    }
                }
            }
            return None;
        }
        i = i + 1;
    }
    proof {
        lemma_find_dot_props(body, 0);
    }
    if dot == n {
        // integer: every character of the body is a digit
        assert(all_digits(body));
        assert(find_dot(body, 0) == -1) by {
            if find_dot(body, 0) != -1 {
                assert(body[find_dot(body, 0)] != '.');
            }
        }
        let r = digits_value_loop(s, start, n, 0, Ghost(Seq::empty()));
        proof {
            assert(digits_val(Seq::<char>::empty()) == 0);
            assert(Seq::empty() + sv.subrange(start as int, n as int) =~= body);
        }
        match r {
            Some(m) => {
                proof {
                    Decimal::lemma_canon_wf(neg, m as nat, 0);
                }
                Some(Decimal::from_parts(neg, m, 0))
            },
            None => None,
        }
    } else {
        let ghost d = find_dot(body, 0);
        proof {
            assert(body[dot - start] == '.');
            assert(d != -1);
            assert(d == dot - start) by {
                if d < dot - start {
                    assert(sv[d + start] == '.');
                }
            }
        }
        let ghost ip = body.take(d);
        let ghost fp = body.skip(d + 1);
        proof {
            assert(ip.len() > 0);
            assert(fp.len() > 0);
            assert(forall|j: int| 0 <= j < ip.len() ==> ip[j] == sv[j + start]);
            assert(forall|j: int| 0 <= j < fp.len() ==> fp[j] == sv[j + dot + 1]);
            assert(all_digits(ip));
            assert(all_digits(fp));
        }
        // Trim the trailing zeros of the fraction.
        let mut end: usize = n;
        while end > dot + 1 && s.get_char(end - 1) == '0'
            invariant
                sv == s@,
                dot + 1 <= end <= n,
                n == sv.len(),
                dot < n - 1,
                sv[dot as int] == '.',
                forall|j: int| end <= j < n ==> sv[j] == '0',
            decreases end,
        {
            end = end - 1;
        }
        let ghost fq = strip_zeros(fp);
        proof {
            let k = end - dot - 1;
            assert(forall|j: int| k <= j < fp.len() ==> fp[j] == '0');
            if k > 0 {
                assert(fp[k - 1] == sv[end - 1]);
            }
            lemma_strip_zeros_take(fp, k);
            assert(fq =~= sv.subrange(dot + 1 as int, end as int));
        }
        if end == dot + 1 {
            // the fraction was all zeros: the value is an integer
            let r = digits_value_loop(s, start, dot, 0, Ghost(Seq::empty()));
            proof {
                assert(digits_val(Seq::<char>::empty()) == 0);
                assert(Seq::empty() + sv.subrange(start as int, dot as int) =~= ip);
                assert(ip + fq =~= ip);
            }
            match r {
                Some(m) => {
                    proof {
                        Decimal::lemma_canon_wf(neg, m as nat, 0);
                    }
                    Some(Decimal::from_parts(neg, m, 0))
                },
                None => None,
            }
        } else {
            let r1 = digits_value_loop(s, start, dot, 0, Ghost(Seq::empty()));
            proof {
                assert(digits_val(Seq::<char>::empty()) == 0);
                assert(Seq::empty() + sv.subrange(start as int, dot as int) =~= ip);
            }
            let m1 = match r1 {
                Some(m1) => m1,
                None => {
                    proof {
                        lemma_digits_val_prefix(ip, fq);
                    }
                    return None;
                },
            };
            if end - dot - 1 > u32::MAX as usize {
                return None;
            }
            let r2 = digits_value_loop(s, dot + 1, end, m1, Ghost(ip));
            proof {
                assert(ip + sv.subrange(dot + 1 as int, end as int) =~= ip + fq);
            }
            match r2 {
                Some(m) => {
                    proof {
                        Decimal::lemma_canon_wf(neg, m as nat, (end - dot - 1) as nat);
                    }
                    Some(Decimal::from_parts(neg, m, (end - dot - 1) as u32))
                },
                None => None,
            }
        }
    }
}

/// Round trip of the decimal codec: parsing either rendering of a canonical
/// decimal gives back exactly the same value, even though the two renderings
/// of an integer differ as strings.
pub proof fn lemma_decimal_round_trip(d: Decimal)
    requires
        d.wf(),
    ensures
        spec_parse_decimal(spec_repr(d)) == Some(d),
        spec_parse_decimal(spec_display(d)) == Some(d),
{
    lemma_display_round_trip(d);
    lemma_repr_round_trip(d);
}

} // verus!
