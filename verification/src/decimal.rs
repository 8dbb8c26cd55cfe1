//! An exact decimal value type.
//!
//! Every price, quantity and balance crosses the wire as a decimal string.
//! A `Decimal` stores that string verbatim together with its magnitude as a
//! pair of a scaled integer and a fractional-digit count, so that the wire
//! form is reproduced byte for byte and two textual forms of one number
//! compare equal.  Values produced by arithmetic render a fresh canonical
//! string instead: the exact result rounded toward positive infinity at ten
//! fractional digits.

use vstd::arithmetic::div_mod::lemma_fundamental_div_mod;
use vstd::arithmetic::div_mod::lemma_fundamental_div_mod_converse;
use vstd::prelude::*;

verus! {

// ---------------------------------------------------------------------------
// Powers of ten
// ---------------------------------------------------------------------------

pub open spec fn pow10(e: nat) -> nat
    decreases e,
{
    if e == 0 {
        1
    } else {
        10 * pow10((e - 1) as nat)
    }
}

pub proof fn lemma_pow10_pos(e: nat)
    ensures
        pow10(e) >= 1,
    decreases e,
{
    if e > 0 {
        lemma_pow10_pos((e - 1) as nat);
    }
}

pub proof fn lemma_pow10_adds(a: nat, b: nat)
    ensures
        pow10(a + b) == pow10(a) * pow10(b),
    decreases a,
{
    if a == 0 {
    } else {
        lemma_pow10_adds((a - 1) as nat, b);
        assert((a + b - 1) as nat == (a - 1) as nat + b);
        assert(10 * (pow10((a - 1) as nat) * pow10(b)) == (10 * pow10((a - 1) as nat)) * pow10(b))
            by (nonlinear_arith);
    }
}

pub proof fn lemma_pow10_mono(a: nat, b: nat)
    requires
        a <= b,
    ensures
        pow10(a) <= pow10(b),
    decreases b,
{
    if a < b {
        lemma_pow10_mono(a, (b - 1) as nat);
        lemma_pow10_pos((b - 1) as nat);
    }
}

/// Concrete values of the powers of ten this module computes with.
pub proof fn lemma_pow10_values()
    ensures
        pow10(1) == 10,
        pow10(10) == 0x2540be400,
        pow10(18) == 1_000_000_000_000_000_000,
        pow10(19) == 10_000_000_000_000_000_000,
        pow10(28) == pow10(18) * pow10(10),
        pow10(28) == 10_000_000_000_000_000_000_000_000_000,
        pow10(38) == pow10(28) * pow10(10),
        pow10(38) == 100_000_000_000_000_000_000_000_000_000_000_000_000,
        pow10(38) < u128::MAX,
{
    assert(pow10(0) == 1);
    assert(pow10(1) == 10);
    assert(pow10(2) == 100);
    assert(pow10(3) == 1000);
    assert(pow10(4) == 10000);
    assert(pow10(5) == 100000);
    assert(pow10(6) == 1000000);
    assert(pow10(7) == 10000000);
    assert(pow10(8) == 100000000);
    assert(pow10(9) == 1000000000);
    assert(pow10(10) == 10000000000);
    assert(pow10(11) == 100000000000);
    assert(pow10(12) == 1000000000000);
    assert(pow10(13) == 10000000000000);
    assert(pow10(14) == 100000000000000);
    assert(pow10(15) == 1000000000000000);
    assert(pow10(16) == 10000000000000000);
    assert(pow10(17) == 100000000000000000);
    assert(pow10(18) == 1000000000000000000);
    assert(pow10(19) == 10000000000000000000);
    lemma_pow10_adds(18, 10);
    lemma_pow10_adds(28, 10);
    assert(pow10(28) == 1000000000000000000 * 10000000000);
    assert(pow10(38) == pow10(28) * 10000000000);
}

/// Executable power of ten.
pub fn pow10_u128(e: u32) -> (r: u128)
    requires
        e <= 38,
    ensures
        r == pow10(e as nat),
{
    let mut r: u128 = 1;
    let mut i: u32 = 0;
    while i < e
        invariant
            i <= e,
            e <= 38,
            r == pow10(i as nat),
        decreases e - i,
    {
        proof {
            lemma_pow10_values();
            lemma_pow10_mono((i + 1) as nat, 38);
            assert(pow10((i + 1) as nat) == 10 * pow10(i as nat));
        }
        r = r * 10;
        i = i + 1;
    }
    r
}

// ---------------------------------------------------------------------------
// Digit sequences
// ---------------------------------------------------------------------------

pub open spec fn is_digit(c: char) -> bool {
    '0' <= c && c <= '9'
}

pub open spec fn digit_val(c: char) -> nat {
    (c as u32 - '0' as u32) as nat
}

pub open spec fn all_digits(s: Seq<char>) -> bool {
    forall|i: int| 0 <= i < s.len() ==> is_digit(#[trigger] s[i])
}

/// The number denoted by a digit sequence, most significant digit first.
pub open spec fn digits_val(s: Seq<char>) -> nat
    decreases s.len(),
{
    if s.len() == 0 {
        0
    } else {
        digits_val(s.drop_last()) * 10 + digit_val(s.last())
    }
}

pub proof fn lemma_digits_val_concat(a: Seq<char>, b: Seq<char>)
    ensures
        digits_val(a + b) == digits_val(a) * pow10(b.len()) + digits_val(b),
    decreases b.len(),
{
    if b.len() == 0 {
        assert(a + b =~= a);
        assert(pow10(0) == 1);
        assert(digits_val(b) == 0);
        assert(digits_val(a) * pow10(b.len()) == digits_val(a)) by (nonlinear_arith)
            requires pow10(b.len()) == 1,
        ;
    } else {
        lemma_digits_val_concat(a, b.drop_last());
        assert((a + b).drop_last() =~= a + b.drop_last());
        assert((a + b).last() == b.last());
        let p = pow10(b.drop_last().len());
        assert(digits_val(a + b) == (digits_val(a) * p + digits_val(b.drop_last())) * 10 + digit_val(
            b.last(),
        ));
        assert((digits_val(a) * p + digits_val(b.drop_last())) * 10 == digits_val(a) * (p * 10)
            + digits_val(b.drop_last()) * 10) by (nonlinear_arith);
        assert(pow10(b.len()) == 10 * p) by {
            lemma_pow10_adds(b.drop_last().len(), 1);
            assert(pow10(1) == 10) by { assert(pow10(0) == 1); };
            assert(b.len() == b.drop_last().len() + 1);
        };
        assert(digits_val(a) * (p * 10) == digits_val(a) * pow10(b.len())) by (nonlinear_arith)
            requires p * 10 == pow10(b.len()),
        ;
        assert(digits_val(b) == digits_val(b.drop_last()) * 10 + digit_val(b.last()));
        assert(digits_val(a + b) == digits_val(a) * pow10(b.len()) + digits_val(b));
    }
}

pub open spec fn zero_chars(n: nat) -> Seq<char> {
    Seq::new(n, |i: int| '0')
}

pub proof fn lemma_digits_val_zeros(n: nat)
    ensures
        digits_val(zero_chars(n)) == 0,
        all_digits(zero_chars(n)),
    decreases n,
{
    if n > 0 {
        lemma_digits_val_zeros((n - 1) as nat);
        assert(zero_chars(n).drop_last() =~= zero_chars((n - 1) as nat));
    }
}

pub proof fn lemma_digits_val_last(s: Seq<char>)
    requires
        s.len() > 0,
        is_digit(s.last()),
    ensures
        digits_val(s) % 10 == digit_val(s.last()),
{
    let x = digits_val(s.drop_last());
    let d = digit_val(s.last());
    assert((x * 10 + d) % 10 == d) by (nonlinear_arith)
        requires d < 10,
    ;
}

// ---------------------------------------------------------------------------
// Decimal numerals
// ---------------------------------------------------------------------------

/// A numeral is an optional minus sign, one or more digits, and optionally a
/// dot followed by one or more digits.  Exponents are not supported.
pub open spec fn is_neg_numeral(s: Seq<char>) -> bool {
    s.len() > 0 && s[0] == '-'
}

pub open spec fn numeral_body(s: Seq<char>) -> Seq<char> {
    if is_neg_numeral(s) {
        s.subrange(1, s.len() as int)
    } else {
        s
    }
}

/// Index of the first dot, or the length if there is none.
pub open spec fn dot_pos(b: Seq<char>) -> int
    decreases b.len(),
{
    if b.len() == 0 {
        0
    } else if b[0] == '.' {
        0
    } else {
        1 + dot_pos(b.subrange(1, b.len() as int))
    }
}

pub proof fn lemma_dot_pos(b: Seq<char>)
    ensures
        0 <= dot_pos(b) <= b.len(),
        forall|j: int| 0 <= j < dot_pos(b) ==> b[j] != '.',
        dot_pos(b) < b.len() ==> b[dot_pos(b)] == '.',
    decreases b.len(),
{
    if b.len() > 0 && b[0] != '.' {
        let t = b.subrange(1, b.len() as int);
        lemma_dot_pos(t);
        assert forall|j: int| 0 <= j < dot_pos(b) implies b[j] != '.' by {
            if j >= 1 {
                assert(b[j] == t[j - 1]);
            }
        }
        if dot_pos(b) < b.len() {
            assert(b[dot_pos(b)] == t[dot_pos(b) - 1]);
        }
    }
}

/// If a dot stands at `k` and none stands before it, `k` is the dot position.
pub proof fn lemma_dot_pos_at(b: Seq<char>, k: int)
    requires
        0 <= k <= b.len(),
        forall|j: int| 0 <= j < k ==> b[j] != '.',
        k < b.len() ==> b[k] == '.',
        k == b.len() ==> forall|j: int| 0 <= j < b.len() ==> b[j] != '.',
    ensures
        dot_pos(b) == k,
{
    lemma_dot_pos(b);
    if dot_pos(b) < k {
        assert(b[dot_pos(b)] == '.');
    } else if dot_pos(b) > k {
        assert(k < b.len());
        assert(b[k] != '.');
    }
}

pub open spec fn int_digits(b: Seq<char>) -> Seq<char> {
    b.take(dot_pos(b))
}

pub open spec fn frac_digits(b: Seq<char>) -> Seq<char> {
    if dot_pos(b) == b.len() {
        Seq::empty()
    } else {
        b.subrange(dot_pos(b) + 1, b.len() as int)
    }
}

pub open spec fn valid_body(b: Seq<char>) -> bool {
    &&& int_digits(b).len() > 0
    &&& all_digits(int_digits(b))
    &&& (dot_pos(b) < b.len() ==> frac_digits(b).len() > 0 && all_digits(frac_digits(b)))
}

pub open spec fn valid_numeral(s: Seq<char>) -> bool {
    valid_body(numeral_body(s))
}

/// Magnitude of a numeral before normalization: the value of all its digits
/// run together, and the count of fractional digits.
pub open spec fn raw_units(s: Seq<char>) -> nat {
    digits_val(int_digits(numeral_body(s)) + frac_digits(numeral_body(s)))
}

pub open spec fn raw_scale(s: Seq<char>) -> nat {
    frac_digits(numeral_body(s)).len()
}

// ---------------------------------------------------------------------------
// Normalization: dropping trailing fractional zeros
// ---------------------------------------------------------------------------

pub open spec fn strip_units(u: nat, s: nat) -> nat
    decreases s,
{
    if s > 0 && u % 10 == 0 {
        strip_units(u / 10, (s - 1) as nat)
    } else {
        u
    }
}

pub open spec fn strip_scale(u: nat, s: nat) -> nat
    decreases s,
{
    if s > 0 && u % 10 == 0 {
        strip_scale(u / 10, (s - 1) as nat)
    } else {
        s
    }
}

pub proof fn lemma_strip_pow(u: nat, z: nat, s: nat)
    requires
        z <= s,
    ensures
        strip_units(u * pow10(z), s) == strip_units(u, (s - z) as nat),
        strip_scale(u * pow10(z), s) == strip_scale(u, (s - z) as nat),
    decreases z,
{
    if z == 0 {
        assert(pow10(0) == 1);
        assert(u * pow10(0) == u) by (nonlinear_arith)
            requires pow10(0) == 1,
        ;
    } else {
        let v = u * pow10((z - 1) as nat);
        lemma_pow10_adds((z - 1) as nat, 1);
        assert(pow10(1) == 10) by { assert(pow10(0) == 1); };
        assert(u * pow10(z) == v * 10) by (nonlinear_arith)
            requires pow10(z) == pow10((z - 1) as nat) * 10 && v == u * pow10((z - 1) as nat),
        ;
        assert((v * 10) % 10 == 0 && (v * 10) / 10 == v) by (nonlinear_arith);
        assert(s > 0);
        lemma_strip_pow(u, (z - 1) as nat, (s - 1) as nat);
    }
}

/// Normalization is the identity on already-normal pairs.
pub proof fn lemma_strip_stable(u: nat, s: nat)
    requires
        s == 0 || u % 10 != 0,
    ensures
        strip_units(u, s) == u,
        strip_scale(u, s) == s,
{
}

pub proof fn lemma_strip_bounds(u: nat, s: nat)
    ensures
        strip_units(u, s) <= u,
        strip_scale(u, s) <= s,
    decreases s,
{
    if s > 0 && u % 10 == 0 {
        lemma_strip_bounds(u / 10, (s - 1) as nat);
    }
}

// ---------------------------------------------------------------------------
// The Decimal type
// ---------------------------------------------------------------------------

/// Mathematical model of a `Decimal`: its sign, normalized magnitude
/// (`units / 10^scale`), and wire text.
pub struct DecimalModel {
    pub neg: bool,
    pub units: nat,
    pub scale: nat,
    pub text: Seq<char>,
}

/// Magnitude cap: eighteen significant decimal digits.
pub open spec fn units_cap() -> nat {
    pow10(18)
}

/// Scale cap: ten fractional digits.
pub open spec fn scale_cap() -> nat {
    10
}

pub open spec fn model_inv(m: DecimalModel) -> bool {
    &&& m.scale <= scale_cap()
    &&& m.units < units_cap()
    &&& (m.scale > 0 ==> m.units % 10 != 0)
    &&& (m.units == 0 ==> !m.neg && m.scale == 0)
    &&& valid_numeral(m.text)
    &&& strip_units(raw_units(m.text), raw_scale(m.text)) == m.units
    &&& strip_scale(raw_units(m.text), raw_scale(m.text)) == m.scale
    &&& m.neg == (is_neg_numeral(m.text) && m.units != 0)
}

/// The value of a decimal, scaled by `10^10` so that it is an integer.
pub open spec fn scaled_val(m: DecimalModel) -> int {
    let mag = (m.units * pow10((10 - m.scale) as nat)) as int;
    if m.neg {
        -mag
    } else {
        mag
    }
}

/// A scaled value is representable when its normal form fits the caps.
pub open spec fn representable(v: int) -> bool {
    strip_units(abs_int(v), 10) < units_cap()
}

pub open spec fn abs_int(v: int) -> nat {
    if v < 0 {
        (-v) as nat
    } else {
        v as nat
    }
}

/// An exact decimal number.
///
/// Parsed values keep their wire text verbatim; derived values carry a
/// canonical rendering of their magnitude.  Equality and ordering compare
/// the magnitude, never the text.
#[derive(Debug)]
pub struct Decimal {
    neg: bool,
    units: u128,
    scale: u32,
    text: String,
}

impl View for Decimal {
    type V = DecimalModel;

    closed spec fn view(&self) -> DecimalModel {
        DecimalModel {
            neg: self.neg,
            units: self.units as nat,
            scale: self.scale as nat,
            text: self.text@,
        }
    }
}

// ---------------------------------------------------------------------------
// Rendering a magnitude as canonical text
// ---------------------------------------------------------------------------

pub open spec fn digit_char(d: nat) -> char {
    if d == 0 {
        '0'
    } else if d == 1 {
        '1'
    } else if d == 2 {
        '2'
    } else if d == 3 {
        '3'
    } else if d == 4 {
        '4'
    } else if d == 5 {
        '5'
    } else if d == 6 {
        '6'
    } else if d == 7 {
        '7'
    } else if d == 8 {
        '8'
    } else {
        '9'
    }
}

/// Decimal digits of `u`, most significant first, without leading zeros
/// (a lone `'0'` for zero).
pub open spec fn dec_digits(u: nat) -> Seq<char>
    decreases u,
{
    if u < 10 {
        seq![digit_char(u)]
    } else {
        dec_digits(u / 10).push(digit_char(u % 10))
    }
}

pub proof fn lemma_dec_digits(u: nat)
    ensures
        dec_digits(u).len() >= 1,
        all_digits(dec_digits(u)),
        digits_val(dec_digits(u)) == u,
    decreases u,
{
    if u < 10 {
        assert(digit_val(digit_char(u)) == u);
        assert(is_digit(digit_char(u)));
        let s = dec_digits(u);
        assert(s =~= seq![digit_char(u)]);
        assert(s.drop_last() =~= Seq::<char>::empty());
        assert(s.last() == digit_char(u));
        assert(digits_val(s) == digits_val(s.drop_last()) * 10 + digit_val(s.last()));
        assert(digits_val(Seq::<char>::empty()) == 0);
    } else {
        lemma_dec_digits(u / 10);
        let s = dec_digits(u / 10).push(digit_char(u % 10));
        assert(dec_digits(u) == s);
        assert(s.drop_last() =~= dec_digits(u / 10));
        assert(digit_val(digit_char(u % 10)) == u % 10);
        assert(is_digit(digit_char(u % 10)));
        assert(digits_val(s) == (u / 10) * 10 + u % 10);
        assert((u / 10) * 10 + u % 10 == u) by (nonlinear_arith);
        assert forall|i: int| 0 <= i < s.len() implies is_digit(#[trigger] s[i]) by {
            if i < s.len() - 1 {
                assert(s[i] == dec_digits(u / 10)[i]);
            }
        }
    }
}

/// Canonical text of a normalized (sign, units, scale) triple.
pub open spec fn spec_render(neg: bool, units: nat, scale: nat) -> Seq<char> {
    let ds = dec_digits(units);
    let sign: Seq<char> = if neg {
        seq!['-']
    } else {
        Seq::empty()
    };
    if scale == 0 {
        sign + ds
    } else if ds.len() > scale {
        sign + ds.take(ds.len() - scale) + seq!['.'] + ds.skip(ds.len() - scale)
    } else {
        sign + seq!['0', '.'] + zero_chars((scale - ds.len()) as nat) + ds
    }
}

/// The canonical rendering parses back to exactly the magnitude it was
/// rendered from.
#[verifier::rlimit(100)]
#[verifier::spinoff_prover]
pub proof fn lemma_render_round_trip(neg: bool, units: nat, scale: nat)
    requires
        scale <= scale_cap(),
        scale > 0 ==> units % 10 != 0,
        units == 0 ==> !neg && scale == 0,
    ensures
        valid_numeral(spec_render(neg, units, scale)),
        raw_units(spec_render(neg, units, scale)) == units,
        raw_scale(spec_render(neg, units, scale)) == scale,
        is_neg_numeral(spec_render(neg, units, scale)) == neg,
        strip_units(raw_units(spec_render(neg, units, scale)), raw_scale(spec_render(neg, units, scale))) == units,
        strip_scale(raw_units(spec_render(neg, units, scale)), raw_scale(spec_render(neg, units, scale))) == scale,
{
    let ds = dec_digits(units);
    lemma_dec_digits(units);
    let s = spec_render(neg, units, scale);
    let b = numeral_body(s);
    let sign: Seq<char> = if neg {
        seq!['-']
    } else {
        Seq::empty()
    };
    assert(is_digit(ds[0]));
    assert(ds[0] != '-' && ds[0] != '.');
    if scale == 0 {
        assert(b =~= ds);
        lemma_dot_pos_at(b, b.len() as int);
        assert(int_digits(b) =~= ds);
        assert(digits_val(int_digits(b) + frac_digits(b)) == digits_val(ds)) by {
            assert(int_digits(b) + frac_digits(b) =~= ds);
        }
        lemma_strip_stable(units, 0);
    } else if ds.len() > scale {
        let m = ds.len() - scale;
        assert(b =~= ds.take(m as int) + seq!['.'] + ds.skip(m as int));
        assert forall|j: int| 0 <= j < m implies b[j] != '.' by {
            assert(b[j] == ds[j]);
            assert(is_digit(ds[j]));
        }
        assert(b[m as int] == '.');
        lemma_dot_pos_at(b, m as int);
        assert(int_digits(b) =~= ds.take(m as int));
        assert(frac_digits(b) =~= ds.skip(m as int));
        assert(int_digits(b) + frac_digits(b) =~= ds);
        assert(all_digits(int_digits(b)));
        assert(all_digits(frac_digits(b)));
        assert(frac_digits(b).len() == scale);
        lemma_strip_stable(units, scale);
    } else {
        let pad = (scale - ds.len()) as nat;
        assert(b =~= seq!['0', '.'] + zero_chars(pad) + ds);
        lemma_digits_val_zeros(pad);
        assert(b[0] == '0' && b[0] != '.');
        assert(b[1] == '.');
        lemma_dot_pos_at(b, 1);
        assert(int_digits(b) =~= seq!['0']);
        assert(frac_digits(b) =~= zero_chars(pad) + ds);
        assert(all_digits(int_digits(b))) by {
            assert(int_digits(b)[0] == '0');
        }
        assert forall|i: int| 0 <= i < frac_digits(b).len() implies is_digit(
            #[trigger] frac_digits(b)[i],
        ) by {
            if i < pad {
                assert(frac_digits(b)[i] == '0');
            } else {
                assert(frac_digits(b)[i] == ds[i - pad]);
            }
        }
        assert(frac_digits(b).len() == scale);
        assert(raw_units(s) == digits_val(seq!['0'] + (zero_chars(pad) + ds)));
        assert(seq!['0'] + (zero_chars(pad) + ds) =~= zero_chars(pad + 1) + ds);
        lemma_digits_val_concat(zero_chars(pad + 1), ds);
        lemma_digits_val_zeros(pad + 1);
        assert(digits_val(zero_chars(pad + 1) + ds) == units);
        assert(units > 0) by {
            if units == 0 {
                assert(scale == 0);
            }
        }
        lemma_strip_stable(units, scale);
    }
}

// ---------------------------------------------------------------------------
// Executable rendering
// ---------------------------------------------------------------------------

fn digit_char_of(d: u128) -> (c: char)
    requires
        d < 10,
    ensures
        c == digit_char(d as nat),
{
    if d == 0 {
        '0'
    } else if d == 1 {
        '1'
    } else if d == 2 {
        '2'
    } else if d == 3 {
        '3'
    } else if d == 4 {
        '4'
    } else if d == 5 {
        '5'
    } else if d == 6 {
        '6'
    } else if d == 7 {
        '7'
    } else if d == 8 {
        '8'
    } else {
        '9'
    }
}

/// Pushes the decimal digits of `u` onto `out`, most significant first.
fn push_dec_digits(u: u128, out: &mut Vec<char>)
    ensures
        final(out)@ == old(out)@ + dec_digits(u as nat),
    decreases u,
{
    if u < 10 {
        out.push(digit_char_of(u));
        proof {
            assert(out@ =~= old(out)@ + dec_digits(u as nat));
        }
    } else {
        push_dec_digits(u / 10, out);
        out.push(digit_char_of(u % 10));
        proof {
            assert(dec_digits(u as nat) == dec_digits(u as nat / 10).push(
                digit_char((u as nat) % 10),
            ));
            assert(out@ =~= old(out)@ + dec_digits(u as nat));
        }
    }
}

/// Renders a normalized magnitude as its canonical text.
fn render_text(neg: bool, units: u128, scale: u32) -> (r: String)
    requires
        scale <= 10,
    ensures
        r@ == spec_render(neg, units as nat, scale as nat),
{
    let mut ds: Vec<char> = Vec::new();
    push_dec_digits(units, &mut ds);
    proof {
        assert(ds@ =~= dec_digits(units as nat));
        lemma_dec_digits(units as nat);
    }
    let mut out: Vec<char> = Vec::new();
    if neg {
        out.push('-');
    }
    let ghost sign: Seq<char> = if neg { seq!['-'] } else { Seq::empty() };
    proof {
        assert(out@ =~= sign);
    }
    if scale == 0 {
        let mut i: usize = 0;
        while i < ds.len()
            invariant
                i <= ds.len(),
                out@ == sign + ds@.take(i as int),
            decreases ds.len() - i,
        {
            out.push(ds[i]);
            i = i + 1;
            proof {
                assert(out@ =~= sign + ds@.take(i as int));
            }
        }
        proof {
            assert(ds@.take(ds@.len() as int) =~= ds@);
        }
    } else if ds.len() > scale as usize {
        let m = ds.len() - scale as usize;
        let mut i: usize = 0;
        while i < m
            invariant
                i <= m,
                m < ds.len(),
                out@ == sign + ds@.take(i as int),
            decreases m - i,
        {
            out.push(ds[i]);
            i = i + 1;
            proof {
                assert(out@ =~= sign + ds@.take(i as int));
            }
        }
        out.push('.');
        let mut j: usize = m;
        while j < ds.len()
            invariant
                m <= j <= ds.len(),
                out@ == sign + ds@.take(m as int) + seq!['.'] + ds@.subrange(m as int, j as int),
            decreases ds.len() - j,
        {
            out.push(ds[j]);
            j = j + 1;
            proof {
                assert(out@ =~= sign + ds@.take(m as int) + seq!['.'] + ds@.subrange(
                    m as int,
                    j as int,
                ));
            }
        }
        proof {
            assert(ds@.subrange(m as int, ds@.len() as int) =~= ds@.skip(m as int));
            assert(out@ =~= spec_render(neg, units as nat, scale as nat));
        }
    } else {
        out.push('0');
        out.push('.');
        let pad = scale as usize - ds.len();
        let mut k: usize = 0;
        while k < pad
            invariant
                k <= pad,
                out@ == sign + seq!['0', '.'] + zero_chars(k as nat),
            decreases pad - k,
        {
            out.push('0');
            k = k + 1;
            proof {
                assert(out@ =~= sign + seq!['0', '.'] + zero_chars(k as nat));
            }
        }
        proof {
            assert(out@ =~= sign + seq!['0', '.'] + zero_chars(pad as nat));
        }
        let mut i: usize = 0;
        let ghost base = out@;
        while i < ds.len()
            invariant
                i <= ds.len(),
                out@ == base + ds@.take(i as int),
            decreases ds.len() - i,
        {
            out.push(ds[i]);
            i = i + 1;
            proof {
                assert(out@ =~= base + ds@.take(i as int));
            }
        }
        proof {
            assert(ds@.take(ds@.len() as int) =~= ds@);
            assert(out@ =~= spec_render(neg, units as nat, scale as nat));
        }
    }
    crate::chars::chars_to_string(&out)
}

// ---------------------------------------------------------------------------
// Construction
// ---------------------------------------------------------------------------

impl Decimal {
    #[verifier::type_invariant]
    pub open spec fn wf(self) -> bool {
        model_inv(self@)
    }

    /// Builds a decimal from an already-normalized magnitude, rendering its
    /// canonical text.
    fn assemble(neg: bool, units: u128, scale: u32) -> (d: Decimal)
        requires
            scale <= 10,
            (units as nat) < units_cap(),
            scale > 0 ==> units % 10 != 0,
            units == 0 ==> !neg && scale == 0,
        ensures
            d@.neg == neg,
            d@.units == units as nat,
            d@.scale == scale as nat,
            d@.text == spec_render(neg, units as nat, scale as nat),
            model_inv(d@),
    {
        let text = render_text(neg, units, scale);
        proof {
            lemma_render_round_trip(neg, units as nat, scale as nat);
        }
        Decimal { neg, units, scale, text }
    }

    /// The zero value: the sentinel used where no real quantity is known.
    pub fn zero() -> (d: Decimal)
        ensures
            d@ == zero_model(),
            scaled_val(d@) == 0,
            model_inv(d@),
    {
        proof {
            lemma_pow10_pos(18);
        }
        Decimal::assemble(false, 0, 0)
    }

    /// An exact whole number.
    pub fn from_u64(n: u64) -> (d: Decimal)
        requires
            n < 1_000_000_000_000_000_000,
        ensures
            d@.units == n as nat,
            d@.scale == 0,
            !d@.neg,
            scaled_val(d@) == n * pow10(10),
            model_inv(d@),
            d@.text == spec_render(d@.neg, d@.units, d@.scale),
    {
        proof {
            lemma_pow10_values();
        }
        Decimal::assemble(false, n as u128, 0)
    }

    /// True exactly when the value is zero.
    pub fn is_zero(&self) -> (r: bool)
        ensures
            r == (scaled_val(self@) == 0),
    {
        proof {
            use_type_invariant(self);
            lemma_pow10_pos((10 - self@.scale) as nat);
            if self@.units != 0 {
                assert(self@.units * pow10((10 - self@.scale) as nat) > 0) by (nonlinear_arith)
                    requires self@.units > 0 && pow10((10 - self@.scale) as nat) >= 1,
                ;
            }
        }
        self.units == 0
    }

    /// The stored wire text: byte-identical to the input for parsed values,
    /// the canonical rendering for derived values.
    pub fn to_wire_string(&self) -> (r: String)
        ensures
            r@ == self@.text,
    {
        self.text.clone()
    }
}

impl Default for Decimal {
    /// The default decimal is the zero sentinel.
    fn default() -> (d: Decimal)
        ensures
            d@.units == 0 && !d@.neg && d@.scale == 0,
            scaled_val(d@) == 0,
    {
        Decimal::zero()
    }
}

impl Clone for Decimal {
    /// A clone carries the same magnitude and text.
    fn clone(&self) -> (d: Decimal)
        ensures
            d@ == self@,
    {
        proof {
            use_type_invariant(self);
        }
        Decimal { neg: self.neg, units: self.units, scale: self.scale, text: self.text.clone() }
    }
}

impl PartialEq for Decimal {
    /// Equality compares the magnitude, never the text.
    fn eq(&self, other: &Decimal) -> (r: bool) {
        self.neg == other.neg && self.units == other.units && self.scale == other.scale
    }
}

impl vstd::std_specs::cmp::PartialEqSpecImpl for Decimal {
    open spec fn obeys_eq_spec() -> bool {
        true
    }

    open spec fn eq_spec(&self, other: &Decimal) -> bool {
        self@.neg == other@.neg && self@.units == other@.units && self@.scale == other@.scale
    }
}

/// Two well-formed decimals carry the same magnitude fields exactly when
/// they denote the same number: the normal form is unique.  In particular
/// two parsed strings that differ only in trailing fractional zeros compare
/// equal.
pub proof fn lemma_value_determines_magnitude(a: DecimalModel, b: DecimalModel)
    requires
        model_inv(a),
        model_inv(b),
    ensures
        (scaled_val(a) == scaled_val(b)) <==> (a.neg == b.neg && a.units == b.units && a.scale
            == b.scale),
{
    if scaled_val(a) == scaled_val(b) {
        lemma_pow10_pos((10 - a.scale) as nat);
        lemma_pow10_pos((10 - b.scale) as nat);
        let ma = a.units * pow10((10 - a.scale) as nat);
        let mb = b.units * pow10((10 - b.scale) as nat);
        if a.units == 0 {
            assert(ma == 0) by (nonlinear_arith)
                requires a.units == 0 && ma == a.units * pow10((10 - a.scale) as nat),
            ;
            assert(mb == 0);
            assert(b.units == 0) by (nonlinear_arith)
                requires
                    b.units * pow10((10 - b.scale) as nat) == 0 && pow10((10 - b.scale) as nat)
                        >= 1,
            ;
        } else if b.units == 0 {
            assert(mb == 0) by (nonlinear_arith)
                requires b.units == 0 && mb == b.units * pow10((10 - b.scale) as nat),
            ;
            assert(ma == 0);
            assert(a.units == 0) by (nonlinear_arith)
                requires
                    a.units * pow10((10 - a.scale) as nat) == 0 && pow10((10 - a.scale) as nat)
                        >= 1,
            ;
        } else {
            assert(ma > 0) by (nonlinear_arith)
                requires
                    a.units > 0 && pow10((10 - a.scale) as nat) >= 1 && ma == a.units * pow10(
                        (10 - a.scale) as nat,
                    ),
            ;
            assert(mb > 0) by (nonlinear_arith)
                requires
                    b.units > 0 && pow10((10 - b.scale) as nat) >= 1 && mb == b.units * pow10(
                        (10 - b.scale) as nat,
                    ),
            ;
            assert(a.neg == b.neg);
            assert(ma == mb);
            lemma_same_mag(a.units, a.scale, b.units, b.scale);
        }
    }
}

/// Magnitude uniqueness of the normal form.
proof fn lemma_same_mag(ua: nat, sa: nat, ub: nat, sb: nat)
    requires
        sa <= 10,
        sb <= 10,
        ua > 0,
        ub > 0,
        sa > 0 ==> ua % 10 != 0,
        sb > 0 ==> ub % 10 != 0,
        ua * pow10((10 - sa) as nat) == ub * pow10((10 - sb) as nat),
    ensures
        ua == ub,
        sa == sb,
{
    if sa == sb {
        lemma_pow10_pos((10 - sa) as nat);
        assert(ua == ub) by (nonlinear_arith)
            requires
                ua * pow10((10 - sa) as nat) == ub * pow10((10 - sa) as nat) && pow10(
                    (10 - sa) as nat,
                ) >= 1,
        ;
    } else if sa < sb {
        // then ua carries extra factors of ten, against normality
        let d = (sb - sa) as nat;
        lemma_pow10_adds(d, (10 - sb) as nat);
        assert(pow10((10 - sa) as nat) == pow10(d) * pow10((10 - sb) as nat));
        lemma_pow10_pos((10 - sb) as nat);
        assert(ua * (pow10(d) * pow10((10 - sb) as nat)) == (ua * pow10(d)) * pow10(
            (10 - sb) as nat,
        )) by (nonlinear_arith);
        assert(ua * pow10(d) == ub) by (nonlinear_arith)
            requires
                (ua * pow10(d)) * pow10((10 - sb) as nat) == ub * pow10((10 - sb) as nat) && pow10(
                    (10 - sb) as nat,
                ) >= 1,
        ;
        lemma_pow10_adds((d - 1) as nat, 1);
        assert(pow10(1) == 10) by { assert(pow10(0) == 1); };
        assert(ub == (ua * pow10((d - 1) as nat)) * 10) by (nonlinear_arith)
            requires
                ub == ua * pow10(d) && pow10(d) == pow10((d - 1) as nat) * 10,
        ;
        assert(ub % 10 == 0) by (nonlinear_arith)
            requires ub == (ua * pow10((d - 1) as nat)) * 10,
        ;
        assert(sb > 0);
    } else {
        // symmetric: ub would carry extra factors of ten, against normality
        let d = (sa - sb) as nat;
        lemma_pow10_adds(d, (10 - sa) as nat);
        assert(pow10((10 - sb) as nat) == pow10(d) * pow10((10 - sa) as nat));
        lemma_pow10_pos((10 - sa) as nat);
        assert(ub * (pow10(d) * pow10((10 - sa) as nat)) == (ub * pow10(d)) * pow10(
            (10 - sa) as nat,
        )) by (nonlinear_arith);
        assert(ub * pow10(d) == ua) by (nonlinear_arith)
            requires
                (ub * pow10(d)) * pow10((10 - sa) as nat) == ua * pow10((10 - sa) as nat) && pow10(
                    (10 - sa) as nat,
                ) >= 1,
        ;
        lemma_pow10_adds((d - 1) as nat, 1);
        assert(pow10(1) == 10) by { assert(pow10(0) == 1); };
        assert(ua == (ub * pow10((d - 1) as nat)) * 10) by (nonlinear_arith)
            requires
                ua == ub * pow10(d) && pow10(d) == pow10((d - 1) as nat) * 10,
        ;
        assert(ua % 10 == 0) by (nonlinear_arith)
            requires ua == (ub * pow10((d - 1) as nat)) * 10,
        ;
        assert(sa > 0);
        assert(false);
    }
}

// ---------------------------------------------------------------------------
// Parsing
// ---------------------------------------------------------------------------

/// Why a string was rejected as a decimal.
#[derive(Debug, Clone, Copy, PartialEq, Eq, Structural)]
pub enum DecimalError {
    /// Not a well-formed signed decimal numeral.
    Invalid,
    /// A well-formed numeral beyond the supported precision: more than
    /// eighteen significant digits, or more than ten fractional digits
    /// after dropping trailing zeros.
    OutOfRange,
}


/// The model of the zero sentinel.
pub open spec fn zero_model() -> DecimalModel {
    DecimalModel { neg: false, units: 0, scale: 0, text: spec_render(false, 0, 0) }
}

/// The model that parsing a valid, in-range numeral produces.
pub open spec fn numeral_model(t: Seq<char>) -> DecimalModel {
    let u = strip_units(raw_units(t), raw_scale(t));
    DecimalModel {
        neg: is_neg_numeral(t) && u != 0,
        units: u,
        scale: strip_scale(raw_units(t), raw_scale(t)),
        text: t,
    }
}

/// A valid numeral is representable when its normalized magnitude fits the
/// capacity caps.
pub open spec fn numeral_fits(s: Seq<char>) -> bool {
    &&& strip_units(raw_units(s), raw_scale(s)) < units_cap()
    &&& strip_scale(raw_units(s), raw_scale(s)) <= scale_cap()
}

fn is_digit_c(c: char) -> (r: bool)
    ensures
        r == is_digit(c),
{
    let x = c as u32;
    48 <= x && x <= 57
}

fn digit_of(c: char) -> (d: u8)
    requires
        is_digit(c),
    ensures
        d as nat == digit_val(c),
        d < 10,
{
    ((c as u32) - 48) as u8
}

/// First position at or after `from` that does not hold a digit.
fn scan_digits(v: &Vec<char>, from: usize) -> (r: usize)
    requires
        from <= v@.len(),
    ensures
        from <= r <= v@.len(),
        forall|j: int| from <= j < r ==> is_digit(#[trigger] v@[j]),
        r < v@.len() ==> !is_digit(v@[r as int]),
{
    let mut i = from;
    while i < v.len()
        invariant
            from <= i <= v@.len(),
            forall|j: int| from <= j < i ==> is_digit(#[trigger] v@[j]),
        decreases v@.len() - i,
    {
        if !is_digit_c(v[i]) {
            return i;
        }
        i = i + 1;
    }
    i
}

/// First position of the run of `'0'` characters that ends at `to`.
fn scan_back_zeros(v: &Vec<char>, from: usize, to: usize) -> (e: usize)
    requires
        from <= to <= v@.len(),
    ensures
        from <= e <= to,
        forall|j: int| e <= j < to ==> v@[j] == '0',
        e > from ==> v@[e - 1] != '0',
{
    let mut e = to;
    while e > from
        invariant
            from <= e <= to <= v@.len(),
            forall|j: int| e <= j < to ==> v@[j] == '0',
        decreases e,
    {
        if v[e - 1] != '0' {
            return e;
        }
        e = e - 1;
    }
    e
}

/// Folds the digits `v[from..to]` onto an accumulator that already holds the
/// value of the digit sequence `c0`.  Returns false when the combined value
/// reaches the capacity cap.
fn accum_digits(
    v: &Vec<char>,
    from: usize,
    to: usize,
    u: &mut u128,
    cnt: &mut u32,
    Ghost(c0): Ghost<Seq<char>>,
) -> (ok: bool)
    requires
        from <= to <= v@.len(),
        forall|j: int| from <= j < to ==> is_digit(#[trigger] v@[j]),
        all_digits(c0),
        *old(u) == digits_val(c0),
        *old(cnt) <= 18,
        *old(u) < pow10(*old(cnt) as nat),
        *old(cnt) > 0 ==> *old(u) >= pow10((*old(cnt) - 1) as nat),
        *old(cnt) == 0 ==> *old(u) == 0,
    ensures
        ok ==> {
            &&& *final(u) == digits_val(c0 + v@.subrange(from as int, to as int))
            &&& *final(cnt) <= 18
            &&& *final(u) < pow10(*final(cnt) as nat)
            &&& (*final(cnt) > 0 ==> *final(u) >= pow10((*final(cnt) - 1) as nat))
            &&& (*final(cnt) == 0 ==> *final(u) == 0)
        },
        !ok ==> digits_val(c0 + v@.subrange(from as int, to as int)) >= units_cap(),
{
    let mut k = from;
    while k < to
        invariant
            from <= k <= to <= v@.len(),
            forall|j: int| from <= j < to ==> is_digit(#[trigger] v@[j]),
            all_digits(c0),
            *u == digits_val(c0 + v@.subrange(from as int, k as int)),
            *cnt <= 18,
            *u < pow10(*cnt as nat),
            *cnt > 0 ==> *u >= pow10((*cnt - 1) as nat),
            *cnt == 0 ==> *u == 0,
        decreases to - k,
    {
        let ghost pre = c0 + v@.subrange(from as int, k as int);
        let d = digit_of(v[k]);
        proof {
            assert(c0 + v@.subrange(from as int, (k + 1) as int) =~= pre.push(v@[k as int]));
            assert(pre.push(v@[k as int]).drop_last() =~= pre);
            assert(digits_val(pre.push(v@[k as int])) == digits_val(pre) * 10 + digit_val(
                v@[k as int],
            ));
            lemma_pow10_values();
            if *cnt < 18 {
                lemma_pow10_mono((*cnt + 1) as nat, 18);
            }
            assert(pow10((*cnt + 1) as nat) == 10 * pow10(*cnt as nat));
        }
        if *u == 0 && d == 0 {
            // a leading zero does not change the value
        } else {
            if *cnt == 18 {
                proof {
                    lemma_pow10_values();
                    assert(*u >= pow10(17));
                    assert(*u * 10 + digit_val(v@[k as int]) >= pow10(17) * 10) by (nonlinear_arith)
                        requires *u >= pow10(17),
                    ;
                    assert(pow10(18) == pow10(17) * 10) by {
                        lemma_pow10_adds(17, 1);
                        assert(pow10(1) == 10) by { assert(pow10(0) == 1); };
                    };
                    let full = c0 + v@.subrange(from as int, to as int);
                    let rest = v@.subrange((k + 1) as int, to as int);
                    assert(full =~= pre.push(v@[k as int]) + rest);
                    lemma_digits_val_concat(pre.push(v@[k as int]), rest);
                    lemma_pow10_pos(rest.len());
                    assert(digits_val(full) >= digits_val(pre.push(v@[k as int])) * pow10(
                        rest.len(),
                    )) by (nonlinear_arith)
                        requires
                            digits_val(full) == digits_val(pre.push(v@[k as int])) * pow10(
                                rest.len(),
                            ) + digits_val(rest),
                    ;
                    assert(digits_val(pre.push(v@[k as int])) * pow10(rest.len()) >= digits_val(
                        pre.push(v@[k as int]),
                    )) by (nonlinear_arith)
                        requires pow10(rest.len()) >= 1,
                    ;
                }
                return false;
            }
            *u = *u * 10 + (d as u128);
            *cnt = *cnt + 1;
        }
        k = k + 1;
    }
    proof {
        assert(c0 + v@.subrange(from as int, to as int) =~= c0 + v@.subrange(
            from as int,
            k as int,
        ));
    }
    true
}


/// How normalization acts on a numeral whose trailing fractional zeros have
/// been set aside: the magnitude is the remaining digits' value, the scale
/// the remaining fraction's length.
proof fn lemma_parse_strip(s: Seq<char>, ints: Seq<char>, fe: Seq<char>, z: nat)
    requires
        ints == int_digits(numeral_body(s)),
        frac_digits(numeral_body(s)) == fe + zero_chars(z),
        all_digits(fe),
        fe.len() > 0 ==> is_digit(fe.last()) && digit_val(fe.last()) != 0,
    ensures
        strip_units(raw_units(s), raw_scale(s)) == digits_val(ints + fe),
        strip_scale(raw_units(s), raw_scale(s)) == fe.len(),
{
    let fracs = fe + zero_chars(z);
    assert(ints + fracs =~= (ints + fe) + zero_chars(z));
    lemma_digits_val_zeros(z);
    lemma_digits_val_concat(ints + fe, zero_chars(z));
    assert(raw_units(s) == digits_val(ints + fe) * pow10(z));
    assert(raw_scale(s) == fe.len() + z);
    lemma_strip_pow(digits_val(ints + fe), z, raw_scale(s));
    if fe.len() > 0 {
        assert((ints + fe).last() == fe.last());
        lemma_digits_val_last(ints + fe);
        lemma_strip_stable(digits_val(ints + fe), fe.len());
    } else {
        lemma_strip_stable(digits_val(ints + fe), 0);
        assert(ints + fe =~= ints);
    }
}

impl Decimal {
    /// Parses a signed decimal numeral, storing the text verbatim.
    ///
    /// Returns `Invalid` exactly on strings that are not a well-formed
    /// numeral, and `OutOfRange` exactly on well-formed numerals beyond the
    /// supported precision.
    #[verifier::rlimit(100)]
    #[verifier::spinoff_prover]
    pub fn parse(text: &str) -> (r: Result<Decimal, DecimalError>)
        ensures
            match r {
                Ok(d) => {
                    &&& valid_numeral(text@)
                    &&& numeral_fits(text@)
                    &&& d@.text == text@
                    &&& model_inv(d@)
                },
                Err(DecimalError::Invalid) => !valid_numeral(text@),
                Err(DecimalError::OutOfRange) => valid_numeral(text@) && !numeral_fits(text@),
            },
    {
        let v = crate::chars::char_vec(text);
        let n = v.len();
        let neg_sign = n > 0 && v[0] == '-';
        let start: usize = if neg_sign {
            1
        } else {
            0
        };
        let ghost b = numeral_body(text@);
        proof {
            assert(b =~= text@.subrange(start as int, n as int));
        }
        // integer digits
        let int_end = scan_digits(&v, start);
        if int_end == start {
            proof {
                lemma_dot_pos(b);
                if b.len() > 0 && b[0] != '.' {
                    assert(b[dot_pos(b)] == '.' || dot_pos(b) == b.len());
                    assert(dot_pos(b) >= 1);
                    assert(int_digits(b)[0] == b[0]);
                    assert(!is_digit(b[0]));
                }
            }
            return Err(DecimalError::Invalid);
        }
        // fractional digits
        let frac_start: usize;
        let frac_end: usize;
        if int_end == n {
            frac_start = n;
            frac_end = n;
            proof {
                assert(forall|j: int| 0 <= j < b.len() ==> is_digit(#[trigger] b[j]) && b[j]
                    != '.');
                lemma_dot_pos_at(b, b.len() as int);
                assert(int_digits(b) =~= b);
            }
        } else if v[int_end] == '.' {
            frac_start = int_end + 1;
            proof {
                assert(forall|j: int| 0 <= j < int_end - start ==> is_digit(#[trigger] b[j])
                    && b[j] != '.');
                assert(b[(int_end - start) as int] == '.');
                lemma_dot_pos_at(b, (int_end - start) as int);
                assert(int_digits(b) =~= text@.subrange(start as int, int_end as int));
            }
            let fe = scan_digits(&v, frac_start);
            if fe < n {
                proof {
                    assert(frac_digits(b)[(fe - frac_start) as int] == text@[fe as int]);
                    assert(!is_digit(frac_digits(b)[(fe - frac_start) as int]));
                }
                return Err(DecimalError::Invalid);
            }
            if fe == frac_start {
                proof {
                    assert(frac_digits(b).len() == 0);
                    assert(dot_pos(b) < b.len());
                }
                return Err(DecimalError::Invalid);
            }
            frac_end = fe;
            proof {
                assert(frac_digits(b) =~= text@.subrange(frac_start as int, frac_end as int));
            }
        } else {
            proof {
                assert(forall|j: int| 0 <= j < int_end - start ==> is_digit(#[trigger] b[j])
                    && b[j] != '.');
                assert(b[(int_end - start) as int] != '.');
                lemma_dot_pos(b);
                if dot_pos(b) <= int_end - start {
                    assert(b[dot_pos(b)] == '.');
                }
                assert(dot_pos(b) > int_end - start);
                assert(int_digits(b)[(int_end - start) as int] == b[(int_end - start) as int]);
                assert(!is_digit(int_digits(b)[(int_end - start) as int]));
            }
            return Err(DecimalError::Invalid);
        }
        let ghost ints = text@.subrange(start as int, int_end as int);
        let ghost fracs = text@.subrange(frac_start as int, frac_end as int);
        proof {
            assert(int_digits(b) =~= ints);
            assert(frac_digits(b) =~= fracs);
            assert(valid_numeral(text@));
        }
        // drop trailing fractional zeros
        let eff_end = scan_back_zeros(&v, frac_start, frac_end);
        let ghost fe = text@.subrange(frac_start as int, eff_end as int);
        let ghost z = (frac_end - eff_end) as nat;
        proof {
            if fe.len() > 0 {
                assert(text@[eff_end - 1] != '0');
            }
            assert(fracs =~= fe + zero_chars(z));
            lemma_parse_strip(text@, ints, fe, z);
        }
        let eff_scale = eff_end - frac_start;
        if eff_scale > 10 {
            return Err(DecimalError::OutOfRange);
        }
        // fold the digits into the magnitude
        let mut u: u128 = 0;
        let mut cnt: u32 = 0;
        proof {
            assert(pow10(0) == 1);
            assert(digits_val(Seq::<char>::empty()) == 0);
        }
        let ok1 = accum_digits(&v, start, int_end, &mut u, &mut cnt, Ghost(Seq::empty()));
        proof {
            assert(Seq::<char>::empty() + ints =~= ints);
        }
        if !ok1 {
            proof {
                lemma_digits_val_concat(ints, fe);
                lemma_pow10_pos(fe.len());
                assert(digits_val(ints + fe) >= digits_val(ints) * pow10(fe.len()))
                    by (nonlinear_arith)
                    requires
                        digits_val(ints + fe) == digits_val(ints) * pow10(fe.len()) + digits_val(
                            fe,
                        ),
                ;
                assert(digits_val(ints) * pow10(fe.len()) >= digits_val(ints)) by (nonlinear_arith)
                    requires pow10(fe.len()) >= 1,
                ;
            }
            return Err(DecimalError::OutOfRange);
        }
        let ok2 = accum_digits(&v, frac_start, eff_end, &mut u, &mut cnt, Ghost(ints));
        if !ok2 {
            return Err(DecimalError::OutOfRange);
        }
        proof {
            lemma_pow10_values();
            lemma_pow10_mono(cnt as nat, 18);
            assert(u == digits_val(ints + fe));
            if u == 0 && fe.len() > 0 {
                assert(digits_val(ints + fe) % 10 == digit_val(fe.last()));
                assert(false);
            }
        }
        let neg = neg_sign && u != 0;
        let d = Decimal {
            neg,
            units: u,
            scale: eff_scale as u32,
            text: text.to_owned(),
        };
        proof {
            assert(d@.text == text@);
            assert(model_inv(d@));
        }
        Ok(d)
    }
}

// ---------------------------------------------------------------------------
// Arithmetic
// ---------------------------------------------------------------------------

/// Ceiling division for a positive divisor (`n / d` rounded toward positive
/// infinity); `div_round_up` extends it to any nonzero divisor.
pub open spec fn ceil_div(n: int, d: int) -> int {
    let q = n / d;
    if q * d == n {
        q
    } else {
        q + 1
    }
}

pub open spec fn div_round_up(n: int, d: int) -> int {
    if d < 0 {
        ceil_div(-n, -d)
    } else {
        ceil_div(n, d)
    }
}

pub open spec fn signed_mag(neg: bool, mag: nat) -> int {
    if neg {
        -(mag as int)
    } else {
        mag as int
    }
}

/// Normalization factors out some power of ten bounded by the scale.
pub proof fn lemma_strip_factor(u: nat, s: nat)
    ensures
        exists|k: nat|
            k <= s && #[trigger] pow10(k) * strip_units(u, s) == u && strip_scale(u, s) == s - k,
    decreases s,
{
    if s > 0 && u % 10 == 0 {
        lemma_strip_factor(u / 10, (s - 1) as nat);
        let k0 = choose|k0: nat|
            k0 <= (s - 1) as nat && #[trigger] pow10(k0) * strip_units(u / 10, (s - 1) as nat) == u
                / 10 && strip_scale(u / 10, (s - 1) as nat) == (s - 1) as nat - k0;
        let k = k0 + 1;
        assert(u == (u / 10) * 10) by (nonlinear_arith)
            requires u % 10 == 0,
        ;
        lemma_pow10_adds(k0, 1);
        assert(pow10(1) == 10) by { assert(pow10(0) == 1); };
        assert(pow10(k) * strip_units(u, s) == (pow10(k0) * strip_units(u / 10, (s - 1) as nat))
            * 10) by (nonlinear_arith)
            requires
                pow10(k) == pow10(k0) * 10 && strip_units(u, s) == strip_units(
                    u / 10,
                    (s - 1) as nat,
                ),
        ;
    } else {
        assert(pow10(0) * strip_units(u, s) == u) by {
            assert(pow10(0) == 1);
        };
    }
}

/// The normalized magnitude shrinks by at most the scale's power of ten.
pub proof fn lemma_strip_lower(u: nat, s: nat)
    ensures
        pow10(s) * strip_units(u, s) >= u,
{
    lemma_strip_factor(u, s);
    let k = choose|k: nat|
        k <= s && #[trigger] pow10(k) * strip_units(u, s) == u && strip_scale(u, s) == s - k;
    lemma_pow10_mono(k, s);
    assert(pow10(s) * strip_units(u, s) >= pow10(k) * strip_units(u, s)) by (nonlinear_arith)
        requires pow10(s) >= pow10(k),
    ;
}

impl Decimal {
    /// Builds a decimal whose value is `signed_mag(neg, mag)`, scaled by
    /// `10^10`, normalizing and rendering canonical text.  Fails exactly when
    /// the normalized magnitude does not fit the capacity cap.
    fn from_scaled(neg: bool, mag: u128) -> (r: Option<Decimal>)
        ensures
            match r {
                Some(d) => {
                    &&& representable(signed_mag(neg, mag as nat))
                    &&& scaled_val(d@) == signed_mag(neg, mag as nat)
                    &&& model_inv(d@)
                    &&& d@.text == spec_render(d@.neg, d@.units, d@.scale)
                },
                None => !representable(signed_mag(neg, mag as nat)),
            },
    {
        let mut u: u128 = mag;
        let mut s: u32 = 10;
        proof {
            assert(pow10(0) == 1);
            assert(mag as nat * pow10(0) == mag as nat) by (nonlinear_arith)
                requires pow10(0) == 1,
            ;
        }
        while s > 0 && u % 10 == 0
            invariant
                s <= 10,
                strip_units(mag as nat, 10) == strip_units(u as nat, s as nat),
                strip_scale(mag as nat, 10) == strip_scale(u as nat, s as nat),
                u as nat * pow10((10 - s) as nat) == mag as nat,
            decreases s,
        {
            proof {
                assert(u as nat % 10 == 0);
                assert((u / 10) as nat * pow10((10 - (s - 1)) as nat) == mag as nat) by {
                    lemma_pow10_adds(1, (10 - s) as nat);
                    assert(pow10(1) == 10) by { assert(pow10(0) == 1); };
                    assert(u as nat == (u as nat / 10) * 10) by (nonlinear_arith)
                        requires u as nat % 10 == 0,
                    ;
                    assert((u as nat / 10) * (10 * pow10((10 - s) as nat)) == ((u as nat / 10) * 10)
                        * pow10((10 - s) as nat)) by (nonlinear_arith);
                };
            }
            u = u / 10;
            s = s - 1;
        }
        proof {
            lemma_strip_stable(u as nat, s as nat);
            lemma_pow10_values();
        }
        if u >= 1_000_000_000_000_000_000u128 {
            proof {
                assert(strip_units(mag as nat, 10) >= units_cap());
                assert(abs_int(signed_mag(neg, mag as nat)) == mag as nat);
            }
            return None;
        }
        let neg_n = neg && u != 0;
        proof {
            if u == 0 {
                assert(u as nat * pow10((10 - s) as nat) == 0) by (nonlinear_arith)
                    requires u as nat == 0,
                ;
                assert(mag as nat == 0);
            }
            if neg_n != neg {
                assert(u == 0);
            }
            lemma_pow10_pos((10 - s) as nat);
        }
        let d = Decimal::assemble(neg_n, u, s);
        proof {
            assert(scaled_val(d@) == signed_mag(neg, mag as nat));
        }
        Some(d)
    }

    /// The magnitude of the value, scaled to ten fractional digits, with its
    /// sign given separately.  Fits well below `10^28`.
    fn scaled_mag(&self) -> (m: u128)
        ensures
            m as nat == self@.units * pow10((10 - self@.scale) as nat),
            (m as nat) < pow10(28),
            self@.neg ==> m > 0,
            scaled_val(self@) == signed_mag(self@.neg, m as nat),
    {
        proof {
            use_type_invariant(self);
            lemma_pow10_values();
            lemma_pow10_mono((10 - self@.scale) as nat, 10);
            assert(self@.units * pow10((10 - self@.scale) as nat) < pow10(18) * pow10(10))
                by (nonlinear_arith)
                requires
                    self@.units < pow10(18) && pow10((10 - self@.scale) as nat) <= pow10(10)
                        && pow10(10) >= 1,
            ;
            assert(pow10(28) == pow10(18) * pow10(10)) by {
                lemma_pow10_adds(18, 10);
            };
            if self@.neg {
                lemma_pow10_pos((10 - self@.scale) as nat);
                assert(self@.units * pow10((10 - self@.scale) as nat) > 0) by (nonlinear_arith)
                    requires self@.units > 0 && pow10((10 - self@.scale) as nat) >= 1,
                ;
            }
        }
        let p = pow10_u128(10 - self.scale);
        self.units * p
    }

    /// Exact sum; fails exactly when the result does not fit the caps.
    /// The result's text is freshly rendered in canonical form, never
    /// inherited from an operand.
    pub fn add(&self, other: &Decimal) -> (r: Option<Decimal>)
        ensures
            match r {
                Some(d) => {
                    &&& representable(scaled_val(self@) + scaled_val(other@))
                    &&& scaled_val(d@) == scaled_val(self@) + scaled_val(other@)
                    &&& model_inv(d@)
                    &&& d@.text == spec_render(d@.neg, d@.units, d@.scale)
                },
                None => !representable(scaled_val(self@) + scaled_val(other@)),
            },
    {
        let ma = self.scaled_mag();
        let mb = other.scaled_mag();
        proof {
            lemma_pow10_values();
        }
        let (neg, mag) = combine(self.neg, ma, other.neg, mb);
        proof {
            use_type_invariant(self);
            use_type_invariant(other);
            assert(signed_mag(self@.neg, ma as nat) == scaled_val(self@));
        }
        Decimal::from_scaled(neg, mag)
    }

    /// Exact difference; fails exactly when the result does not fit the
    /// caps.  The result's text is freshly rendered in canonical form.
    pub fn sub(&self, other: &Decimal) -> (r: Option<Decimal>)
        ensures
            match r {
                Some(d) => {
                    &&& representable(scaled_val(self@) - scaled_val(other@))
                    &&& scaled_val(d@) == scaled_val(self@) - scaled_val(other@)
                    &&& model_inv(d@)
                    &&& d@.text == spec_render(d@.neg, d@.units, d@.scale)
                },
                None => !representable(scaled_val(self@) - scaled_val(other@)),
            },
    {
        let ma = self.scaled_mag();
        let mb = other.scaled_mag();
        proof {
            lemma_pow10_values();
        }
        let (neg, mag) = combine(self.neg, ma, !other.neg, mb);
        proof {
            use_type_invariant(self);
            use_type_invariant(other);
            assert(signed_mag(!other@.neg, mb as nat) == -scaled_val(other@));
        }
        Decimal::from_scaled(neg, mag)
    }

    /// Ordering compares the values, never the texts.
    pub fn lt(&self, other: &Decimal) -> (r: bool)
        ensures
            r == (scaled_val(self@) < scaled_val(other@)),
    {
        proof {
            use_type_invariant(self);
            use_type_invariant(other);
        }
        let ma = self.scaled_mag();
        let mb = other.scaled_mag();
        proof {
            if !self@.neg && self@.units > 0 {
                lemma_pow10_pos((10 - self@.scale) as nat);
                assert(self@.units * pow10((10 - self@.scale) as nat) > 0) by (nonlinear_arith)
                    requires self@.units > 0 && pow10((10 - self@.scale) as nat) >= 1,
                ;
            }
            if !other@.neg && other@.units > 0 {
                lemma_pow10_pos((10 - other@.scale) as nat);
                assert(other@.units * pow10((10 - other@.scale) as nat) > 0) by (nonlinear_arith)
                    requires other@.units > 0 && pow10((10 - other@.scale) as nat) >= 1,
                ;
            }
        }
        if self.neg && !other.neg {
            true
        } else if !self.neg && other.neg {
            false
        } else if !self.neg {
            ma < mb
        } else {
            mb < ma
        }
    }
}

/// Signed combination of two magnitudes.
fn combine(na: bool, ma: u128, nb: bool, mb: u128) -> (r: (bool, u128))
    requires
        ma as nat + mb as nat <= u128::MAX,
    ensures
        signed_mag(r.0, r.1 as nat) == signed_mag(na, ma as nat) + signed_mag(nb, mb as nat),
        r.1 <= ma + mb,
{
    if na == nb {
        (na, ma + mb)
    } else if ma >= mb {
        (na, ma - mb)
    } else {
        (nb, mb - ma)
    }
}

// ---------------------------------------------------------------------------
// Rounded multiplication and division
// ---------------------------------------------------------------------------

/// Multiplying a quotient through by the divisor is exact.
proof fn lemma_ceil_div_exact(x: int, d: int)
    requires
        d > 0,
    ensures
        ceil_div(x * d, d) == x,
{
    lemma_fundamental_div_mod_converse(x * d, d, x, 0);
    assert(((x * d) / d) * d == x * d);
}

/// How the executable quotient and remainder round toward positive infinity.
proof fn lemma_ceil_div_exec(num: nat, den: nat, neg: bool)
    requires
        den > 0,
    ensures
        !neg ==> ceil_div(num as int, den as int) == (
        if num % den != 0 {
            (num / den + 1) as int
        } else {
            (num / den) as int
        }),
        neg ==> ceil_div(-(num as int), den as int) == -((num / den) as int),
{
    let d = den as int;
    let n = num as int;
    lemma_fundamental_div_mod(n, d);
    let q = n / d;
    let r = n % d;
    if !neg {
        if r == 0 {
            assert(q * d == n);
        } else {
            assert(q * d != n);
        }
    } else {
        if r == 0 {
            assert((-q) * d + 0 == -n) by (nonlinear_arith)
                requires n == d * q + 0,
            ;
            lemma_fundamental_div_mod_converse(-n, d, -q, 0);
            assert(((-n) / d) * d == -n) by (nonlinear_arith)
                requires (-n) / d == -q && n == d * q,
            ;
        } else {
            assert((-q - 1) * d + (d - r) == -n) by (nonlinear_arith)
                requires n == d * q + r,
            ;
            lemma_fundamental_div_mod_converse(-n, d, -q - 1, d - r);
            assert(((-n) / d) * d != -n) by (nonlinear_arith)
                requires (-n) / d == -q - 1 && n == d * q + r && 0 < r < d,
            ;
        }
    }
}

/// A common factor in numerator and denominator cancels out of the rounded
/// quotient.
proof fn lemma_ceil_div_scale(x: int, d: int, c: int)
    requires
        d > 0,
        c > 0,
    ensures
        ceil_div(x * c, d * c) == ceil_div(x, d),
{
    lemma_fundamental_div_mod(x, d);
    let q = x / d;
    let r = x % d;
    assert(x * c == q * (d * c) + r * c) by (nonlinear_arith)
        requires x == d * q + r,
    ;
    assert(0 <= r * c && r * c < d * c) by (nonlinear_arith)
        requires 0 <= r < d && c > 0,
    ;
    lemma_fundamental_div_mod_converse(x * c, d * c, q, r * c);
    assert((q * (d * c) == x * c) <==> (q * d == x)) by (nonlinear_arith)
        requires c > 0,
    ;
}

impl Decimal {
    /// Product, rounded toward positive infinity at ten fractional digits;
    /// fails exactly when the rounded result does not fit the caps.  The
    /// result's text is freshly rendered in canonical form.
    #[verifier::rlimit(100)]
    #[verifier::spinoff_prover]
    pub fn mul(&self, other: &Decimal) -> (r: Option<Decimal>)
        ensures
            match r {
                Some(d) => {
                    &&& representable(
                        div_round_up(scaled_val(self@) * scaled_val(other@), pow10(10) as int),
                    )
                    &&& scaled_val(d@) == div_round_up(
                        scaled_val(self@) * scaled_val(other@),
                        pow10(10) as int,
                    )
                    &&& model_inv(d@)
                    &&& d@.text == spec_render(d@.neg, d@.units, d@.scale)
                },
                None => !representable(
                    div_round_up(scaled_val(self@) * scaled_val(other@), pow10(10) as int),
                ),
            },
    {
        proof {
            use_type_invariant(self);
            use_type_invariant(other);
            lemma_pow10_values();
            lemma_pow10_adds(18, 18);
            lemma_pow10_mono(36, 38);
            assert(self@.units * other@.units < pow10(36)) by (nonlinear_arith)
                requires
                    self@.units < pow10(18) && other@.units < pow10(18) && pow10(36) == pow10(18)
                        * pow10(18),
            ;
        }
        let prod = self.units * other.units;
        let s = self.scale + other.scale;
        let neg = self.neg != other.neg;
        let ghost pa = pow10((10 - self@.scale) as nat);
        let ghost pb = pow10((10 - other@.scale) as nat);
        let ghost total = prod as nat * pow10((20 - s) as nat);
        proof {
            lemma_pow10_adds((10 - self@.scale) as nat, (10 - other@.scale) as nat);
            assert((self@.units * pa) * (other@.units * pb) == (self@.units * other@.units) * (pa
                * pb)) by (nonlinear_arith);
            assert(total == (self@.units * pa) * (other@.units * pb));
            assert(scaled_val(self@) * scaled_val(other@) == signed_mag(neg, total))
                by (nonlinear_arith)
                requires
                    scaled_val(self@) == signed_mag(self@.neg, (self@.units * pa) as nat)
                        && scaled_val(other@) == signed_mag(other@.neg, (other@.units * pb) as nat)
                        && total == (self@.units * pa) * (other@.units * pb) && neg == (self@.neg
                        != other@.neg),
            ;
        }
        if s <= 10 {
            let p = pow10_u128(10 - s);
            proof {
                lemma_pow10_adds((10 - s) as nat, 10);
                assert(total == (prod as nat * pow10((10 - s) as nat)) * pow10(10))
                    by (nonlinear_arith)
                    requires
                        total == prod as nat * pow10((20 - s) as nat) && pow10((20 - s) as nat)
                            == pow10((10 - s) as nat) * pow10(10),
                ;
                let x = (prod as nat * pow10((10 - s) as nat)) as int;
                lemma_ceil_div_exact(x, pow10(10) as int);
                lemma_ceil_div_exact(-x, pow10(10) as int);
                assert((-x) * pow10(10) == -(x * pow10(10))) by (nonlinear_arith);
                assert(div_round_up(signed_mag(neg, total), pow10(10) as int) == signed_mag(
                    neg,
                    prod as nat * pow10((10 - s) as nat),
                ));
            }
            if prod >= 1_000_000_000_000_000_000_000_000_000_0u128 {
                proof {
                    let m = prod as nat * pow10((10 - s) as nat);
                    lemma_pow10_pos((10 - s) as nat);
                    assert(m >= prod as nat) by (nonlinear_arith)
                        requires
                            m == prod as nat * pow10((10 - s) as nat) && pow10((10 - s) as nat)
                                >= 1,
                    ;
                    lemma_strip_lower(m, 10);
                    assert(pow10(28) == pow10(18) * pow10(10)) by {
                        lemma_pow10_adds(18, 10);
                    };
                    assert(strip_units(m, 10) >= pow10(18)) by (nonlinear_arith)
                        requires
                            pow10(10) * strip_units(m, 10) >= m && m >= pow10(28) && pow10(28)
                                == pow10(18) * pow10(10) && pow10(10) >= 1,
                    ;
                    assert(abs_int(signed_mag(neg, m)) == m);
                }
                return None;
            }
            proof {
                lemma_pow10_mono((10 - s) as nat, 10);
                assert(prod as nat * pow10((10 - s) as nat) < pow10(28) * pow10(10))
                    by (nonlinear_arith)
                    requires
                        (prod as nat) < pow10(28) && pow10((10 - s) as nat) <= pow10(10) && pow10(10)
                            >= 1,
                ;
                assert(pow10(38) == pow10(28) * pow10(10)) by {
                    lemma_pow10_adds(28, 10);
                };
            }
            let mag = prod * p;
            Decimal::from_scaled(neg, mag)
        } else {
            let den = pow10_u128(s - 10);
            proof {
                lemma_pow10_pos((s - 10) as nat);
            }
            let q = prod / den;
            let rem = prod % den;
            let mag = if neg {
                q
            } else if rem != 0 {
                q + 1
            } else {
                q
            };
            proof {
                lemma_pow10_adds((s - 10) as nat, (20 - s) as nat);
                lemma_pow10_pos((20 - s) as nat);
                assert(signed_mag(neg, total) == signed_mag(neg, prod as nat) * pow10(
                    (20 - s) as nat,
                )) by (nonlinear_arith)
                    requires total == prod as nat * pow10((20 - s) as nat),
                ;
                lemma_ceil_div_scale(
                    signed_mag(neg, prod as nat),
                    pow10((s - 10) as nat) as int,
                    pow10((20 - s) as nat) as int,
                );
                lemma_ceil_div_exec(prod as nat, den as nat, neg);
                assert(div_round_up(signed_mag(neg, total), pow10(10) as int) == signed_mag(
                    neg,
                    mag as nat,
                ));
            }
            Decimal::from_scaled(neg, mag)
        }
    }

    /// Quotient, rounded toward positive infinity at ten fractional digits.
    /// Fails on a zero divisor, and otherwise exactly when the rounded
    /// result does not fit the caps.  The result's text is freshly rendered
    /// in canonical form.
    #[verifier::rlimit(100)]
    #[verifier::spinoff_prover]
    pub fn div(&self, other: &Decimal) -> (r: Option<Decimal>)
        ensures
            scaled_val(other@) == 0 ==> r is None,
            scaled_val(other@) != 0 ==> match r {
                Some(d) => {
                    &&& representable(
                        div_round_up(scaled_val(self@) * pow10(10) as int, scaled_val(other@)),
                    )
                    &&& scaled_val(d@) == div_round_up(
                        scaled_val(self@) * pow10(10) as int,
                        scaled_val(other@),
                    )
                    &&& model_inv(d@)
                    &&& d@.text == spec_render(d@.neg, d@.units, d@.scale)
                },
                None => !representable(
                    div_round_up(scaled_val(self@) * pow10(10) as int, scaled_val(other@)),
                ),
            },
    {
        proof {
            use_type_invariant(self);
            use_type_invariant(other);
            lemma_pow10_pos((10 - other@.scale) as nat);
            if other@.units == 0 {
                assert(other@.units * pow10((10 - other@.scale) as nat) == 0) by (nonlinear_arith)
                    requires other@.units == 0,
                ;
            } else {
                assert(other@.units * pow10((10 - other@.scale) as nat) > 0) by (nonlinear_arith)
                    requires
                        other@.units > 0 && pow10((10 - other@.scale) as nat) >= 1,
                ;
            }
        }
        if other.units == 0 {
            return None;
        }
        let ma = self.scaled_mag();
        let mb = other.scaled_mag();
        proof {
            lemma_pow10_values();
            assert(ma as nat * pow10(10) < pow10(28) * pow10(10)) by (nonlinear_arith)
                requires (ma as nat) < pow10(28) && pow10(10) >= 1,
            ;
            assert(pow10(38) == pow10(28) * pow10(10)) by {
                lemma_pow10_adds(28, 10);
            };
        }
        let num = ma * pow10_u128(10);
        proof {
            assert(mb as nat == other@.units * pow10((10 - other@.scale) as nat));
            assert(mb > 0);
        }
        let q = num / mb;
        let rem = num % mb;
        let neg = self.neg != other.neg;
        let mag = if neg {
            q
        } else if rem != 0 {
            q + 1
        } else {
            q
        };
        proof {
            assert(scaled_val(self@) * pow10(10) as int == signed_mag(self@.neg, num as nat))
                by (nonlinear_arith)
                requires
                    scaled_val(self@) == signed_mag(self@.neg, ma as nat) && num as nat == ma as nat
                        * pow10(10),
            ;
            lemma_ceil_div_exec(num as nat, mb as nat, neg);
            assert(div_round_up(signed_mag(self@.neg, num as nat), scaled_val(other@))
                == signed_mag(neg, mag as nat));
        }
        Decimal::from_scaled(neg, mag)
    }
}

/// Renders an integer in decimal.
pub fn u64_to_dec_string(n: u64) -> (r: String)
    ensures
        r@ == dec_digits(n as nat),
{
    let mut out: Vec<char> = Vec::new();
    push_dec_digits(n as u128, &mut out);
    proof {
        assert(out@ =~= dec_digits(n as nat));
    }
    crate::chars::chars_to_string(&out)
}

// ---------------------------------------------------------------------------
// Laws
// ---------------------------------------------------------------------------

/// Normalization always ends in a normal form.
pub proof fn lemma_strip_normal(u: nat, s: nat)
    ensures
        strip_scale(u, s) > 0 ==> strip_units(u, s) % 10 != 0,
        strip_units(u, s) == 0 ==> strip_scale(u, s) == 0,
    decreases s,
{
    if s > 0 && u % 10 == 0 {
        lemma_strip_normal(u / 10, (s - 1) as nat);
    }
}

/// Decimal round-trip: any valid numeral within the supported precision
/// parses to a value whose wire text is the input itself, byte for byte.
/// Together with the contracts of `Decimal::parse` (which returns exactly
/// this model) and `Decimal::to_wire_string` (which returns the model's
/// text), re-serializing a parsed value reproduces its input.
pub proof fn lemma_decimal_round_trip(s: Seq<char>)
    requires
        valid_numeral(s),
        numeral_fits(s),
    ensures
        numeral_model(s).text == s,
        model_inv(numeral_model(s)),
{
    lemma_strip_normal(raw_units(s), raw_scale(s));
    lemma_strip_bounds(raw_units(s), raw_scale(s));
}

/// Decimal equality across representations: two valid numerals that denote
/// the same number parse to the same sign, magnitude and scale, however
/// their texts differ — so `100.50` and `100.5000` compare equal.
pub proof fn lemma_same_value_same_magnitude(s1: Seq<char>, s2: Seq<char>)
    requires
        valid_numeral(s1),
        numeral_fits(s1),
        valid_numeral(s2),
        numeral_fits(s2),
        scaled_val(numeral_model(s1)) == scaled_val(numeral_model(s2)),
    ensures
        numeral_model(s1).neg == numeral_model(s2).neg,
        numeral_model(s1).units == numeral_model(s2).units,
        numeral_model(s1).scale == numeral_model(s2).scale,
{
    lemma_decimal_round_trip(s1);
    lemma_decimal_round_trip(s2);
    lemma_value_determines_magnitude(numeral_model(s1), numeral_model(s2));
}

} // verus!
