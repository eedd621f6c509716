//! Decimal numbers as the exchange writes them: a 96-bit magnitude, a sign and a number of decimal
//! places. The arithmetic itself is that of the `rust_decimal` crate; this module fixes what the
//! rest of the library may rely on.

use rust_decimal::Decimal;
use rust_decimal::prelude::ToPrimitive;
use std::str::FromStr;
use vstd::arithmetic::div_mod::lemma_fundamental_div_mod;
use vstd::arithmetic::power::{
    lemma_pow1, lemma_pow_adds, lemma_pow_increases, lemma_pow_positive, pow,
};
use vstd::prelude::*;

use crate::text::{digits, padded};

verus! {

/// Ten to the power 28: every decimal is a whole number of steps of this size.
#[verifier::inline]
pub open spec fn unit() -> int {
    10000000000000000000000000000int
}

/// Two to the power 96: no magnitude reaches it.
#[verifier::inline]
pub open spec fn magnitude_limit() -> int {
    79228162514264337593543950336int
}

/// Two to the power 92: a result that has to be rounded is off by less than its own size divided by
/// this, or by one step.
#[verifier::inline]
pub open spec fn precision() -> int {
    4951760157141521099596496896int
}

/// The absolute value.
pub open spec fn distance(x: int) -> int {
    if x < 0 { -x } else { x }
}

/// A decimal number: a sign, a magnitude in three 32-bit words and the number of digits behind the
/// point. Zero may carry a sign.
#[derive(Clone, Copy, Debug)]
pub struct Dec {
    negative: bool,
    lo: u32,
    mid: u32,
    hi: u32,
    scale: u32,
}

impl Dec {
    /// At most 28 digits stand behind the point.
    #[verifier::type_invariant]
    pub closed spec fn wf(self) -> bool {
        self.scale <= 28
    }

    /// Whether the sign is a minus.
    pub closed spec fn minus(self) -> bool {
        self.negative
    }

    /// All the digits, read as one number.
    pub closed spec fn magnitude(self) -> nat {
        (self.lo + self.mid * 0x1_0000_0000 + self.hi * 0x1_0000_0000_0000_0000) as nat
    }

    /// How many of the digits stand behind the point.
    pub closed spec fn places(self) -> nat {
        self.scale as nat
    }

    /// The number, counted in steps of ten to the power -28.
    #[verifier::opaque]
    pub open spec fn units(self) -> int {
        let size = self.magnitude() * pow(10, (28 - self.places()) as nat);
        if self.minus() { -size } else { size }
    }
}

/// The decimal with these digits and this many of them behind the point.
pub closed spec fn lit_spec(digits: u32, places: u32) -> Dec {
    Dec { negative: false, lo: digits, mid: 0, hi: 0, scale: places }
}

/// What a literal stands for.
pub broadcast proof fn lemma_lit(digits: u32, places: u32)
    ensures
        !(#[trigger] lit_spec(digits, places)).minus(),
        lit_spec(digits, places).magnitude() == digits,
        lit_spec(digits, places).places() == places,
        places <= 28 ==> lit_spec(digits, places).wf(),
{
}

/// The decimal with these digits and this many of them behind the point.
#[verifier::when_used_as_spec(lit_spec)]
pub fn lit(digits: u32, places: u32) -> (r: Dec)
    requires
        places <= 28,
    ensures
        r == lit_spec(digits, places),
{
    Dec { negative: false, lo: digits, mid: 0, hi: 0, scale: places }
}

/// The value of a literal with four places at most.
pub proof fn lemma_lit_units(digits: u32, places: u32)
    requires
        places <= 4,
    ensures
        places == 0 ==> lit(digits, places).units() == digits * unit(),
        places == 1 ==> lit(digits, places).units() == digits * (unit() / 10),
        places == 2 ==> lit(digits, places).units() == digits * (unit() / 100),
        places == 3 ==> lit(digits, places).units() == digits * (unit() / 1000),
        places == 4 ==> lit(digits, places).units() == digits * (unit() / 10000),
{
    reveal(Dec::units);
    reveal_with_fuel(pow, 30);
    lemma_lit(digits, places);
}

/// Two decimals with the same sign, digits and places are the same.
pub proof fn lemma_same_parts(a: Dec, b: Dec)
    requires
        a.minus() == b.minus(),
        a.magnitude() == b.magnitude(),
        a.places() == b.places(),
    ensures
        a == b,
{
}

/// The value has the sign of the decimal, and is zero only where all its digits are.
pub broadcast proof fn lemma_units_sign(a: Dec)
    ensures
        #[trigger] a.units() == 0 <==> a.magnitude() == 0,
        a.minus() ==> a.units() <= 0,
        !a.minus() ==> a.units() >= 0,
{
    reveal(Dec::units);
    let k = (28 - a.places()) as nat;
    lemma_pow_positive(10, k);
    let m = a.magnitude() as int;
    let p = pow(10, k);
    assert(m * p >= 0 && (m * p == 0 <==> m == 0)) by (nonlinear_arith)
        requires
            m >= 0,
            p > 0,
    ;
}

/// No value is as large as the limit of the magnitude.
pub proof fn lemma_units_bound(a: Dec)
    requires
        a.wf(),
    ensures
        distance(a.units()) < magnitude_limit() * unit(),
{
    reveal(Dec::units);
    let k = (28 - a.places()) as nat;
    lemma_pow_positive(10, k);
    lemma_pow_increases(10, k, 28);
    lemma_unit();
    let m = a.magnitude() as int;
    let p = pow(10, k);
    assert(a.magnitude() < magnitude_limit());
    assert(0 <= m * p < magnitude_limit() * unit()) by (nonlinear_arith)
        requires
            0 <= m < magnitude_limit(),
            0 < p <= unit(),
    ;
}

/// Whether a value of this size can be written with so many digits behind the point.
pub open spec fn fits(size: int, places: nat) -> bool {
    size < magnitude_limit() * pow(10, (28 - places) as nat)
}

/// A whole number of times a decimal is a decimal again, where it is not too large.
pub proof fn lemma_multiple(a: Dec, k: int) -> (e: Dec)
    requires
        a.wf(),
        fits(distance(k * a.units()), a.places()),
    ensures
        e.wf(),
        e.units() == k * a.units(),
{
    reveal(Dec::units);
    let p = pow(10, (28 - a.places()) as nat);
    lemma_pow_positive(10, (28 - a.places()) as nat);
    let g = a.magnitude() as int;
    let m = distance(k) * g;
    let minus = (k < 0) != a.minus();
    assert(k * a.units() == if minus { -(m * p) } else { m * p }) by (nonlinear_arith)
        requires
            a.units() == if a.minus() { -(g * p) } else { g * p },
            m == distance(k) * g,
            minus == ((k < 0) != a.minus()),
    ;
    assert(m >= 0 && m * p >= 0) by (nonlinear_arith)
        requires
            m == distance(k) * g,
            g >= 0,
            p > 0,
    ;
    assert(m < magnitude_limit()) by (nonlinear_arith)
        requires
            m * p < magnitude_limit() * p,
            p > 0,
    ;
    let e = Dec {
        negative: minus,
        lo: (m % 0x1_0000_0000) as u32,
        mid: (m / 0x1_0000_0000 % 0x1_0000_0000) as u32,
        hi: (m / 0x1_0000_0000_0000_0000) as u32,
        scale: a.scale,
    };
    assert(e.magnitude() == m);
    e
}

/// A whole number is a decimal, where it is not too large.
pub proof fn lemma_whole(k: int) -> (e: Dec)
    requires
        distance(k) < magnitude_limit(),
    ensures
        e.wf(),
        e.units() == k * unit(),
{
    let one = lit_spec(1, 0);
    lemma_lit(1, 0);
    lemma_lit_units(1, 0);
    lemma_unit();
    assert(one.units() == unit());
    assert(distance(k * unit()) < magnitude_limit() * unit()) by (nonlinear_arith)
        requires
            distance(k) < magnitude_limit(),
    ;
    lemma_multiple(one, k)
}

/// `x / y` steps, where `y` is positive, brought to a decimal: the exact value where a decimal has
/// it, else one close by; nothing only where no decimal is that large.
pub open spec fn rounded(r: Option<Dec>, x: int, y: int) -> bool {
    match r {
        Some(d) => {
            &&& distance(d.units() * y - x) * precision() <= y * precision() + distance(x)
            &&& forall|e: Dec| e.wf() && #[trigger] e.units() * y == x ==> d.units() == e.units()
        },
        None => distance(x) >= (magnitude_limit() - 1) * unit() * y,
    }
}

/// The sum that `Decimal::checked_add` computes.
pub uninterp spec fn sum_of(a: Dec, b: Dec) -> Option<Dec>;

/// The difference that `Decimal::checked_sub` computes.
pub uninterp spec fn difference_of(a: Dec, b: Dec) -> Option<Dec>;

/// The product that `Decimal::checked_mul` computes.
pub uninterp spec fn product_of(a: Dec, b: Dec) -> Option<Dec>;

/// The quotient that `Decimal::checked_div` computes.
pub uninterp spec fn quotient_of(a: Dec, b: Dec) -> Option<Dec>;

/// `Decimal::checked_add`: the sum, exact where a decimal has it and else rounded to the digits
/// that fit; nothing where it is too large.
#[verifier::external_body]
pub(crate) fn checked_add(a: Dec, b: Dec) -> (r: Option<Dec>)
    ensures
        r == sum_of(a, b),
        rounded(r, a.units() + b.units(), 1),
{
    let mut x = Decimal::from_parts(a.lo, a.mid, a.hi, false, a.scale);
    x.set_sign_negative(a.negative);
    let mut y = Decimal::from_parts(b.lo, b.mid, b.hi, false, b.scale);
    y.set_sign_negative(b.negative);
    let u = x.checked_add(y)?.unpack();
    Some(Dec { negative: u.negative, lo: u.lo, mid: u.mid, hi: u.hi, scale: u.scale })
}

/// `Decimal::checked_sub`: the difference, exact where a decimal has it and else rounded to the
/// digits that fit; nothing where it is too large.
#[verifier::external_body]
pub(crate) fn checked_sub(a: Dec, b: Dec) -> (r: Option<Dec>)
    ensures
        r == difference_of(a, b),
        rounded(r, a.units() - b.units(), 1),
{
    let mut x = Decimal::from_parts(a.lo, a.mid, a.hi, false, a.scale);
    x.set_sign_negative(a.negative);
    let mut y = Decimal::from_parts(b.lo, b.mid, b.hi, false, b.scale);
    y.set_sign_negative(b.negative);
    let u = x.checked_sub(y)?.unpack();
    Some(Dec { negative: u.negative, lo: u.lo, mid: u.mid, hi: u.hi, scale: u.scale })
}

/// `Decimal::checked_mul`: the product, exact where a decimal has it and else rounded to the digits
/// that fit; nothing where it is too large.
#[verifier::external_body]
pub(crate) fn checked_mul(a: Dec, b: Dec) -> (r: Option<Dec>)
    ensures
        r == product_of(a, b),
        rounded(r, a.units() * b.units(), unit()),
{
    let mut x = Decimal::from_parts(a.lo, a.mid, a.hi, false, a.scale);
    x.set_sign_negative(a.negative);
    let mut y = Decimal::from_parts(b.lo, b.mid, b.hi, false, b.scale);
    y.set_sign_negative(b.negative);
    let u = x.checked_mul(y)?.unpack();
    Some(Dec { negative: u.negative, lo: u.lo, mid: u.mid, hi: u.hi, scale: u.scale })
}

/// `Decimal::checked_div`: the quotient, exact where a decimal has it and else rounded to the digits
/// that fit; nothing where it is too large or the divisor is zero.
#[verifier::external_body]
pub(crate) fn checked_div(a: Dec, b: Dec) -> (r: Option<Dec>)
    ensures
        r == quotient_of(a, b),
        b.units() == 0 ==> r is None,
        b.units() > 0 ==> rounded(r, a.units() * unit(), b.units()),
        b.units() < 0 ==> rounded(r, -(a.units() * unit()), -b.units()),
{
    let mut x = Decimal::from_parts(a.lo, a.mid, a.hi, false, a.scale);
    x.set_sign_negative(a.negative);
    let mut y = Decimal::from_parts(b.lo, b.mid, b.hi, false, b.scale);
    y.set_sign_negative(b.negative);
    let u = x.checked_div(y)?.unpack();
    Some(Dec { negative: u.negative, lo: u.lo, mid: u.mid, hi: u.hi, scale: u.scale })
}

/// `Decimal`'s `<`: the order of the values.
#[verifier::external_body]
pub(crate) fn smaller_than(a: Dec, b: Dec) -> (r: bool)
    ensures
        r == (a.units() < b.units()),
{
    let mut x = Decimal::from_parts(a.lo, a.mid, a.hi, false, a.scale);
    x.set_sign_negative(a.negative);
    let mut y = Decimal::from_parts(b.lo, b.mid, b.hi, false, b.scale);
    y.set_sign_negative(b.negative);
    x < y
}

/// The whole number at or below a decimal, with the decimal's sign.
pub open spec fn is_floor(r: Dec, a: Dec) -> bool {
    &&& r.places() == 0
    &&& r.minus() == a.minus()
    &&& r.units() <= a.units() < r.units() + unit()
}

/// The whole number at or above a decimal, with the decimal's sign.
pub open spec fn is_ceiling(r: Dec, a: Dec) -> bool {
    &&& r.places() == 0
    &&& r.minus() == a.minus()
    &&& r.units() - unit() < a.units() <= r.units()
}

/// A decimal brought to at most `places` digits behind the point: the nearest one, the one with an
/// even last digit where two are equally near.
pub open spec fn is_rounded_to(r: Dec, a: Dec, places: nat) -> bool {
    if a.places() <= places {
        r == a
    } else {
        let step = pow(10, (28 - places) as nat);
        &&& r.places() == places
        &&& r.minus() == (a.minus() && (r.magnitude() > 0 || a.magnitude() == 0))
        &&& 2 * distance(r.units() - a.units()) <= step
        &&& 2 * distance(r.units() - a.units()) == step ==> r.magnitude() % 2 == 0
    }
}

/// The same value with no zeros at the end of its fraction, and no sign on a zero.
pub open spec fn is_normal_form(r: Dec, a: Dec) -> bool {
    &&& r.units() == a.units()
    &&& r.minus() == (a.minus() && a.magnitude() > 0)
    &&& r.places() == 0 || r.magnitude() % 10 != 0
}

/// `Decimal::floor`: the whole number at or below the value.
#[verifier::external_body]
pub(crate) fn whole_below(a: Dec) -> (r: Dec)
    ensures
        is_floor(r, a),
{
    let mut x = Decimal::from_parts(a.lo, a.mid, a.hi, false, a.scale);
    x.set_sign_negative(a.negative);
    let u = x.floor().unpack();
    Dec { negative: u.negative, lo: u.lo, mid: u.mid, hi: u.hi, scale: u.scale }
}

/// `Decimal::ceil`: the whole number at or above the value.
#[verifier::external_body]
pub(crate) fn whole_above(a: Dec) -> (r: Dec)
    ensures
        is_ceiling(r, a),
{
    let mut x = Decimal::from_parts(a.lo, a.mid, a.hi, false, a.scale);
    x.set_sign_negative(a.negative);
    let u = x.ceil().unpack();
    Dec { negative: u.negative, lo: u.lo, mid: u.mid, hi: u.hi, scale: u.scale }
}

/// `Decimal::round_dp`: the nearest decimal with at most that many places, ties to the even digit.
#[verifier::external_body]
pub(crate) fn round_places(a: Dec, places: u32) -> (r: Dec)
    requires
        places <= 28,
    ensures
        is_rounded_to(r, a, places as nat),
{
    let mut x = Decimal::from_parts(a.lo, a.mid, a.hi, false, a.scale);
    x.set_sign_negative(a.negative);
    let u = x.round_dp(places).unpack();
    Dec { negative: u.negative, lo: u.lo, mid: u.mid, hi: u.hi, scale: u.scale }
}

/// `Decimal::normalize`: the same value without trailing zeros, a negative zero made positive.
#[verifier::external_body]
pub(crate) fn trim_zeros(a: Dec) -> (r: Dec)
    ensures
        is_normal_form(r, a),
{
    let mut x = Decimal::from_parts(a.lo, a.mid, a.hi, false, a.scale);
    x.set_sign_negative(a.negative);
    let u = x.normalize().unpack();
    Dec { negative: u.negative, lo: u.lo, mid: u.mid, hi: u.hi, scale: u.scale }
}

proof fn lemma_one_floor(r: Dec, s: Dec, a: Dec)
    requires
        is_floor(r, a) && is_floor(s, a) || is_ceiling(r, a) && is_ceiling(s, a),
    ensures
        r == s,
{
    reveal(Dec::units);
    lemma_unit();
    let x = r.magnitude() as int;
    let y = s.magnitude() as int;
    let u = unit();
    assert(x == y) by (nonlinear_arith)
        requires
            x * u - y * u < u,
            y * u - x * u < u,
            u > 0,
    ;
    lemma_same_parts(r, s);
}

/// Ten to the power 28, by its name.
pub proof fn lemma_unit()
    ensures
        pow(10, 28) == unit(),
        pow(10, 0) == 1,
{
    reveal_with_fuel(pow, 30);
}

proof fn lemma_one_rounding(r: Dec, s: Dec, a: Dec, places: nat)
    requires
        places <= 28,
        is_rounded_to(r, a, places),
        is_rounded_to(s, a, places),
    ensures
        r == s,
{
    if a.places() > places {
        reveal(Dec::units);
        let k = pow(10, (28 - places) as nat);
        lemma_pow_positive(10, (28 - places) as nat);
        let x = if r.minus() { -(r.magnitude() as int) } else { r.magnitude() as int };
        let y = if s.minus() { -(s.magnitude() as int) } else { s.magnitude() as int };
        assert(r.units() == x * k) by (nonlinear_arith)
            requires
                r.units() == if r.minus() { -(r.magnitude() * k) } else { r.magnitude() * k },
                x == if r.minus() { -(r.magnitude() as int) } else { r.magnitude() as int },
        ;
        assert(s.units() == y * k) by (nonlinear_arith)
            requires
                s.units() == if s.minus() { -(s.magnitude() * k) } else { s.magnitude() * k },
                y == if s.minus() { -(s.magnitude() as int) } else { s.magnitude() as int },
        ;
        let u = a.units();
        assert(-1 <= x - y <= 1) by (nonlinear_arith)
            requires
                2 * distance(x * k - u) <= k,
                2 * distance(y * k - u) <= k,
                k > 0,
        ;
        if x != y {
            assert(2 * distance(x * k - u) == k && 2 * distance(y * k - u) == k)
                by (nonlinear_arith)
                requires
                    2 * distance(x * k - u) <= k,
                    2 * distance(y * k - u) <= k,
                    x == y + 1 || y == x + 1,
                    k > 0,
            ;
        }
        lemma_units_sign(a);
        lemma_same_parts(r, s);
    }
}

proof fn lemma_one_normal_form(r: Dec, s: Dec, a: Dec)
    requires
        r.wf(),
        s.wf(),
        is_normal_form(r, a),
        is_normal_form(s, a),
    ensures
        r == s,
{
    lemma_units_sign(a);
    lemma_units_sign(r);
    lemma_units_sign(s);
    lemma_fewest_places(r, s);
    lemma_fewest_places(s, r);
    reveal(Dec::units);
    let k = pow(10, (28 - r.places()) as nat);
    lemma_pow_positive(10, (28 - r.places()) as nat);
    let x = r.magnitude() as int;
    let y = s.magnitude() as int;
    assert(x == y) by (nonlinear_arith)
        requires
            x * k == y * k,
            k > 0,
    ;
    lemma_same_parts(r, s);
}

proof fn lemma_fewest_places(r: Dec, s: Dec)
    requires
        r.wf(),
        s.wf(),
        r.minus() == s.minus(),
        r.units() == s.units(),
        s.places() == 0 || s.magnitude() % 10 != 0,
    ensures
        s.places() <= r.places(),
{
    if r.places() < s.places() {
        reveal(Dec::units);
        let k = pow(10, (28 - s.places()) as nat);
        lemma_pow_positive(10, (28 - s.places()) as nat);
        let j = pow(10, (s.places() - r.places()) as nat);
        lemma_pow_adds(10, (28 - s.places()) as nat, (s.places() - r.places()) as nat);
        lemma_pow_adds(10, 1, (s.places() - r.places() - 1) as nat);
        lemma_pow1(10);
        let i = pow(10, (s.places() - r.places() - 1) as nat);
        let x = r.magnitude() as int;
        let y = s.magnitude() as int;
        assert(y == 10 * (x * i)) by (nonlinear_arith)
            requires
                x * (k * j) == y * k,
                j == 10 * i,
                k > 0,
        ;
    }
}

/// The whole number at or below a decimal.
pub open spec fn floor_spec(a: Dec) -> Dec {
    choose|r: Dec| is_floor(r, a)
}

/// The whole number at or above a decimal.
pub open spec fn ceiling_spec(a: Dec) -> Dec {
    choose|r: Dec| is_ceiling(r, a)
}

/// The nearest decimal with at most that many places.
pub open spec fn round_spec(a: Dec, places: u32) -> Dec {
    choose|r: Dec| is_rounded_to(r, a, places as nat)
}

/// The same value with no zeros at the end of its fraction.
pub open spec fn normal_spec(a: Dec) -> Dec {
    choose|r: Dec| r.wf() && is_normal_form(r, a)
}

/// The whole number at or below a decimal.
#[verifier::when_used_as_spec(floor_spec)]
pub fn floor(a: Dec) -> (r: Dec)
    ensures
        r == floor_spec(a),
        is_floor(r, a),
{
    let r = whole_below(a);
    proof {
        lemma_one_floor(r, floor_spec(a), a);
    }
    r
}

/// The whole number at or above a decimal.
#[verifier::when_used_as_spec(ceiling_spec)]
pub fn ceiling(a: Dec) -> (r: Dec)
    ensures
        r == ceiling_spec(a),
        is_ceiling(r, a),
{
    let r = whole_above(a);
    proof {
        lemma_one_floor(r, ceiling_spec(a), a);
    }
    r
}

/// The nearest decimal with at most that many places, ties to the even digit.
#[verifier::when_used_as_spec(round_spec)]
pub fn round(a: Dec, places: u32) -> (r: Dec)
    requires
        places <= 28,
    ensures
        r == round_spec(a, places),
        is_rounded_to(r, a, places as nat),
{
    let r = round_places(a, places);
    proof {
        lemma_one_rounding(r, round_spec(a, places), a, places as nat);
    }
    r
}

/// The same value with no zeros at the end of its fraction.
#[verifier::when_used_as_spec(normal_spec)]
pub fn normal(a: Dec) -> (r: Dec)
    ensures
        r == normal_spec(a),
        is_normal_form(r, a),
{
    let r = trim_zeros(a);
    proof {
        use_type_invariant(&r);
        lemma_one_normal_form(r, normal_spec(a), a);
    }
    r
}

/// A decimal as a message shows it: rounded to some places, without zeros at the end.
pub open spec fn shown_spec(a: Dec, places: u32) -> Dec {
    normal_spec(round_spec(a, places))
}

/// A decimal as a message shows it: rounded to some places, without zeros at the end.
#[verifier::when_used_as_spec(shown_spec)]
pub fn shown(a: Dec, places: u32) -> (r: Dec)
    requires
        places <= 28,
    ensures
        r == shown_spec(a, places),
{
    normal(round(a, places))
}

/// How a decimal is written: a minus where it has one, the whole part, and all its places behind a
/// point where it has any.
pub open spec fn text_of_dec(a: Dec) -> Seq<char> {
    let base = pow(10, a.places());
    let sign = if a.minus() { seq!['-'] } else { Seq::<char>::empty() };
    let whole = digits((a.magnitude() as int / base) as nat);
    if a.places() == 0 {
        sign + whole
    } else {
        sign + whole + seq!['.'] + padded((a.magnitude() as int % base) as nat, a.places())
    }
}

/// `Decimal`'s `to_string`: sign, whole part and places.
#[verifier::external_body]
pub(crate) fn dec_text(a: Dec) -> (r: String)
    ensures
        r@ == text_of_dec(a),
{
    let mut x = Decimal::from_parts(a.lo, a.mid, a.hi, false, a.scale);
    x.set_sign_negative(a.negative);
    x.to_string()
}

/// The decimal that `Decimal::from_str` reads from a text.
pub uninterp spec fn dec_of_text(s: Seq<char>) -> Option<Dec>;

/// `Decimal::from_str`: the decimal that a text writes, in plain or scientific notation; nothing
/// where it writes none.
#[verifier::external_body]
pub(crate) fn parse_dec(s: &str) -> (r: Option<Dec>)
    ensures
        r == dec_of_text(s@),
{
    let u = Decimal::from_str(s).ok()?.unpack();
    Some(Dec { negative: u.negative, lo: u.lo, mid: u.mid, hi: u.hi, scale: u.scale })
}

/// The whole part of a decimal as a number of 32 bits, for a decimal without a minus.
pub open spec fn whole_u32(a: Dec) -> Option<u32> {
    let whole = a.units() / unit();
    if a.minus() || whole > u32::MAX { None } else { Some(whole as u32) }
}

/// `Decimal`'s `to_u32`: the whole part, where the sign is plus and it fits.
#[verifier::external_body]
pub(crate) fn to_u32(a: Dec) -> (r: Option<u32>)
    ensures
        r == whole_u32(a),
{
    let mut x = Decimal::from_parts(a.lo, a.mid, a.hi, false, a.scale);
    x.set_sign_negative(a.negative);
    x.to_u32()
}

/// The sum of two results.
pub open spec fn sum_spec(a: Option<Dec>, b: Option<Dec>) -> Option<Dec> {
    match (a, b) {
        (Some(x), Some(y)) => sum_of(x, y),
        _ => None,
    }
}

/// The difference of two results.
pub open spec fn difference_spec(a: Option<Dec>, b: Option<Dec>) -> Option<Dec> {
    match (a, b) {
        (Some(x), Some(y)) => difference_of(x, y),
        _ => None,
    }
}

/// The product of two results.
pub open spec fn product_spec(a: Option<Dec>, b: Option<Dec>) -> Option<Dec> {
    match (a, b) {
        (Some(x), Some(y)) => product_of(x, y),
        _ => None,
    }
}

/// The quotient of two results.
pub open spec fn quotient_spec(a: Option<Dec>, b: Option<Dec>) -> Option<Dec> {
    match (a, b) {
        (Some(x), Some(y)) => quotient_of(x, y),
        _ => None,
    }
}

/// The sum of two results, nothing where one of them is missing.
#[verifier::when_used_as_spec(sum_spec)]
pub fn sum(a: Option<Dec>, b: Option<Dec>) -> (r: Option<Dec>)
    ensures
        r == sum_spec(a, b),
        a is Some && b is Some ==> rounded(r, a->0.units() + b->0.units(), 1),
{
    match (a, b) {
        (Some(x), Some(y)) => checked_add(x, y),
        _ => None,
    }
}

/// The difference of two results, nothing where one of them is missing.
#[verifier::when_used_as_spec(difference_spec)]
pub fn difference(a: Option<Dec>, b: Option<Dec>) -> (r: Option<Dec>)
    ensures
        r == difference_spec(a, b),
        a is Some && b is Some ==> rounded(r, a->0.units() - b->0.units(), 1),
{
    match (a, b) {
        (Some(x), Some(y)) => checked_sub(x, y),
        _ => None,
    }
}

/// The product of two results, nothing where one of them is missing.
#[verifier::when_used_as_spec(product_spec)]
pub fn product(a: Option<Dec>, b: Option<Dec>) -> (r: Option<Dec>)
    ensures
        r == product_spec(a, b),
        a is Some && b is Some ==> rounded(r, a->0.units() * b->0.units(), unit()),
{
    match (a, b) {
        (Some(x), Some(y)) => checked_mul(x, y),
        _ => None,
    }
}

/// The quotient of two results, nothing where one of them is missing or the divisor is zero.
#[verifier::when_used_as_spec(quotient_spec)]
pub fn quotient(a: Option<Dec>, b: Option<Dec>) -> (r: Option<Dec>)
    ensures
        r == quotient_spec(a, b),
        b is Some && b->0.units() == 0 ==> r is None,
        a is Some && b is Some && b->0.units() > 0 ==> rounded(
            r,
            a->0.units() * unit(),
            b->0.units(),
        ),
        a is Some && b is Some && b->0.units() < 0 ==> rounded(
            r,
            -(a->0.units() * unit()),
            -b->0.units(),
        ),
{
    match (a, b) {
        (Some(x), Some(y)) => checked_div(x, y),
        _ => None,
    }
}

/// The opposite: the other sign, the same digits.
pub closed spec fn opposite_spec(a: Dec) -> Dec {
    Dec { negative: !a.negative, ..a }
}

/// The same digits without a minus.
pub closed spec fn absolute_spec(a: Dec) -> Dec {
    Dec { negative: false, ..a }
}

/// What the opposite of a decimal is.
pub broadcast proof fn lemma_opposite(a: Dec)
    ensures
        #[trigger] opposite_spec(a).minus() == !a.minus(),
        opposite_spec(a).magnitude() == a.magnitude(),
        opposite_spec(a).places() == a.places(),
        opposite_spec(a).wf() == a.wf(),
        opposite_spec(a).units() == -a.units(),
{
    reveal(Dec::units);
}

/// What a decimal without its sign is.
pub broadcast proof fn lemma_absolute(a: Dec)
    ensures
        !(#[trigger] absolute_spec(a)).minus(),
        absolute_spec(a).magnitude() == a.magnitude(),
        absolute_spec(a).places() == a.places(),
        absolute_spec(a).wf() == a.wf(),
        absolute_spec(a).units() == distance(a.units()),
{
    reveal(Dec::units);
    lemma_units_sign(a);
}

/// The opposite of a decimal.
#[verifier::when_used_as_spec(opposite_spec)]
pub fn opposite(a: Dec) -> (r: Dec)
    ensures
        r == opposite_spec(a),
{
    proof {
        use_type_invariant(&a);
    }
    Dec { negative: !a.negative, lo: a.lo, mid: a.mid, hi: a.hi, scale: a.scale }
}

/// A decimal without its sign.
#[verifier::when_used_as_spec(absolute_spec)]
pub fn absolute(a: Dec) -> (r: Dec)
    ensures
        r == absolute_spec(a),
{
    proof {
        use_type_invariant(&a);
    }
    Dec { negative: false, lo: a.lo, mid: a.mid, hi: a.hi, scale: a.scale }
}

/// The larger of two decimals, the first where they are equal.
pub open spec fn larger_spec(a: Dec, b: Dec) -> Dec {
    if a.units() < b.units() { b } else { a }
}

/// The smaller of two decimals, the first where they are equal.
pub open spec fn smaller_spec(a: Dec, b: Dec) -> Dec {
    if a.units() > b.units() { b } else { a }
}

/// The larger of two decimals, the first where they are equal.
#[verifier::when_used_as_spec(larger_spec)]
pub fn larger(a: Dec, b: Dec) -> (r: Dec)
    ensures
        r == larger_spec(a, b),
{
    if smaller_than(a, b) { b } else { a }
}

/// The smaller of two decimals, the first where they are equal.
#[verifier::when_used_as_spec(smaller_spec)]
pub fn smaller(a: Dec, b: Dec) -> (r: Dec)
    ensures
        r == smaller_spec(a, b),
{
    if smaller_than(b, a) { b } else { a }
}

impl Dec {
    /// The decimal that a text writes.
    pub fn read(s: &str) -> (r: Option<Dec>)
        ensures
            r == dec_of_text(s@),
    {
        parse_dec(s)
    }

    /// The text of the decimal.
    pub fn text(&self) -> (r: String)
        ensures
            r@ == text_of_dec(*self),
    {
        dec_text(*self)
    }

    /// The decimal of these parts, where no more than 28 of its digits stand behind the point.
    pub fn from_parts(negative: bool, lo: u32, mid: u32, hi: u32, scale: u32) -> (r: Option<Dec>)
        ensures
            r is Some <==> scale <= 28,
            r matches Some(d) ==> d.minus() == negative && d.places() == scale && d.magnitude()
                == lo + mid * 0x1_0000_0000 + hi * 0x1_0000_0000_0000_0000,
    {
        if scale <= 28 { Some(Dec { negative, lo, mid, hi, scale }) } else { None }
    }

    /// The sign, the three words of the magnitude, lowest first, and the number of places.
    pub fn parts(&self) -> (r: (bool, u32, u32, u32, u32))
        ensures
            r.0 == self.minus(),
            r.1 + r.2 * 0x1_0000_0000 + r.3 * 0x1_0000_0000_0000_0000 == self.magnitude(),
            r.4 == self.places(),
    {
        (self.negative, self.lo, self.mid, self.hi, self.scale)
    }

    /// Whether the sign is a minus.
    pub fn is_minus(&self) -> (r: bool)
        ensures
            r == self.minus(),
    {
        self.negative
    }

    /// Whether the value is zero.
    pub fn is_zero(&self) -> (r: bool)
        ensures
            r == (self.units() == 0),
    {
        proof {
            lemma_units_sign(*self);
        }
        self.lo == 0 && self.mid == 0 && self.hi == 0
    }

    /// Whether the value is above zero.
    pub fn is_positive(&self) -> (r: bool)
        ensures
            r == (self.units() > 0),
    {
        proof {
            lemma_units_sign(*self);
        }
        !self.is_zero() && !self.negative
    }

    /// Whether the value is below zero.
    pub fn is_negative(&self) -> (r: bool)
        ensures
            r == (self.units() < 0),
    {
        proof {
            lemma_units_sign(*self);
        }
        !self.is_zero() && self.negative
    }

    /// Whether the value is below that of another decimal.
    pub fn below(&self, other: Dec) -> (r: bool)
        ensures
            r == (self.units() < other.units()),
    {
        smaller_than(*self, other)
    }

    /// Whether the value is above that of another decimal.
    pub fn above(&self, other: Dec) -> (r: bool)
        ensures
            r == (self.units() > other.units()),
    {
        smaller_than(other, *self)
    }

    /// Whether the value is that of another decimal.
    pub fn equals(&self, other: Dec) -> (r: bool)
        ensures
            r == (self.units() == other.units()),
    {
        !smaller_than(*self, other) && !smaller_than(other, *self)
    }
}

/// A result, or another decimal in its place.
pub open spec fn or_else_spec(a: Option<Dec>, other: Dec) -> Dec {
    match a {
        Some(d) => d,
        None => other,
    }
}

/// A result, or another decimal in its place.
#[verifier::when_used_as_spec(or_else_spec)]
pub fn or_else(a: Option<Dec>, other: Dec) -> (r: Dec)
    ensures
        r == or_else_spec(a, other),
{
    match a {
        Some(d) => d,
        None => other,
    }
}

/// The decimal zero.
pub open spec fn zero_spec() -> Dec {
    lit_spec(0, 0)
}

/// The decimal zero.
#[verifier::when_used_as_spec(zero_spec)]
pub fn zero() -> (r: Dec)
    ensures
        r == zero_spec(),
        r.units() == 0,
{
    let r = lit(0, 0);
    proof {
        lemma_lit(0, 0);
        lemma_units_sign(r);
    }
    r
}

/// What the operations on decimals promise of their results, said of all decimals at once: sums, differences,
/// products and quotients are the exact values brought to a decimal, and a decimal is brought to a whole
/// number, to some places or to its shortest form as described above. Laws on figures that were computed in
/// several steps are stated under it.
#[verifier::opaque]
pub open spec fn arithmetic() -> bool {
    &&& forall|a: Dec, b: Dec|
        a.wf() && b.wf() ==> promised(#[trigger] sum_of(a, b), a.units() + b.units(), 1)
    &&& forall|a: Dec, b: Dec|
        a.wf() && b.wf() ==> promised(#[trigger] difference_of(a, b), a.units() - b.units(), 1)
    &&& forall|a: Dec, b: Dec|
        a.wf() && b.wf() ==> promised(#[trigger] product_of(a, b), a.units() * b.units(), unit())
    &&& forall|a: Dec, b: Dec|
        a.wf() && b.wf() ==> {
            &&& b.units() == 0 ==> #[trigger] quotient_of(a, b) is None
            &&& b.units() > 0 ==> promised(quotient_of(a, b), a.units() * unit(), b.units())
            &&& b.units() < 0 ==> promised(quotient_of(a, b), -(a.units() * unit()), -b.units())
        }
    &&& forall|a: Dec| a.wf() ==> is_floor(#[trigger] floor(a), a) && floor(a).wf()
    &&& forall|a: Dec| a.wf() ==> is_ceiling(#[trigger] ceiling(a), a) && ceiling(a).wf()
    &&& forall|a: Dec| a.wf() ==> is_normal_form(#[trigger] normal(a), a) && normal(a).wf()
    &&& forall|a: Dec, places: u32|
        a.wf() && places <= 28 ==> is_rounded_to(#[trigger] round(a, places), a, places as nat)
            && round(a, places).wf()
}

/// A result of an operation: what `rounded` says of it, and that it is a decimal.
pub open spec fn promised(r: Option<Dec>, x: int, y: int) -> bool {
    rounded(r, x, y) && (r is Some ==> r->0.wf())
}

pub proof fn lemma_sum(a: Dec, b: Dec)
    requires
        arithmetic(),
        a.wf(),
        b.wf(),
    ensures
        promised(sum_of(a, b), a.units() + b.units(), 1),
{
    reveal(arithmetic);
}

pub proof fn lemma_difference(a: Dec, b: Dec)
    requires
        arithmetic(),
        a.wf(),
        b.wf(),
    ensures
        promised(difference_of(a, b), a.units() - b.units(), 1),
{
    reveal(arithmetic);
}

pub proof fn lemma_product(a: Dec, b: Dec)
    requires
        arithmetic(),
        a.wf(),
        b.wf(),
    ensures
        promised(product_of(a, b), a.units() * b.units(), unit()),
{
    reveal(arithmetic);
}

pub proof fn lemma_quotient(a: Dec, b: Dec)
    requires
        arithmetic(),
        a.wf(),
        b.wf(),
    ensures
        b.units() == 0 ==> quotient_of(a, b) is None,
        b.units() > 0 ==> promised(quotient_of(a, b), a.units() * unit(), b.units()),
        b.units() < 0 ==> promised(quotient_of(a, b), -(a.units() * unit()), -b.units()),
{
    reveal(arithmetic);
}

pub proof fn lemma_normal(a: Dec)
    requires
        arithmetic(),
        a.wf(),
    ensures
        normal(a).units() == a.units(),
        normal(a).wf(),
{
    reveal(arithmetic);
}

/// A rounded result has the sign of the exact one, and is not zero where the exact one is two steps or more.
pub proof fn lemma_rounded_sign(r: Dec, x: int, y: int)
    requires
        y > 0,
        rounded(Some(r), x, y),
    ensures
        x >= 0 ==> r.units() >= 0,
        x <= 0 ==> r.units() <= 0,
        x >= 2 * y ==> r.units() > 0,
        x <= -2 * y ==> r.units() < 0,
{
    let d = r.units();
    let p = precision();
    let dy = d * y;
    if x == 0 {
        let none = zero_spec();
        lemma_lit(0, 0);
        lemma_units_sign(none);
        assert(none.units() * y == 0);
    }
    if x > 0 {
        assert(dy > -y) by {
            assert(dy * p >= x * p - y * p - x);
            assert(x * p > x);
        }
        assert(d >= 0) by (nonlinear_arith)
            requires
                dy == d * y,
                dy > -y,
                y > 0,
        ;
    }
    if x < 0 {
        assert(dy < y) by {
            assert(dy * p <= x * p + y * p - x);
            assert(x * p < x);
        }
        assert(d <= 0) by (nonlinear_arith)
            requires
                dy == d * y,
                dy < y,
                y > 0,
        ;
    }
    if x >= 2 * y {
        assert(dy * p >= x * p - y * p - x);
        assert(dy > 0);
        assert(d > 0) by (nonlinear_arith)
            requires
                dy == d * y,
                dy > 0,
                y > 0,
        ;
    }
    if x <= -2 * y {
        assert(dy * p <= x * p + y * p - x);
        assert(dy < 0);
        assert(d < 0) by (nonlinear_arith)
            requires
                dy == d * y,
                dy < 0,
                y > 0,
        ;
    }
}

/// A result that is a whole number of a step and fits is exact.
pub proof fn lemma_lands(r: Dec, x: int, step: Dec)
    requires
        step.wf(),
        step.units() > 0,
        x % step.units() == 0,
        fits(distance(x), step.places()),
    ensures
        rounded(Some(r), x, 1) ==> r.units() == x,
{
    let k = x / step.units();
    lemma_fundamental_div_mod(x, step.units());
    assert(k * step.units() == x) by (nonlinear_arith)
        requires
            x == step.units() * k,
    ;
    let e = lemma_multiple(step, k);
    assert(e.units() * 1 == x);
}

} // verus!
