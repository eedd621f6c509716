//! Floating-point figures as the library holds them: by their bits. It computes nothing with them, it
//! only puts them in order.

use vstd::prelude::*;

verus! {

/// Whether the bits are those of a number.
pub open spec fn is_number(bits: u64) -> bool {
    bits % 0x8000_0000_0000_0000 <= 0x7ff0_0000_0000_0000
}

/// The place of a double among all doubles: the lower 63 bits count up from zero, with the sign that
/// the top bit gives. The two zeros share one place. Nothing for what is no number.
pub open spec fn place_of_double(bits: u64) -> Option<int> {
    let size = (bits % 0x8000_0000_0000_0000) as int;
    if !is_number(bits) {
        None
    } else if bits >= 0x8000_0000_0000_0000 {
        Some(-size)
    } else {
        Some(size)
    }
}

/// The place of a double among all doubles.
pub fn double_place(bits: u64) -> (r: Option<i64>)
    ensures
        match r {
            Some(k) => place_of_double(bits) == Some(k as int),
            None => place_of_double(bits) is None,
        },
{
    let size: u64 = bits % 0x8000_0000_0000_0000;
    if size > 0x7ff0_0000_0000_0000 {
        None
    } else if bits >= 0x8000_0000_0000_0000 {
        Some(-(size as i64))
    } else {
        Some(size as i64)
    }
}

/// Whether one double is below another; never where one of them is no number.
pub open spec fn double_below(a: u64, b: u64) -> bool {
    is_number(a) && is_number(b) && place_of_double(a)->0 < place_of_double(b)->0
}

/// Whether one double is below another or equal to it; never where one of them is no number.
pub open spec fn double_at_most(a: u64, b: u64) -> bool {
    is_number(a) && is_number(b) && place_of_double(a)->0 <= place_of_double(b)->0
}

/// Whether one double is below another.
#[verifier::when_used_as_spec(double_below)]
pub fn below(a: u64, b: u64) -> (r: bool)
    ensures
        r == double_below(a, b),
{
    match (double_place(a), double_place(b)) {
        (Some(x), Some(y)) => x < y,
        _ => false,
    }
}

/// Whether one double is below another or equal to it.
#[verifier::when_used_as_spec(double_at_most)]
pub fn at_most(a: u64, b: u64) -> (r: bool)
    ensures
        r == double_at_most(a, b),
{
    match (double_place(a), double_place(b)) {
        (Some(x), Some(y)) => x <= y,
        _ => false,
    }
}

/// The lesser of two doubles; the other one where one of them is no number.
pub open spec fn lesser_double(a: u64, b: u64) -> u64 {
    if !is_number(a) || below(b, a) { b } else { a }
}

/// The lesser of two doubles.
#[verifier::when_used_as_spec(lesser_double)]
pub fn lesser(a: u64, b: u64) -> (r: u64)
    ensures
        r == lesser_double(a, b),
{
    match double_place(a) {
        None => b,
        Some(_) => if below(b, a) { b } else { a },
    }
}

/// Of any two numbers one is below the other or they are equal, and never both.
pub proof fn doubles_are_ordered(a: u64, b: u64)
    requires
        is_number(a),
        is_number(b),
    ensures
        below(a, b) <==> !at_most(b, a),
        at_most(a, b) || at_most(b, a),
{
}

/// How doubles are ordered, by their bits: of two without a sign the one with more bits is larger, of two with a
/// sign the smaller one; what has a sign is below what has none, but for the two zeros, which are equal; and what
/// is no number is neither below nor above anything.
pub proof fn bits_give_order(a: u64, b: u64)
    ensures
        a < 0x8000_0000_0000_0000 && b <= 0x7ff0_0000_0000_0000 && a < b ==> below(a, b) && !below(b, a),
        0x8000_0000_0000_0000 <= a < b <= 0xfff0_0000_0000_0000 ==> below(b, a) && !below(a, b),
        0x8000_0000_0000_0000 < a <= 0xfff0_0000_0000_0000 && b <= 0x7ff0_0000_0000_0000 ==> below(a, b)
            && at_most(a, b),
        at_most(0, 0x8000_0000_0000_0000) && at_most(0x8000_0000_0000_0000, 0),
        0x7ff0_0000_0000_0000 < a < 0x8000_0000_0000_0000 || a > 0xfff0_0000_0000_0000 ==> !below(a, b)
            && !below(b, a) && !at_most(a, b) && !at_most(b, a),
        a <= 0x7ff0_0000_0000_0000 ==> at_most(a, a) && !below(a, a),
{
}

/// The lesser of two numbers is one of them and above neither; beside what is no number it is the other one.
pub proof fn lesser_is_least(a: u64, b: u64)
    ensures
        is_number(a) && is_number(b) ==> at_most(lesser(a, b), a) && at_most(lesser(a, b), b),
        lesser(a, b) == a || lesser(a, b) == b,
        !is_number(a) ==> lesser(a, b) == b,
        is_number(a) && !is_number(b) ==> lesser(a, b) == a,
{
}

} // verus!
