//! Scalars by their bit patterns.
//!
//! A scalar is the 32-bit pattern of an IEEE 754 single-precision number.
//! Nothing here computes with scalars; they are only compared. Read as a
//! sign bit and a 31-bit magnitude, the patterns of all numbers but NaN are
//! ordered as the numbers that they encode, and the two zeros are equal.
//! The patterns of NaN take part in this order like any other pattern: they
//! lie beyond the infinities.

use vstd::prelude::*;

verus! {

/// The bit pattern of positive zero.
pub const ZERO: u32 = 0;

/// The number that a bit pattern stands for in the order of scalars: the
/// magnitude in its lower 31 bits, negated if the top bit is set.
pub open spec fn signed_magnitude(bits: u32) -> int {
    if bits & 0x8000_0000 != 0 {
        -((bits & 0x7fff_ffff) as int)
    } else {
        (bits & 0x7fff_ffff) as int
    }
}

/// Returns the sort key of a scalar: keys are ordered as the scalars are.
pub fn sort_key(bits: u32) -> (key: u64)
    ensures
        key == 0x8000_0000 + signed_magnitude(bits),
{
    let magnitude: u32 = bits & 0x7fff_ffff;
    assert(magnitude <= 0x7fff_ffff) by (bit_vector)
        requires
            magnitude == bits & 0x7fff_ffff,
    ;
    if bits & 0x8000_0000 != 0 {
        0x8000_0000u64 - magnitude as u64
    } else {
        0x8000_0000u64 + magnitude as u64
    }
}

/// Says whether `a` is less than `b`.
pub fn less(a: u32, b: u32) -> (r: bool)
    ensures
        r == (signed_magnitude(a) < signed_magnitude(b)),
{
    sort_key(a) < sort_key(b)
}

/// Says whether `a` is less than or equal to `b`.
pub fn at_most(a: u32, b: u32) -> (r: bool)
    ensures
        r == (signed_magnitude(a) <= signed_magnitude(b)),
{
    sort_key(a) <= sort_key(b)
}

/// Says whether `a` is less than zero.
pub fn is_negative(a: u32) -> (r: bool)
    ensures
        r == (signed_magnitude(a) < 0),
{
    proof {
        lemma_zero();
    }
    less(a, ZERO)
}

/// The magnitude of a scalar has 31 bits.
pub proof fn lemma_magnitude_bounds(bits: u32)
    ensures
        -0x7fff_ffff <= signed_magnitude(bits) <= 0x7fff_ffff,
{
    assert(bits & 0x7fff_ffff <= 0x7fff_ffff) by (bit_vector);
}

/// Zero is zero in the order of scalars.
pub proof fn lemma_zero()
    ensures
        signed_magnitude(ZERO) == 0,
{
    assert(0u32 & 0x8000_0000 == 0 && 0u32 & 0x7fff_ffff == 0) by (bit_vector);
}

/// Returns the lesser of two scalars, and `a` if they are equal.
pub fn lesser(a: u32, b: u32) -> (r: u32)
    ensures
        r == if signed_magnitude(a) <= signed_magnitude(b) { a } else { b },
{
    if at_most(a, b) {
        a
    } else {
        b
    }
}

/// Returns the greater of two scalars, and `a` if they are equal.
pub fn greater(a: u32, b: u32) -> (r: u32)
    ensures
        r == if signed_magnitude(a) >= signed_magnitude(b) { a } else { b },
{
    if at_most(b, a) {
        a
    } else {
        b
    }
}

/// The order of scalars tells apart all patterns but the two zeros: two
/// patterns are equal in the order if and only if they are the same pattern
/// or both are a zero.
pub proof fn lemma_equal_scalars(a: u32, b: u32)
    ensures
        signed_magnitude(a) == signed_magnitude(b) <==> (a == b || (a & 0x7fff_ffff == 0 && b
            & 0x7fff_ffff == 0)),
{
    assert((a & 0x7fff_ffff == b & 0x7fff_ffff && (a & 0x8000_0000 != 0) == (b & 0x8000_0000
        != 0)) ==> a == b) by (bit_vector);
    assert(0 <= a & 0x7fff_ffff && 0 <= b & 0x7fff_ffff) by (bit_vector);
}

} // verus!
