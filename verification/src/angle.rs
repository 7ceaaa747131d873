//! Rotation angles as IEEE-754 binary64 bit patterns.
//!
//! The passes only ever ask exact, bit-level questions of an angle — is it a
//! zero, is its absolute value the canonical pi or pi over two — so an angle
//! is carried as the 64-bit pattern of the double it denotes. Angles that are
//! mathematically equal to pi but differ in the last representable bit are
//! deliberately not treated as native; there is no tolerance anywhere.
//!
//! The one arithmetic operation the passes need, the exact IEEE-754 sum of
//! two angles that the merge pass takes, is delegated to `rustc_apfloat`,
//! a software implementation of IEEE-754 binary64 arithmetic.

use vstd::prelude::*;

use rustc_apfloat::Float;

verus! {

/// Bit pattern of the canonical binary64 value of pi.
pub const PI_BITS: u64 = 0x400921FB54442D18;

/// Bit pattern of the canonical binary64 value of pi over two.
pub const HALF_PI_BITS: u64 = 0x3FF921FB54442D18;

/// Bit pattern of minus pi over two.
pub const NEG_HALF_PI_BITS: u64 = 0xBFF921FB54442D18;

/// All bits of a binary64 value except the sign bit.
pub const ABS_MASK: u64 = 0x7FFFFFFFFFFFFFFF;

/// The bit pattern of an angle with its sign bit cleared: the bit pattern of
/// the angle's absolute value.
pub open spec fn abs_bits(a: u64) -> u64 {
    a & ABS_MASK
}

/// Whether the angle is an IEEE-754 zero, of either sign.
pub open spec fn is_zero_angle(a: u64) -> bool {
    abs_bits(a) == 0
}

/// Whether the angle belongs to the native rotation-X set
/// {0, pi, -pi, pi/2, -pi/2}, under exact bit equality against the canonical
/// binary64 value of pi.
pub open spec fn is_native_rx_angle(a: u64) -> bool {
    abs_bits(a) == 0 || abs_bits(a) == PI_BITS || abs_bits(a) == HALF_PI_BITS
}

/// The canonical angle constants with their sign bit cleared: pi and pi over
/// two are their own absolute values, and minus pi over two has the absolute
/// value pi over two. Every native-set membership proof reduces to these.
pub proof fn lemma_native_angle_consts()
    ensures
        abs_bits(PI_BITS) == PI_BITS,
        abs_bits(HALF_PI_BITS) == HALF_PI_BITS,
        abs_bits(NEG_HALF_PI_BITS) == HALF_PI_BITS,
{
    assert(0x400921FB54442D18u64 & 0x7FFFFFFFFFFFFFFFu64 == 0x400921FB54442D18u64)
        by (bit_vector);
    assert(0x3FF921FB54442D18u64 & 0x7FFFFFFFFFFFFFFFu64 == 0x3FF921FB54442D18u64)
        by (bit_vector);
    assert(0xBFF921FB54442D18u64 & 0x7FFFFFFFFFFFFFFFu64 == 0x3FF921FB54442D18u64)
        by (bit_vector);
}

/// The bit pattern of the IEEE-754 binary64 sum of the two angles denoted by
/// `a` and `b`, rounded to nearest, ties to even. The sum is a function of
/// the two bit patterns alone; this crate states nothing else about it.
pub uninterp spec fn add_bits(a: u64, b: u64) -> u64;

/// Relies on `rustc_apfloat::ieee::Double`: `from_bits`, the `+` operator
/// (which rounds to nearest, ties to even, as IEEE-754 prescribes for
/// binary64) and `to_bits`, to compute the exact double sum of two angles
/// given as bit patterns. The result depends on the operands alone.
#[verifier::external_body]
pub(crate) fn add_angle_bits(a: u64, b: u64) -> (r: u64)
    ensures
        r == add_bits(a, b),
{
    let x = rustc_apfloat::ieee::Double::from_bits(a as u128);
    let y = rustc_apfloat::ieee::Double::from_bits(b as u128);
    (x + y).value.to_bits() as u64
}

} // verus!
