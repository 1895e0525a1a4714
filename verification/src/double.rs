//! Facts about IEEE-754 doubles read off their 64-bit patterns.
use vstd::prelude::*;

verus! {

/// The double with bit pattern `b` is finite: its exponent field is not all ones
/// (all ones encodes the infinities and NaN).
pub open spec fn is_finite_bits(b: u64) -> bool {
    (b >> 52u64) & 0x7ffu64 != 0x7ffu64
}

/// Whether the double with bit pattern `b` is finite.
pub fn is_finite(b: u64) -> (r: bool)
    ensures
        r == is_finite_bits(b),
{
    (b >> 52u64) & 0x7ffu64 != 0x7ffu64
}

/// The double with bit pattern `b` is NaN: its exponent field is all ones and its
/// fraction is not zero.
pub open spec fn is_nan_bits(b: u64) -> bool {
    b & 0x7fff_ffff_ffff_ffffu64 > 0x7ff0_0000_0000_0000u64
}

/// The double with bit pattern `b` is a positive number: above zero and not NaN
/// (`+inf` included). Its sign bit is clear, its exponent and fraction are not both zero,
/// and it is not a NaN pattern.
pub open spec fn is_positive_bits(b: u64) -> bool {
    0 < b <= 0x7ff0_0000_0000_0000u64
}

/// Whether the double with bit pattern `b` is a positive number (not NaN).
pub fn is_positive(b: u64) -> (r: bool)
    ensures
        r == is_positive_bits(b),
{
    0 < b && b <= 0x7ff0_0000_0000_0000u64
}

/// The numeric value order of a double that is not NaN, as an integer: its magnitude
/// bits, negated when the sign bit is set. Both zeros get 0; the order of these keys is
/// the order of the doubles (`-inf` lowest, `+inf` highest).
pub open spec fn order_key(b: u64) -> int {
    if b >= 0x8000_0000_0000_0000u64 {
        -((b & 0x7fff_ffff_ffff_ffffu64) as int)
    } else {
        (b & 0x7fff_ffff_ffff_ffffu64) as int
    }
}

/// The comparison `x > y` of the doubles with bit patterns `a` and `b`: false when
/// either is NaN.
pub open spec fn double_gt(a: u64, b: u64) -> bool {
    !is_nan_bits(a) && !is_nan_bits(b) && order_key(a) > order_key(b)
}

/// IEEE-754 doubles are sign-magnitude: among doubles that are not NaN, those with the
/// sign bit clear are ordered as their bit patterns, those with it set in reverse, every
/// one with the sign clear is above every one with it set except that `+0.0` and `-0.0`
/// are equal, and nothing is greater than itself.
pub proof fn lemma_double_order(a: u64, b: u64)
    requires
        !is_nan_bits(a),
        !is_nan_bits(b),
    ensures
        a < 0x8000_0000_0000_0000u64 && b < 0x8000_0000_0000_0000u64 ==> (double_gt(a, b) <==> a > b),
        a >= 0x8000_0000_0000_0000u64 && b >= 0x8000_0000_0000_0000u64 ==> (double_gt(a, b) <==> a < b),
        a < 0x8000_0000_0000_0000u64 && b >= 0x8000_0000_0000_0000u64 ==> (double_gt(a, b) <==> !(a == 0
            && b == 0x8000_0000_0000_0000u64)),
        a >= 0x8000_0000_0000_0000u64 && b < 0x8000_0000_0000_0000u64 ==> !double_gt(a, b),
{
    assert(a < 0x8000_0000_0000_0000u64 ==> a & 0x7fff_ffff_ffff_ffffu64 == a) by (bit_vector);
    assert(a >= 0x8000_0000_0000_0000u64 ==> a & 0x7fff_ffff_ffff_ffffu64 == a - 0x8000_0000_0000_0000u64)
        by (bit_vector);
    assert(b < 0x8000_0000_0000_0000u64 ==> b & 0x7fff_ffff_ffff_ffffu64 == b) by (bit_vector);
    assert(b >= 0x8000_0000_0000_0000u64 ==> b & 0x7fff_ffff_ffff_ffffu64 == b - 0x8000_0000_0000_0000u64)
        by (bit_vector);
}

/// Whether the double with bit pattern `a` is greater than the one with pattern `b`.
pub fn greater(a: u64, b: u64) -> (r: bool)
    ensures
        r == double_gt(a, b),
{
    let ma = a & 0x7fff_ffff_ffff_ffffu64;
    let mb = b & 0x7fff_ffff_ffff_ffffu64;
    if ma > 0x7ff0_0000_0000_0000u64 || mb > 0x7ff0_0000_0000_0000u64 {
        return false;
    }
    let ka: i128 = if a >= 0x8000_0000_0000_0000u64 { -(ma as i128) } else { ma as i128 };
    let kb: i128 = if b >= 0x8000_0000_0000_0000u64 { -(mb as i128) } else { mb as i128 };
    ka > kb
}

/// Bit pattern of negative infinity.
pub const NEG_INFINITY_BITS: u64 = 0xfff0_0000_0000_0000u64;

/// How a double that is not finite prints: `NaN` for any NaN, else `inf` or `-inf` by
/// its sign bit.
pub open spec fn non_finite_text(b: u64) -> Seq<char> {
    if is_nan_bits(b) {
        "NaN"@
    } else if b >= 0x8000_0000_0000_0000u64 {
        "-inf"@
    } else {
        "inf"@
    }
}

/// The printed form of the double with bit pattern `b`, which is not finite.
pub fn non_finite_str(b: u64) -> (r: &'static str)
    requires
        !is_finite_bits(b),
    ensures
        r@ == non_finite_text(b),
{
    if b & 0x7fff_ffff_ffff_ffffu64 > 0x7ff0_0000_0000_0000u64 {
        "NaN"
    } else if b >= 0x8000_0000_0000_0000u64 {
        "-inf"
    } else {
        "inf"
    }
}

} // verus!
