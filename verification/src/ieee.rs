//! IEEE 754 double-precision values, handled as their 64-bit patterns.
//!
//! The decision engine works on floating-point observations, but all its
//! logic is stated and verified over the raw bit patterns: classification
//! (finite, NaN) and ordering of finite doubles are exact bit arithmetic,
//! while the four rounded operations and the square root are delegated to
//! the `rustc_apfloat` and `ieee-apsqrt` crates through trusted wrappers.
use rustc_apfloat::Float;
use vstd::prelude::*;

verus! {

/// Bit pattern of the double 1.0.
pub const ONE_BITS: u64 = 0x3FF0000000000000;

/// Magnitude: the bit pattern with the sign bit cleared.
pub open spec fn mag_bits(b: u64) -> u64 {
    b & 0x7FFF_FFFF_FFFF_FFFF
}

/// The sign bit of a double's bit pattern.
pub open spec fn sign_bits(b: u64) -> bool {
    b >= 0x8000_0000_0000_0000
}

/// A double is finite when its exponent field is not all ones.
pub open spec fn is_finite_bits(b: u64) -> bool {
    mag_bits(b) < 0x7FF0_0000_0000_0000
}

/// A double is a NaN when its exponent field is all ones and its
/// significand is not zero.
pub open spec fn is_nan_bits(b: u64) -> bool {
    mag_bits(b) > 0x7FF0_0000_0000_0000
}

/// Key that orders bit patterns of non-NaN doubles exactly as the doubles
/// they denote order as numbers; -0.0 and +0.0 share the key 0.
pub open spec fn f_key(b: u64) -> int {
    if sign_bits(b) {
        -(mag_bits(b) as int)
    } else {
        mag_bits(b) as int
    }
}

/// Numeric order on doubles, as a relation on their bit patterns.
pub open spec fn f_le(a: u64, b: u64) -> bool {
    f_key(a) <= f_key(b)
}

/// Strict numeric order on doubles, as a relation on their bit patterns.
pub open spec fn f_lt(a: u64, b: u64) -> bool {
    f_key(a) < f_key(b)
}

/// -0.0 replaced by +0.0; any other pattern kept.
pub open spec fn norm_zero(b: u64) -> u64 {
    if mag_bits(b) == 0 {
        0u64
    } else {
        b
    }
}

pub(crate) proof fn lemma_mag_of_sign(b: u64)
    ensures
        sign_bits(b) ==> mag_bits(b) == b - 0x8000_0000_0000_0000,
        !sign_bits(b) ==> mag_bits(b) == b,
{
    assert(sign_bits(b) ==> mag_bits(b) == b - 0x8000_0000_0000_0000) by (bit_vector);
    assert(!sign_bits(b) ==> mag_bits(b) == b) by (bit_vector);
}

/// Finiteness of a double, decided on its bit pattern.
pub fn check_finite_bits(b: u64) -> (r: bool)
    ensures
        r == is_finite_bits(b),
{
    (b & 0x7FFF_FFFF_FFFF_FFFF) < 0x7FF0_0000_0000_0000
}

/// -0.0 replaced by +0.0; any other pattern kept.
pub fn normalize_zero(b: u64) -> (r: u64)
    ensures
        r == norm_zero(b),
{
    if (b & 0x7FFF_FFFF_FFFF_FFFF) == 0 {
        0u64
    } else {
        b
    }
}

/// Strict numeric order of two doubles, decided on their bit patterns.
pub fn lt_bits(a: u64, b: u64) -> (r: bool)
    ensures
        r == f_lt(a, b),
{
    proof {
        lemma_mag_of_sign(a);
        lemma_mag_of_sign(b);
    }
    let sa = a >= 0x8000_0000_0000_0000;
    let sb = b >= 0x8000_0000_0000_0000;
    let ma = a & 0x7FFF_FFFF_FFFF_FFFF;
    let mb = b & 0x7FFF_FFFF_FFFF_FFFF;
    if sa {
        if sb {
            mb < ma
        } else {
            ma != 0 || mb != 0
        }
    } else {
        if sb {
            false
        } else {
            ma < mb
        }
    }
}

/// The bit pattern of the rounded IEEE 754 difference of two doubles.
pub uninterp spec fn ieee_sub(a: u64, b: u64) -> u64;

/// The bit pattern of the rounded IEEE 754 sum of two doubles.
pub uninterp spec fn ieee_add(a: u64, b: u64) -> u64;

/// The bit pattern of the rounded IEEE 754 product of two doubles.
pub uninterp spec fn ieee_mul(a: u64, b: u64) -> u64;

/// The bit pattern of the rounded IEEE 754 quotient of two doubles.
pub uninterp spec fn ieee_div(a: u64, b: u64) -> u64;

/// The bit pattern of the rounded IEEE 754 square root of a double.
pub uninterp spec fn ieee_sqrt(a: u64) -> u64;

/// Relies on `rustc_apfloat::ieee::Double`'s subtraction, which rounds to
/// nearest, ties to even, per IEEE 754. The stated facts are consequences
/// of correct rounding: a value minus itself is exactly +0.0; subtracting
/// +0.0 changes nothing; a difference of finite values is never a NaN; the
/// difference is positive, zero or negative as the operands compare;
/// subtracting a non-negative value cannot increase a finite value; and
/// rounding is monotone in either operand.
#[verifier::external_body]
pub(crate) fn sub_bits(a: u64, b: u64) -> (r: u64)
    ensures
        r == ieee_sub(a, b),
        a == b && is_finite_bits(a) ==> r == 0u64,
        is_finite_bits(a) && b == 0u64 ==> r == a,
        is_finite_bits(a) && is_finite_bits(b) ==> !is_nan_bits(r),
        is_finite_bits(a) && is_finite_bits(b) && f_le(b, a) ==> !sign_bits(r) || mag_bits(r)
            == 0,
        is_finite_bits(a) && is_finite_bits(b) && f_lt(b, a) ==> !sign_bits(r) && mag_bits(r)
            != 0,
        is_finite_bits(a) && !sign_bits(b) && !is_nan_bits(b) ==> f_le(r, a),
        forall|c: u64|
            is_finite_bits(a) && is_finite_bits(b) && is_finite_bits(c) && f_le(a, c)
                ==> f_le(r, #[trigger] ieee_sub(c, b)),
        forall|c: u64|
            is_finite_bits(a) && is_finite_bits(b) && is_finite_bits(c) && f_le(c, b)
                ==> f_le(r, #[trigger] ieee_sub(a, c)),
{
    let x = rustc_apfloat::ieee::Double::from_bits(a as u128);
    let y = rustc_apfloat::ieee::Double::from_bits(b as u128);
    (x - y).value.to_bits() as u64
}

/// Relies on `rustc_apfloat::ieee::Double`'s addition, which rounds to
/// nearest, ties to even, per IEEE 754: the sum of two non-NaN,
/// non-negative doubles is non-NaN and non-negative.
#[verifier::external_body]
pub(crate) fn add_bits(a: u64, b: u64) -> (r: u64)
    ensures
        r == ieee_add(a, b),
        !sign_bits(a) && !sign_bits(b) && !is_nan_bits(a) && !is_nan_bits(b) ==> !sign_bits(r)
            && !is_nan_bits(r),
{
    let x = rustc_apfloat::ieee::Double::from_bits(a as u128);
    let y = rustc_apfloat::ieee::Double::from_bits(b as u128);
    (x + y).value.to_bits() as u64
}

/// Relies on `rustc_apfloat::ieee::Double`'s multiplication, which rounds
/// to nearest, ties to even, per IEEE 754: a product of finite,
/// non-negative factors no greater than 1.0 stays finite, non-negative and
/// no greater than 1.0, since the exact product lies in [0, 1] and both
/// bounds are representable; a product of finite, non-negative factors is
/// never a NaN and never negative.
#[verifier::external_body]
pub(crate) fn mul_bits(a: u64, b: u64) -> (r: u64)
    ensures
        r == ieee_mul(a, b),
        !sign_bits(a) && !sign_bits(b) && is_finite_bits(a) && is_finite_bits(b) && f_le(
            a,
            ONE_BITS,
        ) && f_le(b, ONE_BITS) ==> !sign_bits(r) && is_finite_bits(r) && f_le(r, ONE_BITS),
        !sign_bits(a) && !sign_bits(b) && is_finite_bits(a) && is_finite_bits(b) ==> !sign_bits(r)
            && !is_nan_bits(r),
{
    let x = rustc_apfloat::ieee::Double::from_bits(a as u128);
    let y = rustc_apfloat::ieee::Double::from_bits(b as u128);
    (x * y).value.to_bits() as u64
}

/// Relies on `rustc_apfloat::ieee::Double`'s division, which rounds to
/// nearest, ties to even, per IEEE 754. The facts are consequences of
/// correct rounding: a finite nonzero value divided by itself is exactly
/// 1.0; +0.0 divided by a positive value is exactly +0.0; and when
/// 0 <= a <= b with b finite and positive, the exact quotient lies in
/// [0, 1], so the rounded one does too.
#[verifier::external_body]
pub(crate) fn div_bits(a: u64, b: u64) -> (r: u64)
    ensures
        r == ieee_div(a, b),
        a == b && is_finite_bits(a) && mag_bits(a) != 0 ==> r == ONE_BITS,
        a == 0u64 && !sign_bits(b) && !is_nan_bits(b) && mag_bits(b) != 0 ==> r == 0u64,
        !sign_bits(a) && !sign_bits(b) && is_finite_bits(a) && is_finite_bits(b) && mag_bits(b)
            != 0 && f_le(a, b) ==> !sign_bits(r) && is_finite_bits(r) && f_le(r, ONE_BITS),
{
    let x = rustc_apfloat::ieee::Double::from_bits(a as u128);
    let y = rustc_apfloat::ieee::Double::from_bits(b as u128);
    (x / y).value.to_bits() as u64
}

/// Relies on `ieee_apsqrt::sqrt_accurate`, which computes the IEEE 754
/// square root of a double given as its bit pattern, rounding to nearest,
/// ties to even: the root of a non-NaN, non-negative double is non-NaN and
/// non-negative.
#[verifier::external_body]
pub(crate) fn sqrt_bits(a: u64) -> (r: u64)
    ensures
        r == ieee_sqrt(a),
        !sign_bits(a) && !is_nan_bits(a) ==> !sign_bits(r) && !is_nan_bits(r),
{
    ieee_apsqrt::sqrt_accurate(a, rustc_apfloat::Round::NearestTiesToEven).0.value
}

} // verus!
