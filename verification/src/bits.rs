//! IEEE 754 binary64 values carried as `u64` bit patterns.
//!
//! Equality of two values is a short function of their bit patterns and is
//! implemented and verified here. Addition, division, and conversion from a
//! small integer are genuine floating-point computations: they are named by
//! uninterpreted spec functions and performed by trusted wrappers around the
//! `rustc_apfloat` software implementation of IEEE 754 binary64.

use rustc_apfloat::Float;
use vstd::prelude::*;

verus! {

/// The bit pattern of the binary64 value `1.0`: sign 0, biased exponent
/// 1023, mantissa 0.
pub const ONE_BITS: u64 = 0x3ff0_0000_0000_0000;

/// True when `a` encodes a NaN: all eleven exponent bits set and a non-zero
/// mantissa.
pub open spec fn is_nan_bits(a: u64) -> bool {
    (a >> 52) & 0x7ff == 0x7ff && (a & 0x000f_ffff_ffff_ffff) != 0
}

/// True when `a` encodes a zero of either sign: everything but the sign bit
/// clear.
pub open spec fn is_zero_bits(a: u64) -> bool {
    a & 0x7fff_ffff_ffff_ffff == 0
}

/// IEEE 754 equality on binary64 bit patterns: a NaN equals nothing, the two
/// zeros equal each other, and every other value has exactly one encoding,
/// so equality of values is equality of patterns.
pub open spec fn float_eq(a: u64, b: u64) -> bool {
    &&& !is_nan_bits(a)
    &&& !is_nan_bits(b)
    &&& (a == b || (is_zero_bits(a) && is_zero_bits(b)))
}

/// Decides `float_eq` on two bit patterns.
pub fn float_eq_bits(a: u64, b: u64) -> (r: bool)
    ensures
        r == float_eq(a, b),
{
    let a_nan: bool = (a >> 52) & 0x7ff == 0x7ff && (a & 0x000f_ffff_ffff_ffff) != 0;
    let b_nan: bool = (b >> 52) & 0x7ff == 0x7ff && (b & 0x000f_ffff_ffff_ffff) != 0;
    let both_zero: bool = a & 0x7fff_ffff_ffff_ffff == 0 && b & 0x7fff_ffff_ffff_ffff == 0;
    !a_nan && !b_nan && (a == b || both_zero)
}

/// The bit pattern of the binary64 sum of the values encoded by `a` and `b`,
/// rounded to nearest, ties to even.
pub uninterp spec fn add_bits(a: u64, b: u64) -> u64;

/// The bit pattern of the binary64 quotient of the values encoded by `a` and
/// `b`, rounded to nearest, ties to even.
pub uninterp spec fn div_bits(a: u64, b: u64) -> u64;

/// The bit pattern of the binary64 value of the integer `n`. Every integer
/// a 16-bit counter can hold is exactly representable in binary64.
pub uninterp spec fn int_bits(n: int) -> u64;

/// Relies on `rustc_apfloat::ieee::Double`'s `Add`: the IEEE 754 binary64
/// sum of the two operands, rounded to nearest, ties to even — a function of
/// the two bit patterns alone.
#[verifier::external_body]
pub(crate) fn double_add(a: u64, b: u64) -> (r: u64)
    ensures
        r == add_bits(a, b),
{
    let x = rustc_apfloat::ieee::Double::from_bits(a as u128);
    let y = rustc_apfloat::ieee::Double::from_bits(b as u128);
    (x + y).value.to_bits() as u64
}

/// Relies on `rustc_apfloat::ieee::Double`'s `Div`: the IEEE 754 binary64
/// quotient of the two operands, rounded to nearest, ties to even — a
/// function of the two bit patterns alone. Division of a non-NaN value by
/// `1.0` is exact and returns the dividend unchanged.
#[verifier::external_body]
pub(crate) fn double_div(a: u64, b: u64) -> (r: u64)
    ensures
        r == div_bits(a, b),
        b == ONE_BITS && !is_nan_bits(a) ==> r == a,
{
    let x = rustc_apfloat::ieee::Double::from_bits(a as u128);
    let y = rustc_apfloat::ieee::Double::from_bits(b as u128);
    (x / y).value.to_bits() as u64
}

/// Relies on `rustc_apfloat::ieee::Double::from_i128`: the binary64 value of
/// a small integer, exact for every `i16`; the integer `1` converts to the
/// pattern of `1.0`.
#[verifier::external_body]
pub(crate) fn double_of_i16(n: i16) -> (r: u64)
    ensures
        r == int_bits(n as int),
        n == 1 ==> r == ONE_BITS,
{
    rustc_apfloat::ieee::Double::from_i128(n as i128).value.to_bits() as u64
}

} // verus!
