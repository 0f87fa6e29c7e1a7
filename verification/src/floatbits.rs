//! IEEE-754 binary64 arithmetic on bit patterns.
//!
//! The interpreter stores a float as the `u64` bit pattern of an IEEE-754
//! binary64 value. The arithmetic itself is done by the `rustc_apfloat`
//! crate, a software implementation of IEEE-754 whose results are a function
//! of the operand bits alone; each operation is named here by an
//! uninterpreted spec function, and the wrappers relate the call to its name.
use vstd::prelude::*;
use rustc_apfloat::Float;
use rustc_apfloat::ieee::Double;

verus! {

/// The sum of two binary64 values, rounded to nearest, ties to even.
pub uninterp spec fn f64_add(a: u64, b: u64) -> u64;

/// The difference of two binary64 values, rounded to nearest, ties to even.
pub uninterp spec fn f64_sub(a: u64, b: u64) -> u64;

/// The product of two binary64 values, rounded to nearest, ties to even.
pub uninterp spec fn f64_mul(a: u64, b: u64) -> u64;

/// The quotient of two binary64 values, rounded to nearest, ties to even.
pub uninterp spec fn f64_div(a: u64, b: u64) -> u64;

/// The binary64 value nearest to a 64-bit signed integer.
pub uninterp spec fn f64_of_i64(i: i64) -> u64;

/// Whether one binary64 value is strictly below another; false when either is a NaN.
pub uninterp spec fn f64_lt(a: u64, b: u64) -> bool;

/// Whether two binary64 values compare equal; false when either is a NaN.
pub uninterp spec fn f64_eq(a: u64, b: u64) -> bool;

/// The binary64 value denoted by a decimal literal, rounded to nearest,
/// ties to even; `None` when the text is not a valid literal.
pub uninterp spec fn f64_of_text(s: Seq<char>) -> Option<u64>;

/// The decimal rendering of a binary64 value.
pub uninterp spec fn f64_text(a: u64) -> Seq<char>;

/// Relies on `core::ops::Add` for `rustc_apfloat::ieee::Double`: IEEE-754
/// addition, round to nearest, ties to even, a function of the operand bits.
#[verifier::external_body]
pub fn add_bits(a: u64, b: u64) -> (r: u64)
    ensures
        r == f64_add(a, b),
{
    (Double::from_bits(a as u128) + Double::from_bits(b as u128)).value.to_bits() as u64
}

/// Relies on `core::ops::Sub` for `rustc_apfloat::ieee::Double`: IEEE-754
/// subtraction, round to nearest, ties to even, a function of the operand bits.
#[verifier::external_body]
pub fn sub_bits(a: u64, b: u64) -> (r: u64)
    ensures
        r == f64_sub(a, b),
{
    (Double::from_bits(a as u128) - Double::from_bits(b as u128)).value.to_bits() as u64
}

/// Relies on `core::ops::Mul` for `rustc_apfloat::ieee::Double`: IEEE-754
/// multiplication, round to nearest, ties to even, a function of the operand bits.
#[verifier::external_body]
pub fn mul_bits(a: u64, b: u64) -> (r: u64)
    ensures
        r == f64_mul(a, b),
{
    (Double::from_bits(a as u128) * Double::from_bits(b as u128)).value.to_bits() as u64
}

/// Relies on `core::ops::Div` for `rustc_apfloat::ieee::Double`: IEEE-754
/// division, round to nearest, ties to even, a function of the operand bits.
#[verifier::external_body]
pub fn div_bits(a: u64, b: u64) -> (r: u64)
    ensures
        r == f64_div(a, b),
{
    (Double::from_bits(a as u128) / Double::from_bits(b as u128)).value.to_bits() as u64
}

/// Relies on `core::ops::Neg` for `rustc_apfloat::ieee::Double`: IEEE-754
/// negation flips the sign bit and changes nothing else.
#[verifier::external_body]
pub fn neg_bits(a: u64) -> (r: u64)
    ensures
        r == a ^ 0x8000_0000_0000_0000u64,
{
    (-Double::from_bits(a as u128)).to_bits() as u64
}

/// Relies on `rustc_apfloat::Float::from_i128` for `ieee::Double`: conversion
/// of a signed integer to the nearest binary64 value, ties to even.
#[verifier::external_body]
pub fn i64_to_bits(i: i64) -> (r: u64)
    ensures
        r == f64_of_i64(i),
{
    Double::from_i128(i as i128).value.to_bits() as u64
}

/// Relies on `PartialOrd` for `rustc_apfloat::ieee::Double`: the IEEE-754
/// ordering, under which a NaN compares below nothing.
#[verifier::external_body]
pub fn lt_bits(a: u64, b: u64) -> (r: bool)
    ensures
        r == f64_lt(a, b),
{
    Double::from_bits(a as u128) < Double::from_bits(b as u128)
}

/// Relies on `PartialEq` for `rustc_apfloat::ieee::Double`: the IEEE-754
/// equality, under which a NaN equals nothing.
#[verifier::external_body]
pub fn eq_bits(a: u64, b: u64) -> (r: bool)
    ensures
        r == f64_eq(a, b),
{
    Double::from_bits(a as u128) == Double::from_bits(b as u128)
}

/// Relies on `rustc_apfloat::Float::from_str_r` for `ieee::Double` (through
/// `FromStr`): the binary64 value denoted by a decimal literal, round to
/// nearest, ties to even; an error for text that is not a literal.
#[verifier::external_body]
pub fn text_to_bits(s: &str) -> (r: Option<u64>)
    ensures
        r == f64_of_text(s@),
{
    match s.parse::<Double>() {
        Ok(d) => Some(d.to_bits() as u64),
        Err(_) => None,
    }
}

/// Relies on `core::fmt::Display` for `rustc_apfloat::ieee::Double`: a
/// decimal rendering that depends on the bit pattern alone.
#[verifier::external_body]
pub fn bits_to_text(a: u64) -> (r: String)
    ensures
        r@ == f64_text(a),
{
    format!("{}", Double::from_bits(a as u128))
}

} // verus!
