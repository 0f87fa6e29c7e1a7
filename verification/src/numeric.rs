//! Mixed-precision numbers: 64-bit signed integers and binary64 floats.
//!
//! A `Float` carries the bit pattern of an IEEE-754 binary64 value (see
//! `floatbits`). Binary operations widen a mixed pair to `Float`; division
//! widens even two integers. Integer arithmetic wraps on overflow.
use vstd::prelude::*;
use crate::floatbits::{
    add_bits, div_bits, eq_bits, f64_add, f64_div, f64_eq, f64_lt, f64_mul, f64_of_i64, f64_sub,
    i64_to_bits, lt_bits, mul_bits, neg_bits, sub_bits,
};

verus! {

#[derive(Debug, Clone, Copy, PartialEq)]
pub enum Numeric {
    /// The bit pattern of an IEEE-754 binary64 value.
    Float(u64),
    Int(i64),
}

/// The binary64 bits that a number widens to.
pub open spec fn spec_widen(n: Numeric) -> u64 {
    match n {
        Numeric::Float(f) => f,
        Numeric::Int(i) => f64_of_i64(i),
    }
}

/// The sum: integer addition (wrapping) when both sides are integers,
/// binary64 addition otherwise.
pub open spec fn spec_add(a: Numeric, b: Numeric) -> Numeric {
    match (a, b) {
        (Numeric::Int(x), Numeric::Int(y)) => Numeric::Int(x.wrapping_add(y)),
        _ => Numeric::Float(f64_add(spec_widen(a), spec_widen(b))),
    }
}

/// The difference: integer subtraction (wrapping) when both sides are
/// integers, binary64 subtraction otherwise.
pub open spec fn spec_sub(a: Numeric, b: Numeric) -> Numeric {
    match (a, b) {
        (Numeric::Int(x), Numeric::Int(y)) => Numeric::Int(x.wrapping_sub(y)),
        _ => Numeric::Float(f64_sub(spec_widen(a), spec_widen(b))),
    }
}

/// The product: integer multiplication (wrapping) when both sides are
/// integers, binary64 multiplication otherwise.
pub open spec fn spec_mul(a: Numeric, b: Numeric) -> Numeric {
    match (a, b) {
        (Numeric::Int(x), Numeric::Int(y)) => Numeric::Int(x.wrapping_mul(y)),
        _ => Numeric::Float(f64_mul(spec_widen(a), spec_widen(b))),
    }
}

/// The quotient, always a binary64 division: two integers widen first.
pub open spec fn spec_div(a: Numeric, b: Numeric) -> Numeric {
    Numeric::Float(f64_div(spec_widen(a), spec_widen(b)))
}

/// Negation keeps the tag: integers wrap, floats flip their sign bit.
pub open spec fn spec_neg(a: Numeric) -> Numeric {
    match a {
        Numeric::Int(x) => Numeric::Int((0i64).wrapping_sub(x)),
        Numeric::Float(f) => Numeric::Float(f ^ 0x8000_0000_0000_0000u64),
    }
}

/// Strict order after widening; false whenever a NaN is involved.
pub open spec fn spec_num_lt(a: Numeric, b: Numeric) -> bool {
    match (a, b) {
        (Numeric::Int(x), Numeric::Int(y)) => x < y,
        _ => f64_lt(spec_widen(a), spec_widen(b)),
    }
}

/// Equality after widening; false whenever a NaN is involved.
pub open spec fn spec_num_eq(a: Numeric, b: Numeric) -> bool {
    match (a, b) {
        (Numeric::Int(x), Numeric::Int(y)) => x == y,
        _ => f64_eq(spec_widen(a), spec_widen(b)),
    }
}

impl core::convert::From<i64> for Numeric {
    fn from(i: i64) -> (r: Numeric) {
        Numeric::Int(i)
    }
}

impl vstd::std_specs::convert::FromSpecImpl<i64> for Numeric {
    open spec fn obeys_from_spec() -> bool {
        true
    }

    open spec fn from_spec(i: i64) -> Numeric {
        Numeric::Int(i)
    }
}

impl Numeric {
    /// The binary64 bits of this number, widening an integer.
    pub fn widen(self) -> (r: u64)
        ensures
            r == spec_widen(self),
    {
        match self {
            Numeric::Float(f) => f,
            Numeric::Int(i) => i64_to_bits(i),
        }
    }

    pub fn add(self, rhs: Numeric) -> (r: Numeric)
        ensures
            r == spec_add(self, rhs),
    {
        match (self, rhs) {
            (Numeric::Int(x), Numeric::Int(y)) => Numeric::Int(x.wrapping_add(y)),
            (a, b) => Numeric::Float(add_bits(a.widen(), b.widen())),
        }
    }

    pub fn sub(self, rhs: Numeric) -> (r: Numeric)
        ensures
            r == spec_sub(self, rhs),
    {
        match (self, rhs) {
            (Numeric::Int(x), Numeric::Int(y)) => Numeric::Int(x.wrapping_sub(y)),
            (a, b) => Numeric::Float(sub_bits(a.widen(), b.widen())),
        }
    }

    pub fn mul(self, rhs: Numeric) -> (r: Numeric)
        ensures
            r == spec_mul(self, rhs),
    {
        match (self, rhs) {
            (Numeric::Int(x), Numeric::Int(y)) => Numeric::Int(x.wrapping_mul(y)),
            (a, b) => Numeric::Float(mul_bits(a.widen(), b.widen())),
        }
    }

    pub fn div(self, rhs: Numeric) -> (r: Numeric)
        ensures
            r == spec_div(self, rhs),
    {
        Numeric::Float(div_bits(self.widen(), rhs.widen()))
    }

    pub fn neg(self) -> (r: Numeric)
        ensures
            r == spec_neg(self),
    {
        match self {
            Numeric::Int(x) => Numeric::Int((0i64).wrapping_sub(x)),
            Numeric::Float(f) => Numeric::Float(neg_bits(f)),
        }
    }

    pub fn lt(self, rhs: Numeric) -> (r: bool)
        ensures
            r == spec_num_lt(self, rhs),
    {
        match (self, rhs) {
            (Numeric::Int(x), Numeric::Int(y)) => x < y,
            (a, b) => lt_bits(a.widen(), b.widen()),
        }
    }

    pub fn eq_num(self, rhs: Numeric) -> (r: bool)
        ensures
            r == spec_num_eq(self, rhs),
    {
        match (self, rhs) {
            (Numeric::Int(x), Numeric::Int(y)) => x == y,
            (a, b) => eq_bits(a.widen(), b.widen()),
        }
    }
}

} // verus!
