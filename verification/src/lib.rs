//! Exact integers of arbitrary size.
//!
//! An unsigned number is a chain of binary digits, least significant digit
//! outermost, kept free of redundant high-order zeros; a signed number is a
//! sign together with such a chain. Every operation is a pure function from
//! values to values.
//!
//! Operations that have no result say so with an [`ArithmeticError`].
//! Conversions to machine integers never fail: they keep the low-order bits
//! that fit the target type.

use vstd::prelude::*;

pub mod marker_traits;
pub mod type_operators;
pub mod bit;
pub mod uint;
pub mod uint_arith;
pub mod private;
pub mod uint_bits;
pub mod uint_div;
pub mod uint_pow;
pub mod integer;
pub mod integer_arith;
pub mod laws;
pub mod prim_pow;
pub mod text;
pub mod array;

verus! {

/// The outcome of a three-way comparison.
#[derive(Clone, Copy, Debug, PartialEq, Eq, Hash, Structural)]
pub enum ComparisonResult {
    /// The left operand is the smaller one.
    Less,
    /// Both operands denote the same number.
    Equal,
    /// The left operand is the larger one.
    Greater,
}

/// Why an operation has no result.
#[derive(Clone, Copy, Debug, PartialEq, Eq, Hash, Structural)]
pub enum ArithmeticError {
    /// An unsigned subtraction whose result would be below zero.
    Underflow,
    /// A division or remainder by zero.
    DivisionByZero,
    /// A power with a negative exponent whose result is no integer.
    NegativeExponent,
    /// An item-wise operation on two arrays of different lengths.
    LengthMismatch,
}

/// How two integers compare.
pub open spec fn compare_ints(a: int, b: int) -> ComparisonResult {
    if a < b {
        ComparisonResult::Less
    } else if a == b {
        ComparisonResult::Equal
    } else {
        ComparisonResult::Greater
    }
}

/// How two natural numbers compare.
pub open spec fn compare_nats(a: nat, b: nat) -> ComparisonResult {
    if a < b {
        ComparisonResult::Less
    } else if a == b {
        ComparisonResult::Equal
    } else {
        ComparisonResult::Greater
    }
}

impl ComparisonResult {
    /// The same outcome as a `core::cmp::Ordering`.
    pub fn to_ordering(&self) -> (r: core::cmp::Ordering)
        ensures
            (*self == ComparisonResult::Less) == (r == core::cmp::Ordering::Less),
            (*self == ComparisonResult::Equal) == (r == core::cmp::Ordering::Equal),
            (*self == ComparisonResult::Greater) == (r == core::cmp::Ordering::Greater),
    {
        match self {
            ComparisonResult::Less => core::cmp::Ordering::Less,
            ComparisonResult::Equal => core::cmp::Ordering::Equal,
            ComparisonResult::Greater => core::cmp::Ordering::Greater,
        }
    }
}

} // verus!
