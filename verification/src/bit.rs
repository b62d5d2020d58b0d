//! Binary digits and their logic.

use vstd::prelude::*;
use crate::marker_traits::Bit;
use crate::type_operators::Cmp;
use crate::{compare_nats, ComparisonResult};

verus! {

/// One binary digit.
#[derive(Clone, Copy, Debug, PartialEq, Eq, Hash, Structural)]
pub enum BitCode {
    /// The digit 0.
    B0,
    /// The digit 1.
    B1,
}

impl BitCode {
    /// The digit's numeric value.
    pub open spec fn value(self) -> nat {
        match self {
            BitCode::B0 => 0,
            BitCode::B1 => 1,
        }
    }

    /// The digit that stands for a truth value.
    pub open spec fn of(set: bool) -> BitCode {
        if set {
            BitCode::B1
        } else {
            BitCode::B0
        }
    }

    /// The other digit.
    pub fn not(self) -> (r: BitCode)
        ensures
            r == BitCode::of(!self.is_set()),
    {
        match self {
            BitCode::B0 => BitCode::B1,
            BitCode::B1 => BitCode::B0,
        }
    }

    /// One exactly when both digits are one.
    pub fn bitand(self, rhs: BitCode) -> (r: BitCode)
        ensures
            r == BitCode::of(self.is_set() && rhs.is_set()),
    {
        match self {
            BitCode::B0 => BitCode::B0,
            BitCode::B1 => rhs,
        }
    }

    /// One exactly when at least one of the digits is one.
    pub fn bitor(self, rhs: BitCode) -> (r: BitCode)
        ensures
            r == BitCode::of(self.is_set() || rhs.is_set()),
    {
        match self {
            BitCode::B0 => rhs,
            BitCode::B1 => BitCode::B1,
        }
    }

    /// One exactly when the digits differ.
    pub fn bitxor(self, rhs: BitCode) -> (r: BitCode)
        ensures
            r == BitCode::of(self.is_set() != rhs.is_set()),
    {
        match (self, rhs) {
            (BitCode::B0, BitCode::B0) => BitCode::B0,
            (BitCode::B1, BitCode::B0) => BitCode::B1,
            (BitCode::B0, BitCode::B1) => BitCode::B1,
            (BitCode::B1, BitCode::B1) => BitCode::B0,
        }
    }
}

impl Cmp for BitCode {
    /// Digits compare as the numbers 0 and 1 do.
    open spec fn compare_spec(&self, rhs: &BitCode) -> ComparisonResult {
        compare_nats(self.value(), rhs.value())
    }

    fn compare(&self, rhs: &BitCode) -> (r: ComparisonResult) {
        match (self, rhs) {
            (BitCode::B0, BitCode::B0) => ComparisonResult::Equal,
            (BitCode::B0, BitCode::B1) => ComparisonResult::Less,
            (BitCode::B1, BitCode::B0) => ComparisonResult::Greater,
            (BitCode::B1, BitCode::B1) => ComparisonResult::Equal,
        }
    }
}

impl Bit for BitCode {
    /// `B1` is the digit one.
    open spec fn is_set(&self) -> bool {
        *self == BitCode::B1
    }

    fn to_u8(&self) -> (r: u8)
        ensures
            r == self.value(),
    {
        match self {
            BitCode::B0 => 0,
            BitCode::B1 => 1,
        }
    }

    fn to_bool(&self) -> (r: bool) {
        match self {
            BitCode::B0 => false,
            BitCode::B1 => true,
        }
    }
}

} // verus!
