//! Operations that several kinds of number share.

use vstd::prelude::*;
use crate::ComparisonResult;

verus! {

/// Three-way comparison of `Self` with `Rhs`.
pub trait Cmp<Rhs = Self> {
    /// How `self` compares with `rhs`.
    spec fn compare_spec(&self, rhs: &Rhs) -> ComparisonResult;

    /// Compares `self` with `rhs`.
    fn compare(&self, rhs: &Rhs) -> (r: ComparisonResult)
        ensures
            r == self.compare_spec(rhs),
    ;
}

/// Raising `Self` to a power given as an `Exp`.
pub trait Pow<Exp> {
    /// The kind of number that the power is.
    type Output;

    /// What a call asks of the base and the exponent.
    spec fn powi_requires(&self, exp: &Exp) -> bool;

    /// What a call promises of its result `r`.
    spec fn powi_ensures(&self, exp: &Exp, r: &Self::Output) -> bool;

    /// `self` to the power of `exp`.
    fn powi(self, exp: &Exp) -> (r: Self::Output)
        requires
            self.powi_requires(exp),
        ensures
            self.powi_ensures(exp, &r),
    ;
}

/// The number of digits of a chain, or of items of an array.
pub trait Len {
    /// The kind of number that the length is.
    type Output;

    /// The length.
    spec fn len_spec(&self) -> Self::Output;

    /// Counts the digits or items.
    fn len(&self) -> (r: Self::Output)
        ensures
            r == self.len_spec(),
    ;
}

} // verus!
