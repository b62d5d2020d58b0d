//! Addition and multiplication of unsigned chains.

use vstd::prelude::*;
use crate::bit::BitCode;
use crate::marker_traits::Bit;
use crate::private::{PrivateSub, Trim};
use crate::uint::UIntCode;
use crate::ArithmeticError;

verus! {

/// The digit that is one when at least two of the three digits are one:
/// the carry out of a column whose digits are `a`, `b` and `c`.
pub open spec fn majority(a: BitCode, b: BitCode, c: BitCode) -> BitCode {
    BitCode::of(a.value() + b.value() + c.value() >= 2)
}

/// The digit that is one when an odd number of the three digits is one: the
/// sum digit of a column whose digits are `a`, `b` and `c`.
pub open spec fn parity(a: BitCode, b: BitCode, c: BitCode) -> BitCode {
    BitCode::of((a.value() + b.value() + c.value()) % 2 == 1)
}

impl UIntCode {
    /// The chain for twice the number: a zero digit is put below the
    /// digits, except that a chain without digits stays as it is.
    pub fn doubled(self) -> (r: UIntCode)
        ensures
            r@ == 2 * self@,
            r == (if self is Term {
                UIntCode::Term
            } else {
                UIntCode::Zero(Box::new(self))
            }),
            self.canonical() ==> r.canonical(),
    {
        match self {
            UIntCode::Term => UIntCode::Term,
            other => UIntCode::Zero(Box::new(other)),
        }
    }

    /// The number plus the value of one digit.
    ///
    /// Adding 0 changes nothing; adding 1 turns the lowest 0 digit into a 1
    /// and every 1 digit below it into a 0.
    pub fn add_bit(&self, bit: BitCode) -> (r: UIntCode)
        ensures
            r@ == self@ + bit.value(),
            self.canonical() ==> r.canonical() && r == UIntCode::from_nat(self@ + bit.value()),
        decreases self,
    {
        let r = match bit {
            BitCode::B0 => self.clone(),
            BitCode::B1 => match self {
                UIntCode::Term => UIntCode::One(Box::new(UIntCode::Term)),
                UIntCode::Zero(rest) => UIntCode::One(Box::new((**rest).clone())),
                UIntCode::One(rest) => UIntCode::Zero(Box::new(rest.add_bit(BitCode::B1))),
            },
        };
        proof {
            if self.canonical() {
                r.lemma_canonical_unique();
            }
        }
        r
    }

    /// The sum of two numbers and a carry digit, column by column from the
    /// least significant digit: each column yields the parity of its three
    /// digits and hands their majority on as the next carry. Where one
    /// chain ends, the carry is added to what is left of the other.
    pub fn add_with_carry(&self, rhs: &UIntCode, carry: BitCode) -> (r: UIntCode)
        ensures
            r@ == self@ + rhs@ + carry.value(),
            self.canonical() && rhs.canonical() ==> r.canonical() && r == UIntCode::from_nat(
                self@ + rhs@ + carry.value(),
            ),
        decreases self,
    {
        let r = match (self.split(), rhs.split()) {
            (None, _) => rhs.add_bit(carry),
            (_, None) => self.add_bit(carry),
            (Some((a, left)), Some((b, right))) => {
                let sum = a.bitxor(b).bitxor(carry);
                let carry_out = a.bitand(b).bitor(carry.bitand(a.bitxor(b)));
                assert(sum == parity(a, b, carry));
                assert(carry_out == majority(a, b, carry));
                let high = left.add_with_carry(right, carry_out);
                proof {
                    if self.canonical() && rhs.canonical() {
                        left.lemma_canonical_zero();
                        right.lemma_canonical_zero();
                    }
                }
                UIntCode::digit(sum, high)
            },
        };
        proof {
            if self.canonical() && rhs.canonical() {
                r.lemma_canonical_unique();
            }
        }
        r
    }

    /// The sum of two numbers.
    pub fn add(&self, rhs: &UIntCode) -> (r: UIntCode)
        ensures
            r@ == self@ + rhs@,
            self.canonical() && rhs.canonical() ==> r.canonical() && r == UIntCode::from_nat(
                self@ + rhs@,
            ),
    {
        self.add_with_carry(rhs, BitCode::B0)
    }

    /// The number less the value of one digit.
    ///
    /// Taking 0 changes nothing; taking 1 turns the lowest 1 digit into a 0
    /// and every 0 digit below it into a 1. There is no result where the
    /// number is smaller than the digit.
    pub fn sub_bit(&self, bit: BitCode) -> (r: Result<UIntCode, ArithmeticError>)
        ensures
            match r {
                Ok(d) => self@ >= bit.value() && d@ == self@ - bit.value() && (self.canonical()
                    ==> d.canonical() && d == UIntCode::from_nat((self@ - bit.value()) as nat)),
                Err(e) => e == ArithmeticError::Underflow && self@ < bit.value(),
            },
        decreases self,
    {
        let r = match bit {
            BitCode::B0 => Ok(self.clone()),
            BitCode::B1 => match self {
                UIntCode::Term => Err(ArithmeticError::Underflow),
                UIntCode::One(rest) => match &**rest {
                    UIntCode::Term => Ok(UIntCode::Term),
                    _ => Ok(UIntCode::Zero(Box::new((**rest).clone()))),
                },
                UIntCode::Zero(rest) => match rest.sub_bit(BitCode::B1) {
                    Ok(high) => Ok(UIntCode::One(Box::new(high))),
                    Err(e) => Err(e),
                },
            },
        };
        proof {
            if self.canonical() && r is Ok {
                r->Ok_0.lemma_canonical_unique();
            }
        }
        r
    }

    /// The difference of two numbers in canonical form, or `Underflow`
    /// where `rhs` is the larger one.
    pub fn sub(&self, rhs: &UIntCode) -> (r: Result<UIntCode, ArithmeticError>)
        ensures
            match r {
                Ok(d) => self@ >= rhs@ && d == UIntCode::from_nat((self@ - rhs@) as nat) && d@
                    == self@ - rhs@ && d.canonical(),
                Err(e) => e == ArithmeticError::Underflow && self@ < rhs@,
            },
    {
        match self.private_sub(rhs) {
            Some(untrimmed) => {
                proof {
                    self.lemma_size_bounds();
                    UIntCode::lemma_with_size((self@ - rhs@) as nat, self.size());
                }
                Ok(untrimmed.trim())
            },
            None => Err(ArithmeticError::Underflow),
        }
    }

    /// The product of two numbers, by shifting and adding: the product
    /// with the digits of `rhs` above its lowest one is doubled, and `self`
    /// is added to it where that lowest digit is a one.
    pub fn mul(&self, rhs: &UIntCode) -> (r: UIntCode)
        ensures
            r@ == self@ * rhs@,
            self.canonical() && rhs.canonical() ==> r.canonical() && r == UIntCode::from_nat(
                self@ * rhs@,
            ),
    {
        let r = self.shift_add(rhs);
        proof {
            if r.canonical() {
                r.lemma_canonical_unique();
            }
        }
        r
    }

    /// The working step of [`UIntCode::mul`], one digit of `rhs` at a time.
    fn shift_add(&self, rhs: &UIntCode) -> (r: UIntCode)
        ensures
            r@ == self@ * rhs@,
            self.canonical() && rhs.canonical() ==> r.canonical(),
        decreases rhs,
    {
        proof {
            vstd::arithmetic::mul::lemma_mul_basics(self@ as int);
            vstd::arithmetic::mul::lemma_mul_basics(rhs@ as int);
        }
        match (self, rhs.split()) {
            (UIntCode::Term, _) => UIntCode::Term,
            (_, None) => UIntCode::Term,
            (_, Some((bit, high))) => {
                let shifted = self.shift_add(high).doubled();
                assert(self@ * rhs@ == 2 * (self@ * high@) + self@ * bit.value())
                    by (nonlinear_arith)
                    requires
                        rhs@ == 2 * high@ + bit.value(),
                ;
                match bit {
                    BitCode::B0 => shifted,
                    BitCode::B1 => shifted.add(self),
                }
            },
        }
    }
}

} // verus!
