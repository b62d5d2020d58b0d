//! Division of unsigned chains with remainder, by shifting and subtracting.

use vstd::prelude::*;
use vstd::arithmetic::power2::{lemma_pow2_unfold, pow2};
use vstd::pervasive::unreached;
use crate::bit::BitCode;
use crate::type_operators::{Cmp, Len};
use crate::uint::UIntCode;
use crate::{ArithmeticError, ComparisonResult};

verus! {

/// A number written as a multiple of `d` plus something below `d` shows its
/// quotient and remainder by `d`.
pub proof fn lemma_quotient(x: int, d: int, q: int, r: int)
    requires
        d > 0,
        0 <= r < d,
        x == q * d + r,
    ensures
        x / d == q,
        x % d == r,
{
    vstd::arithmetic::div_mod::lemma_fundamental_div_mod_converse_div(x, d, q, r);
    vstd::arithmetic::div_mod::lemma_fundamental_div_mod_converse_mod(x, d, q, r);
}

/// Halving a divisor that was shifted up by `i` digits gives the same
/// divisor shifted up by one digit less.
proof fn lemma_halve_shifted(d: nat, i: nat)
    requires
        i > 0,
        d > 0,
        d % pow2(i) == 0,
    ensures
        (d / 2) % pow2((i - 1) as nat) == 0,
        (d / 2) / pow2((i - 1) as nat) == d / pow2(i),
        d / 2 > 0,
        d == 2 * (d / 2),
        d == (d / pow2(i)) * pow2(i),
        d / pow2(i) > 0,
{
    let p = pow2(i);
    let h = pow2((i - 1) as nat);
    let e = d / p;
    lemma_pow2_unfold(i);
    vstd::arithmetic::power2::lemma_pow2_pos((i - 1) as nat);
    vstd::arithmetic::div_mod::lemma_fundamental_div_mod(d as int, p as int);
    assert(d == e * p) by (nonlinear_arith)
        requires
            d == p * e + 0,
    ;
    assert(e > 0) by (nonlinear_arith)
        requires
            d == e * p,
            d > 0,
            p > 0,
    ;
    assert(d == 2 * (e * h)) by (nonlinear_arith)
        requires
            d == e * p,
            p == 2 * h,
    ;
    assert(e * h > 0) by (nonlinear_arith)
        requires
            e > 0,
            h > 0,
    ;
    vstd::arithmetic::div_mod::lemma_mod_multiples_basic(e as int, h as int);
    vstd::arithmetic::div_mod::lemma_div_by_multiple(e as int, h as int);
}

impl UIntCode {
    /// By how many digits `self` is longer than `rhs`; zero where it is
    /// not longer.
    pub fn bit_diff(&self, rhs: &UIntCode) -> (r: UIntCode)
        ensures
            r@ == (if self.size() >= rhs.size() {
                self.size() - rhs.size()
            } else {
                0
            }),
            r.canonical(),
        decreases self,
    {
        match (self.split(), rhs.split()) {
            (Some((_, left)), Some((_, right))) => left.bit_diff(right),
            (_, None) => self.len(),
            (None, Some(_)) => UIntCode::Term,
        }
    }

    /// One round of long division and all the rounds after it.
    ///
    /// `d` is the divisor shifted up by `i` digits and `q` the quotient
    /// found so far. Where the remainder reaches `d`, `d` is taken from it
    /// and 2 to the `i` is added to the quotient; then the round for `i -
    /// 1` follows with `d` halved, until the round for `i = 0` is done. A
    /// remainder that equals `d` ends the division at once.
    ///
    /// Returns the quotient and what is left of the remainder.
    pub fn private_div(remainder: UIntCode, i: &UIntCode, q: UIntCode, d: UIntCode) -> (r: (
        UIntCode,
        UIntCode,
    ))
        requires
            remainder.canonical(),
            q.canonical(),
            d.canonical(),
            d@ > 0,
            d@ % pow2(i@) == 0,
            remainder@ < 2 * d@,
        ensures
            r.0@ == q@ + remainder@ / (d@ / pow2(i@)),
            r.1@ == remainder@ % (d@ / pow2(i@)),
            r.0.canonical(),
            r.1.canonical(),
        decreases i@,
    {
        let ghost e = d@ / pow2(i@);
        let verdict = remainder.compare(&d);
        proof {
            remainder.lemma_compare_canonical(d);
        }
        match i.sub_bit(BitCode::B1) {
            Err(_) => {
                proof {
                    vstd::arithmetic::power2::lemma2_to64();
                    vstd::arithmetic::div_mod::lemma_div_basics(d@ as int);
                    assert(e == d@);
                }
                match verdict {
                    ComparisonResult::Less => {
                        proof {
                            lemma_quotient(remainder@ as int, e as int, 0, remainder@ as int);
                        }
                        (q, remainder)
                    },
                    ComparisonResult::Equal => {
                        proof {
                            lemma_quotient(remainder@ as int, e as int, 1, 0);
                        }
                        (q.add_bit(BitCode::B1), UIntCode::Term)
                    },
                    ComparisonResult::Greater => match remainder.sub(&d) {
                        Ok(left) => {
                            proof {
                                lemma_quotient(remainder@ as int, e as int, 1, left@ as int);
                            }
                            (q.add_bit(BitCode::B1), left)
                        },
                        Err(_) => unreached(),
                    },
                }
            },
            Ok(less) => {
                proof {
                    lemma_halve_shifted(d@, i@);
                }
                match verdict {
                    ComparisonResult::Equal => {
                        let step = UIntCode::one().shl(i);
                        proof {
                            vstd::arithmetic::mul::lemma_mul_basics(pow2(i@) as int);
                            assert(remainder@ == pow2(i@) * e + 0) by (nonlinear_arith)
                                requires
                                    remainder@ == e * pow2(i@),
                            ;
                            lemma_quotient(remainder@ as int, e as int, pow2(i@) as int, 0);
                        }
                        (q.add(&step), UIntCode::Term)
                    },
                    ComparisonResult::Less => UIntCode::private_div(
                        remainder,
                        &less,
                        q,
                        d.shr_bit(BitCode::B1),
                    ),
                    ComparisonResult::Greater => match remainder.sub(&d) {
                        Ok(left) => {
                            let step = UIntCode::one().shl(i);
                            proof {
                                vstd::arithmetic::mul::lemma_mul_basics(pow2(i@) as int);
                                let q0 = left@ as int / e as int;
                                let m0 = left@ as int % e as int;
                                vstd::arithmetic::div_mod::lemma_fundamental_div_mod(
                                    left@ as int,
                                    e as int,
                                );
                                vstd::arithmetic::div_mod::lemma_mod_bound(
                                    left@ as int,
                                    e as int,
                                );
                                assert(remainder@ == (q0 + pow2(i@)) * e + m0)
                                    by (nonlinear_arith)
                                    requires
                                        left@ == e * q0 + m0,
                                        remainder@ - e * pow2(i@) == left@,
                                ;
                                lemma_quotient(remainder@ as int, e as int, q0 + pow2(i@), m0);
                            }
                            UIntCode::private_div(
                                left,
                                &less,
                                q.add(&step),
                                d.shr_bit(BitCode::B1),
                            )
                        },
                        Err(_) => unreached(),
                    },
                }
            },
        }
    }

    /// Quotient and remainder of `self` by a `rhs` that is not zero.
    ///
    /// A `self` below `rhs` is its own remainder, and one equal to `rhs`
    /// gives the quotient one. Otherwise `rhs` is shifted up until it is as
    /// long as `self`, and long division runs from there.
    pub fn private_div_first_step(&self, rhs: &UIntCode) -> (r: (UIntCode, UIntCode))
        requires
            self.canonical(),
            rhs.canonical(),
            rhs@ > 0,
        ensures
            r.0@ == self@ / rhs@,
            r.1@ == self@ % rhs@,
            r.0.canonical(),
            r.1.canonical(),
    {
        proof {
            self.lemma_compare_canonical(*rhs);
        }
        match self.compare(rhs) {
            ComparisonResult::Less => {
                proof {
                    lemma_quotient(self@ as int, rhs@ as int, 0, self@ as int);
                }
                (UIntCode::Term, self.clone())
            },
            ComparisonResult::Equal => {
                proof {
                    lemma_quotient(self@ as int, rhs@ as int, 1, 0);
                }
                (UIntCode::one(), UIntCode::zero())
            },
            ComparisonResult::Greater => {
                let i = self.bit_diff(rhs);
                let d = rhs.shl(&i);
                proof {
                    let p = pow2(i@);
                    if self.size() < rhs.size() {
                        self.lemma_size_orders(*rhs);
                    }
                    self.lemma_size_bounds();
                    rhs.lemma_size_bounds();
                    vstd::arithmetic::power2::lemma_pow2_pos(i@);
                    vstd::arithmetic::div_mod::lemma_mod_multiples_basic(rhs@ as int, p as int);
                    vstd::arithmetic::div_mod::lemma_div_by_multiple(rhs@ as int, p as int);
                    let low = pow2((rhs.size() - 1) as nat);
                    vstd::arithmetic::power2::lemma_pow2_adds((rhs.size() - 1) as nat, i@);
                    lemma_pow2_unfold(self.size());
                    assert(low * p <= rhs@ * p) by (nonlinear_arith)
                        requires
                            low <= rhs@,
                            p > 0,
                    ;
                    assert(d@ > 0);
                }
                UIntCode::private_div(self.clone(), &i, UIntCode::Term, d)
            },
        }
    }

    /// Quotient and remainder of two numbers, or `DivisionByZero` where
    /// `rhs` is zero.
    pub fn div_rem(&self, rhs: &UIntCode) -> (r: Result<(UIntCode, UIntCode), ArithmeticError>)
        requires
            self.canonical(),
            rhs.canonical(),
        ensures
            match r {
                Ok((quotient, remainder)) => {
                    &&& rhs@ > 0
                    &&& quotient@ == self@ / rhs@
                    &&& remainder@ == self@ % rhs@
                    &&& quotient.canonical()
                    &&& remainder.canonical()
                    &&& quotient == UIntCode::from_nat(self@ / rhs@)
                    &&& remainder == UIntCode::from_nat(self@ % rhs@)
                },
                Err(e) => e == ArithmeticError::DivisionByZero && rhs@ == 0,
            },
    {
        proof {
            rhs.lemma_canonical_zero();
        }
        match rhs {
            UIntCode::Term => Err(ArithmeticError::DivisionByZero),
            _ => {
                let (quotient, remainder) = self.private_div_first_step(rhs);
                proof {
                    quotient.lemma_canonical_unique();
                    remainder.lemma_canonical_unique();
                }
                Ok((quotient, remainder))
            },
        }
    }

    /// The quotient of two numbers, rounded down, or `DivisionByZero`
    /// where `rhs` is zero.
    pub fn div(&self, rhs: &UIntCode) -> (r: Result<UIntCode, ArithmeticError>)
        requires
            self.canonical(),
            rhs.canonical(),
        ensures
            match r {
                Ok(quotient) => rhs@ > 0 && quotient@ == self@ / rhs@ && quotient.canonical()
                    && quotient == UIntCode::from_nat(self@ / rhs@),
                Err(e) => e == ArithmeticError::DivisionByZero && rhs@ == 0,
            },
    {
        match self.div_rem(rhs) {
            Ok((quotient, _)) => Ok(quotient),
            Err(e) => Err(e),
        }
    }

    /// The remainder of `self` by `rhs`, or `DivisionByZero` where `rhs` is
    /// zero.
    pub fn rem(&self, rhs: &UIntCode) -> (r: Result<UIntCode, ArithmeticError>)
        requires
            self.canonical(),
            rhs.canonical(),
        ensures
            match r {
                Ok(remainder) => rhs@ > 0 && remainder@ == self@ % rhs@ && remainder.canonical()
                    && remainder == UIntCode::from_nat(self@ % rhs@),
                Err(e) => e == ArithmeticError::DivisionByZero && rhs@ == 0,
            },
    {
        match self.div_rem(rhs) {
            Ok((_, remainder)) => Ok(remainder),
            Err(e) => Err(e),
        }
    }
}

} // verus!
