//! Arithmetic on signed integers: the signs decide, the magnitudes are
//! combined as unsigned chains.

use vstd::prelude::*;
use vstd::arithmetic::power::pow;
use vstd::pervasive::unreached;
use crate::integer::IntCode;
use crate::type_operators::{Cmp, Pow};
use crate::uint::UIntCode;
use crate::uint_pow::{lemma_pow_even, lemma_pow_odd};
use crate::{compare_ints, ArithmeticError, ComparisonResult};

verus! {

/// The absolute value of a number.
pub open spec fn abs_int(a: int) -> int {
    if a < 0 {
        -a
    } else {
        a
    }
}

/// The quotient rounded towards zero: the quotient of the absolute values,
/// negative where the signs of `a` and `b` differ.
pub open spec fn trunc_div(a: int, b: int) -> int {
    let q = abs_int(a) / abs_int(b);
    if (a < 0) != (b < 0) {
        -q
    } else {
        q
    }
}

/// The remainder that goes with [`trunc_div`]: the remainder of the
/// absolute values, with the sign of `a`.
pub open spec fn trunc_rem(a: int, b: int) -> int {
    let m = abs_int(a) % abs_int(b);
    if a < 0 {
        -m
    } else {
        m
    }
}

/// `base` to the power of `exp` where that is an integer.
///
/// Any number to the power of zero is one. A negative exponent gives a
/// result only for the bases 0, 1 and -1: zero stays zero, one stays one,
/// and minus one alternates with the parity of the exponent.
pub open spec fn int_pow(base: int, exp: int) -> Option<int> {
    if exp >= 0 {
        Some(pow(base, exp as nat))
    } else if base == 0 {
        Some(0)
    } else if base == 1 {
        Some(1)
    } else if base == -1 {
        Some(
            if exp % 2 == 0 {
                1
            } else {
                -1
            },
        )
    } else {
        None
    }
}

/// A power of the opposite number is the power or its opposite, as the
/// exponent is even or odd.
pub proof fn lemma_pow_neg(a: int, n: nat)
    ensures
        pow(-a, n) == (if n % 2 == 0 {
            pow(a, n)
        } else {
            -pow(a, n)
        }),
{
    let m = n / 2;
    assert((-a) * (-a) == a * a) by (nonlinear_arith);
    if n % 2 == 0 {
        assert(n == 2 * m);
        lemma_pow_even(a, m);
        lemma_pow_even(-a, m);
    } else {
        assert(n == 2 * m + 1);
        lemma_pow_odd(a, m);
        lemma_pow_odd(-a, m);
        assert((-a) * pow(a * a, m) == -(a * pow(a * a, m))) by (nonlinear_arith);
    }
}

impl Cmp for IntCode {
    /// The sign decides first: a `Neg` is below `Zero`, and `Zero` below a
    /// `Pos`. Two `Pos` compare as their magnitudes, two `Neg` as their
    /// magnitudes the other way round. For well-formed values this is the
    /// order of the numbers, see [`IntCode::lemma_compare_wf`].
    open spec fn compare_spec(&self, rhs: &IntCode) -> ComparisonResult {
        match (*self, *rhs) {
            (IntCode::Zero, IntCode::Zero) => ComparisonResult::Equal,
            (IntCode::Zero, IntCode::Pos(_)) => ComparisonResult::Less,
            (IntCode::Zero, IntCode::Neg(_)) => ComparisonResult::Greater,
            (IntCode::Pos(_), IntCode::Zero) => ComparisonResult::Greater,
            (IntCode::Pos(a), IntCode::Pos(b)) => a.compare_spec(&*b),
            (IntCode::Pos(_), IntCode::Neg(_)) => ComparisonResult::Greater,
            (IntCode::Neg(_), IntCode::Zero) => ComparisonResult::Less,
            (IntCode::Neg(_), IntCode::Pos(_)) => ComparisonResult::Less,
            (IntCode::Neg(a), IntCode::Neg(b)) => b.compare_spec(&*a),
        }
    }

    fn compare(&self, rhs: &IntCode) -> (r: ComparisonResult) {
        match (self, rhs) {
            (IntCode::Zero, IntCode::Zero) => ComparisonResult::Equal,
            (IntCode::Zero, IntCode::Pos(_)) => ComparisonResult::Less,
            (IntCode::Zero, IntCode::Neg(_)) => ComparisonResult::Greater,
            (IntCode::Pos(_), IntCode::Zero) => ComparisonResult::Greater,
            (IntCode::Pos(a), IntCode::Pos(b)) => a.compare(b),
            (IntCode::Pos(_), IntCode::Neg(_)) => ComparisonResult::Greater,
            (IntCode::Neg(_), IntCode::Zero) => ComparisonResult::Less,
            (IntCode::Neg(_), IntCode::Pos(_)) => ComparisonResult::Less,
            (IntCode::Neg(a), IntCode::Neg(b)) => b.compare(a),
        }
    }
}

impl IntCode {
    /// Well-formed values compare as the numbers they denote.
    pub proof fn lemma_compare_wf(self, rhs: IntCode)
        requires
            self.wf(),
            rhs.wf(),
        ensures
            self.compare_spec(&rhs) == compare_ints(self@, rhs@),
    {
        self.lemma_wf_sign();
        rhs.lemma_wf_sign();
        self.magnitude().lemma_compare_canonical(rhs.magnitude());
        rhs.magnitude().lemma_compare_canonical(self.magnitude());
    }

    /// The sum of a number above zero, given by its magnitude `p`, and a
    /// number below zero, given by its magnitude `n`: the larger magnitude
    /// less the smaller one, with the sign of the larger.
    pub fn private_integer_add(p: &UIntCode, n: &UIntCode) -> (r: IntCode)
        requires
            p.canonical(),
            n.canonical(),
        ensures
            r@ == p@ - n@,
            r.wf(),
            r == IntCode::from_int(p@ - n@),
    {
        proof {
            p.lemma_compare_canonical(*n);
        }
        let r = match p.compare(n) {
            ComparisonResult::Equal => IntCode::Zero,
            ComparisonResult::Greater => match p.sub(n) {
                Ok(d) => IntCode::Pos(Box::new(d)),
                Err(_) => unreached(),
            },
            ComparisonResult::Less => match n.sub(p) {
                Ok(d) => IntCode::Neg(Box::new(d)),
                Err(_) => unreached(),
            },
        };
        proof {
            r.lemma_wf_unique();
        }
        r
    }

    /// The sum of two numbers.
    pub fn add(&self, rhs: &IntCode) -> (r: IntCode)
        requires
            self.wf(),
            rhs.wf(),
        ensures
            r@ == self@ + rhs@,
            r.wf(),
            r == IntCode::from_int(self@ + rhs@),
    {
        proof {
            self.lemma_wf_sign();
            rhs.lemma_wf_sign();
        }
        let r = match (self, rhs) {
            (IntCode::Zero, _) => rhs.clone(),
            (_, IntCode::Zero) => self.clone(),
            (IntCode::Pos(a), IntCode::Pos(b)) => IntCode::Pos(Box::new(a.add(b))),
            (IntCode::Neg(a), IntCode::Neg(b)) => IntCode::Neg(Box::new(a.add(b))),
            (IntCode::Pos(a), IntCode::Neg(b)) => IntCode::private_integer_add(a, b),
            (IntCode::Neg(a), IntCode::Pos(b)) => IntCode::private_integer_add(b, a),
        };
        proof {
            r.lemma_wf_unique();
        }
        r
    }

    /// The difference of two numbers: `self` plus the opposite of `rhs`.
    pub fn sub(&self, rhs: &IntCode) -> (r: IntCode)
        requires
            self.wf(),
            rhs.wf(),
        ensures
            r@ == self@ - rhs@,
            r.wf(),
            r == IntCode::from_int(self@ - rhs@),
    {
        self.add(&rhs.neg())
    }

    /// The product of two numbers: the product of the magnitudes, below
    /// zero where exactly one factor is.
    pub fn mul(&self, rhs: &IntCode) -> (r: IntCode)
        requires
            self.wf(),
            rhs.wf(),
        ensures
            r@ == self@ * rhs@,
            r.wf(),
            r == IntCode::from_int(self@ * rhs@),
    {
        proof {
            self.lemma_wf_sign();
            rhs.lemma_wf_sign();
            let a = self.magnitude()@ as int;
            let b = rhs.magnitude()@ as int;
            vstd::arithmetic::mul::lemma_mul_basics(self@);
            vstd::arithmetic::mul::lemma_mul_basics(rhs@);
            assert(a > 0 && b > 0 ==> a * b > 0) by (nonlinear_arith);
            assert((-a) * b == -(a * b) && a * (-b) == -(a * b) && (-a) * (-b) == a * b)
                by (nonlinear_arith);
        }
        let r = match (self, rhs) {
            (IntCode::Zero, _) => IntCode::Zero,
            (_, IntCode::Zero) => IntCode::Zero,
            (IntCode::Pos(a), IntCode::Pos(b)) => IntCode::Pos(Box::new(a.mul(b))),
            (IntCode::Neg(a), IntCode::Neg(b)) => IntCode::Pos(Box::new(a.mul(b))),
            (IntCode::Pos(a), IntCode::Neg(b)) => IntCode::Neg(Box::new(a.mul(b))),
            (IntCode::Neg(a), IntCode::Pos(b)) => IntCode::Neg(Box::new(a.mul(b))),
        };
        proof {
            r.lemma_wf_unique();
        }
        r
    }

    /// The value with the given canonical magnitude and sign, `Zero` where
    /// the magnitude is zero.
    fn signed(magnitude: UIntCode, negative: bool) -> (r: IntCode)
        requires
            magnitude.canonical(),
        ensures
            r.wf(),
            r@ == (if negative {
                -(magnitude@ as int)
            } else {
                magnitude@ as int
            }),
    {
        match magnitude {
            UIntCode::Term => IntCode::Zero,
            other => if negative {
                IntCode::Neg(Box::new(other))
            } else {
                IntCode::Pos(Box::new(other))
            },
        }
    }

    /// The quotient of two numbers, rounded towards zero, or
    /// `DivisionByZero` where `rhs` is zero.
    pub fn div(&self, rhs: &IntCode) -> (r: Result<IntCode, ArithmeticError>)
        requires
            self.wf(),
            rhs.wf(),
        ensures
            match r {
                Ok(q) => rhs@ != 0 && q@ == trunc_div(self@, rhs@) && q.wf() && q
                    == IntCode::from_int(trunc_div(self@, rhs@)),
                Err(e) => e == ArithmeticError::DivisionByZero && rhs@ == 0,
            },
    {
        proof {
            self.lemma_wf_sign();
            rhs.lemma_wf_sign();
        }
        let r = match (self, rhs) {
            (_, IntCode::Zero) => Err(ArithmeticError::DivisionByZero),
            (IntCode::Zero, _) => {
                proof {
                    vstd::arithmetic::div_mod::lemma_div_basics(abs_int(rhs@));
                }
                Ok(IntCode::Zero)
            },
            (IntCode::Pos(a), IntCode::Pos(b)) => match a.div(b) {
                Ok(q) => Ok(IntCode::signed(q, false)),
                Err(e) => Err(e),
            },
            (IntCode::Neg(a), IntCode::Neg(b)) => match a.div(b) {
                Ok(q) => Ok(IntCode::signed(q, false)),
                Err(e) => Err(e),
            },
            (IntCode::Pos(a), IntCode::Neg(b)) => match a.div(b) {
                Ok(q) => Ok(IntCode::signed(q, true)),
                Err(e) => Err(e),
            },
            (IntCode::Neg(a), IntCode::Pos(b)) => match a.div(b) {
                Ok(q) => Ok(IntCode::signed(q, true)),
                Err(e) => Err(e),
            },
        };
        proof {
            if r is Ok {
                r->Ok_0.lemma_wf_unique();
            }
        }
        r
    }

    /// The remainder of `self` by `rhs`, or `DivisionByZero` where `rhs` is
    /// zero. The remainder has the sign of `self`, not that of `rhs`.
    pub fn rem(&self, rhs: &IntCode) -> (r: Result<IntCode, ArithmeticError>)
        requires
            self.wf(),
            rhs.wf(),
        ensures
            match r {
                Ok(m) => rhs@ != 0 && m@ == trunc_rem(self@, rhs@) && m.wf() && m
                    == IntCode::from_int(trunc_rem(self@, rhs@)),
                Err(e) => e == ArithmeticError::DivisionByZero && rhs@ == 0,
            },
    {
        proof {
            self.lemma_wf_sign();
            rhs.lemma_wf_sign();
        }
        let r = match (self, rhs) {
            (_, IntCode::Zero) => Err(ArithmeticError::DivisionByZero),
            (IntCode::Zero, _) => {
                proof {
                    vstd::arithmetic::div_mod::lemma_small_mod(0, abs_int(rhs@) as nat);
                }
                Ok(IntCode::Zero)
            },
            (IntCode::Pos(a), IntCode::Pos(b)) => match a.rem(b) {
                Ok(m) => Ok(IntCode::signed(m, false)),
                Err(e) => Err(e),
            },
            (IntCode::Pos(a), IntCode::Neg(b)) => match a.rem(b) {
                Ok(m) => Ok(IntCode::signed(m, false)),
                Err(e) => Err(e),
            },
            (IntCode::Neg(a), IntCode::Pos(b)) => match a.rem(b) {
                Ok(m) => Ok(IntCode::signed(m, true)),
                Err(e) => Err(e),
            },
            (IntCode::Neg(a), IntCode::Neg(b)) => match a.rem(b) {
                Ok(m) => Ok(IntCode::signed(m, true)),
                Err(e) => Err(e),
            },
        };
        proof {
            if r is Ok {
                r->Ok_0.lemma_wf_unique();
            }
        }
        r
    }

    /// `self` to the power of `exp`, or `NegativeExponent` where the
    /// exponent is below zero and the base is none of 0, 1 and -1.
    ///
    /// Any number to the power of zero is one, zero included. A base below
    /// zero gives a result below zero for odd exponents only.
    pub fn pow(&self, exp: &IntCode) -> (r: Result<IntCode, ArithmeticError>)
        requires
            self.wf(),
            exp.wf(),
        ensures
            match r {
                Ok(p) => int_pow(self@, exp@) == Some(p@) && p.wf(),
                Err(e) => e == ArithmeticError::NegativeExponent && int_pow(self@, exp@) is None,
            },
    {
        proof {
            self.lemma_wf_sign();
            exp.lemma_wf_sign();
        }
        match (self, exp) {
            (_, IntCode::Zero) => {
                proof {
                    vstd::arithmetic::power::lemma_pow0(self@);
                }
                Ok(IntCode::Pos(Box::new(UIntCode::one())))
            },
            (IntCode::Zero, IntCode::Pos(n)) => {
                proof {
                    vstd::arithmetic::power::lemma0_pow(n@);
                }
                Ok(IntCode::Zero)
            },
            (IntCode::Zero, IntCode::Neg(_)) => Ok(IntCode::Zero),
            (IntCode::Pos(a), IntCode::Pos(n)) => {
                proof {
                    vstd::arithmetic::power::lemma_pow_positive(a@ as int, n@);
                }
                Ok(IntCode::signed(a.pow(n), false))
            },
            (IntCode::Neg(a), IntCode::Pos(n)) => {
                proof {
                    vstd::arithmetic::power::lemma_pow_positive(a@ as int, n@);
                    lemma_pow_neg(a@ as int, n@);
                }
                match &**n {
                    UIntCode::One(_) => Ok(IntCode::signed(a.pow(n), true)),
                    _ => Ok(IntCode::signed(a.pow(n), false)),
                }
            },
            (IntCode::Pos(a), IntCode::Neg(_)) => match &**a {
                UIntCode::One(rest) => match &**rest {
                    UIntCode::Term => Ok(IntCode::Pos(Box::new(UIntCode::one()))),
                    _ => {
                        proof {
                            rest.lemma_canonical_zero();
                        }
                        Err(ArithmeticError::NegativeExponent)
                    },
                },
                _ => Err(ArithmeticError::NegativeExponent),
            },
            (IntCode::Neg(a), IntCode::Neg(n)) => match &**a {
                UIntCode::One(rest) => match &**rest {
                    UIntCode::Term => match &**n {
                        UIntCode::One(_) => Ok(IntCode::Neg(Box::new(UIntCode::one()))),
                        _ => Ok(IntCode::Pos(Box::new(UIntCode::one()))),
                    },
                    _ => {
                        proof {
                            rest.lemma_canonical_zero();
                        }
                        Err(ArithmeticError::NegativeExponent)
                    },
                },
                _ => Err(ArithmeticError::NegativeExponent),
            },
        }
    }
}

impl Pow<IntCode> for IntCode {
    type Output = Result<IntCode, ArithmeticError>;

    /// Base and exponent are to be well formed.
    open spec fn powi_requires(&self, exp: &IntCode) -> bool {
        self.wf() && exp.wf()
    }

    /// The result is the power where that is an integer, in well-formed
    /// shape, and `NegativeExponent` where it is none.
    open spec fn powi_ensures(&self, exp: &IntCode, r: &Result<IntCode, ArithmeticError>) -> bool {
        match *r {
            Ok(p) => int_pow(self.value(), exp.value()) == Some(p.value()) && p.wf(),
            Err(e) => e == ArithmeticError::NegativeExponent && int_pow(
                self.value(),
                exp.value(),
            ) is None,
        }
    }

    fn powi(self, exp: &IntCode) -> (r: Result<IntCode, ArithmeticError>) {
        self.pow(exp)
    }
}

} // verus!
