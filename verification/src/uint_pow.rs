//! Powers of unsigned chains, by repeated squaring.

use vstd::prelude::*;
use vstd::arithmetic::power::{lemma_pow0, lemma_pow1, lemma_pow_adds, lemma_pow_multiplies, pow};
use crate::type_operators::Pow;
use crate::uint::UIntCode;

verus! {

/// A power with an even exponent is a power of the square: `x` to the
/// `2 * m` is `x * x` to the `m`.
pub proof fn lemma_pow_even(x: int, m: nat)
    ensures
        pow(x, 2 * m) == pow(x * x, m),
{
    lemma_pow1(x);
    lemma_pow_adds(x, 1, 1);
    lemma_pow_multiplies(x, 2, m);
}

/// A power with an odd exponent is the base times a power of the square:
/// `x` to the `2 * m + 1` is `x` times `x * x` to the `m`.
pub proof fn lemma_pow_odd(x: int, m: nat)
    ensures
        pow(x, 2 * m + 1) == x * pow(x * x, m),
{
    lemma_pow_even(x, m);
    lemma_pow1(x);
    lemma_pow_adds(x, 1, 2 * m);
}

/// A power of a natural number is a natural number.
pub proof fn lemma_pow_nat(x: nat, n: nat)
    ensures
        pow(x as int, n) >= 0,
    decreases n,
{
    if n == 0 {
        lemma_pow0(x as int);
    } else {
        lemma_pow_nat(x, (n - 1) as nat);
        lemma_pow1(x as int);
        lemma_pow_adds(x as int, 1, (n - 1) as nat);
        assert(x * pow(x as int, (n - 1) as nat) >= 0) by (nonlinear_arith)
            requires
                x >= 0,
                pow(x as int, (n - 1) as nat) >= 0,
        ;
    }
}

impl UIntCode {
    /// `acc` times `x` to the power of `n`.
    ///
    /// The digits of `n` are taken from the least significant one upwards.
    /// With each digit `x` is squared; where the digit is a one, `acc` is
    /// multiplied by `x` as it stood before.
    pub fn private_pow(x: &UIntCode, acc: UIntCode, n: &UIntCode) -> (r: UIntCode)
        ensures
            r@ == acc@ * pow(x@ as int, n@),
            x.canonical() && acc.canonical() ==> r.canonical(),
        decreases n,
    {
        match n {
            UIntCode::Term => {
                proof {
                    lemma_pow0(x@ as int);
                    vstd::arithmetic::mul::lemma_mul_basics(acc@ as int);
                }
                acc
            },
            UIntCode::Zero(rest) => {
                proof {
                    lemma_pow_even(x@ as int, rest@);
                }
                UIntCode::private_pow(&x.mul(x), acc, rest)
            },
            UIntCode::One(rest) => {
                proof {
                    lemma_pow_odd(x@ as int, rest@);
                    let high = pow((x@ * x@) as int, rest@);
                    assert((x@ * acc@) * high == acc@ * (x@ * high)) by (nonlinear_arith);
                }
                match &**rest {
                    UIntCode::Term => {
                        proof {
                            lemma_pow0((x@ * x@) as int);
                            assert(x@ * acc@ == acc@ * (x@ * 1)) by (nonlinear_arith);
                        }
                        x.mul(&acc)
                    },
                    _ => UIntCode::private_pow(&x.mul(x), x.mul(&acc), rest),
                }
            },
        }
    }

    /// `self` to the power of `exp`; any number to the power of zero is
    /// one, zero included.
    pub fn pow(&self, exp: &UIntCode) -> (r: UIntCode)
        ensures
            r@ == pow(self@ as int, exp@),
            self.canonical() ==> r.canonical() && r == UIntCode::from_nat(
                pow(self@ as int, exp@) as nat,
            ),
    {
        let r = UIntCode::private_pow(self, UIntCode::one(), exp);
        proof {
            if r.canonical() {
                r.lemma_canonical_unique();
            }
        }
        r
    }
}

impl Pow<UIntCode> for UIntCode {
    type Output = UIntCode;

    /// Any base and any exponent will do.
    open spec fn powi_requires(&self, exp: &UIntCode) -> bool {
        true
    }

    /// The result denotes the power, and is canonical where the base is.
    open spec fn powi_ensures(&self, exp: &UIntCode, r: &UIntCode) -> bool {
        &&& r.value() == pow(self.value() as int, exp.value())
        &&& self.canonical() ==> r.canonical() && *r == UIntCode::from_nat(
            pow(self.value() as int, exp.value()) as nat,
        )
    }

    fn powi(self, exp: &UIntCode) -> (r: UIntCode) {
        self.pow(exp)
    }
}

} // verus!
