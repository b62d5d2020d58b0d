//! Digit-wise logic, shifts and length of unsigned chains.

use vstd::prelude::*;
use vstd::arithmetic::power2::{lemma_pow2_unfold, pow2};
use crate::bit::BitCode;
use crate::marker_traits::Bit;
use crate::private::{PrivateAnd, PrivateXor, Trim};
use crate::type_operators::Len;
use crate::uint::UIntCode;

verus! {

/// The number whose binary digits are one where those of both `a` and `b`
/// are one.
pub open spec fn nat_and(a: nat, b: nat) -> nat
    decreases a,
{
    if a == 0 || b == 0 {
        0
    } else {
        2 * nat_and(a / 2, b / 2) + (if a % 2 == 1 && b % 2 == 1 {
            1nat
        } else {
            0nat
        })
    }
}

/// The number whose binary digits are one where those of `a` or of `b` are
/// one.
pub open spec fn nat_or(a: nat, b: nat) -> nat
    decreases a,
{
    if a == 0 {
        b
    } else if b == 0 {
        a
    } else {
        2 * nat_or(a / 2, b / 2) + (if a % 2 == 1 || b % 2 == 1 {
            1nat
        } else {
            0nat
        })
    }
}

/// The number whose binary digits are one where those of `a` and `b`
/// differ.
pub open spec fn nat_xor(a: nat, b: nat) -> nat
    decreases a,
{
    if a == 0 {
        b
    } else if b == 0 {
        a
    } else {
        2 * nat_xor(a / 2, b / 2) + (if (a % 2 == 1) != (b % 2 == 1) {
            1nat
        } else {
            0nat
        })
    }
}

/// The lowest digit of an AND is the AND of the lowest digits, and the
/// digits above it are the AND of the digits above.
pub proof fn lemma_nat_and_step(a: nat, b: nat)
    ensures
        (nat_and(a, b) % 2 == 1) == (a % 2 == 1 && b % 2 == 1),
        nat_and(a, b) / 2 == nat_and(a / 2, b / 2),
        nat_and(a, b) <= a,
        nat_and(a, b) <= b,
    decreases a,
{
    if a != 0 && b != 0 {
        lemma_nat_and_step(a / 2, b / 2);
    } else if a != 0 {
        assert(nat_and(a / 2, 0) == 0);
    }
}

/// The lowest digit of an OR is the OR of the lowest digits, and the digits
/// above it are the OR of the digits above.
pub proof fn lemma_nat_or_step(a: nat, b: nat)
    ensures
        (nat_or(a, b) % 2 == 1) == (a % 2 == 1 || b % 2 == 1),
        nat_or(a, b) / 2 == nat_or(a / 2, b / 2),
    decreases a,
{
    if a != 0 && b != 0 {
        lemma_nat_or_step(a / 2, b / 2);
    } else if a != 0 {
        assert(nat_or(a / 2, 0) == a / 2);
    }
}

/// The lowest digit of an XOR is the XOR of the lowest digits, and the
/// digits above it are the XOR of the digits above.
pub proof fn lemma_nat_xor_step(a: nat, b: nat)
    ensures
        (nat_xor(a, b) % 2 == 1) == ((a % 2 == 1) != (b % 2 == 1)),
        nat_xor(a, b) / 2 == nat_xor(a / 2, b / 2),
    decreases a,
{
    if a != 0 && b != 0 {
        lemma_nat_xor_step(a / 2, b / 2);
    } else if a != 0 {
        assert(nat_xor(a / 2, 0) == a / 2);
    }
}

/// The OR and the XOR of two numbers of at most `k` binary digits have at
/// most `k` binary digits.
pub proof fn lemma_nat_or_xor_bound(a: nat, b: nat, k: nat)
    requires
        a < pow2(k),
        b < pow2(k),
    ensures
        nat_or(a, b) < pow2(k),
        nat_xor(a, b) < pow2(k),
    decreases k,
{
    if k == 0 {
        vstd::arithmetic::power2::lemma2_to64();
    } else {
        lemma_pow2_unfold(k);
        lemma_nat_or_step(a, b);
        lemma_nat_xor_step(a, b);
        lemma_nat_or_xor_bound(a / 2, b / 2, (k - 1) as nat);
    }
}

/// On machine integers the three operations are the `&`, `|` and `^` of
/// the machine.
pub proof fn lemma_nat_logic_u64(a: u64, b: u64)
    ensures
        nat_and(a as nat, b as nat) == (a & b),
        nat_or(a as nat, b as nat) == (a | b),
        nat_xor(a as nat, b as nat) == (a ^ b),
    decreases a,
{
    assert(a & 0 == 0 && 0 & b == 0 && a | 0 == a && 0 | b == b && a ^ 0 == a && 0 ^ b == b)
        by (bit_vector);
    if a != 0 && b != 0 {
        let x: u64 = a / 2;
        let y: u64 = b / 2;
        lemma_nat_logic_u64(x, y);
        assert((a & b) == 2 * (x & y) + (if a % 2 == 1 && b % 2 == 1 {
            1u64
        } else {
            0u64
        })) by (bit_vector)
            requires
                x == a / 2,
                y == b / 2,
        ;
        assert((a | b) == 2 * (x | y) + (if a % 2 == 1 || b % 2 == 1 {
            1u64
        } else {
            0u64
        })) by (bit_vector)
            requires
                x == a / 2,
                y == b / 2,
        ;
        assert((a ^ b) == 2 * (x ^ y) + (if (a % 2 == 1) != (b % 2 == 1) {
            1u64
        } else {
            0u64
        })) by (bit_vector)
            requires
                x == a / 2,
                y == b / 2,
        ;
    }
}

/// The smaller of two numbers.
pub open spec fn min_nat(a: nat, b: nat) -> nat {
    if a <= b {
        a
    } else {
        b
    }
}

/// The larger of two numbers.
pub open spec fn max_nat(a: nat, b: nat) -> nat {
    if a <= b {
        b
    } else {
        a
    }
}

impl UIntCode {
    /// A chain is the chain of its own size for its own number.
    pub proof fn lemma_with_own_size(self)
        ensures
            UIntCode::with_size(self.value(), self.size()) == self,
        decreases self,
    {
        match self {
            UIntCode::Term => {},
            UIntCode::Zero(rest) => {
                rest.lemma_with_own_size();
                assert(self.value() / 2 == rest.value());
            },
            UIntCode::One(rest) => {
                rest.lemma_with_own_size();
                assert(self.value() / 2 == rest.value());
            },
        }
    }

    /// Both numbers of two chains fit in the digits of the longer chain.
    pub proof fn lemma_fits_longer(self, other: UIntCode)
        ensures
            self.value() < pow2(max_nat(self.size(), other.size())),
            other.value() < pow2(max_nat(self.size(), other.size())),
    {
        self.lemma_size_bounds();
        other.lemma_size_bounds();
        if self.size() < other.size() {
            vstd::arithmetic::power2::lemma_pow2_strictly_increases(self.size(), other.size());
        } else if other.size() < self.size() {
            vstd::arithmetic::power2::lemma_pow2_strictly_increases(other.size(), self.size());
        }
    }
}

impl PrivateAnd for UIntCode {
    type Output = UIntCode;

    /// The AND of the two numbers in as many digits as the shorter chain
    /// has.
    open spec fn private_and_spec(&self, rhs: &UIntCode) -> UIntCode {
        UIntCode::with_size(
            nat_and(self.value(), rhs.value()),
            min_nat(self.size(), rhs.size()),
        )
    }

    fn private_and(&self, rhs: &UIntCode) -> (r: UIntCode)
        decreases self,
    {
        match (self.split(), rhs.split()) {
            (None, _) => UIntCode::Term,
            (_, None) => UIntCode::Term,
            (Some((a, left)), Some((b, right))) => {
                proof {
                    lemma_nat_and_step(self@, rhs@);
                }
                UIntCode::digit(a.bitand(b), left.private_and(right))
            },
        }
    }
}

impl PrivateXor for UIntCode {
    type Output = UIntCode;

    /// The XOR of the two numbers in as many digits as the longer chain
    /// has.
    open spec fn private_xor_spec(&self, rhs: &UIntCode) -> UIntCode {
        UIntCode::with_size(
            nat_xor(self.value(), rhs.value()),
            max_nat(self.size(), rhs.size()),
        )
    }

    fn private_xor(&self, rhs: &UIntCode) -> (r: UIntCode)
        decreases self,
    {
        match (self.split(), rhs.split()) {
            (None, _) => {
                proof {
                    rhs.lemma_with_own_size();
                }
                rhs.clone()
            },
            (_, None) => {
                proof {
                    self.lemma_with_own_size();
                }
                self.clone()
            },
            (Some((a, left)), Some((b, right))) => {
                proof {
                    lemma_nat_xor_step(self@, rhs@);
                }
                UIntCode::digit(a.bitxor(b), left.private_xor(right))
            },
        }
    }
}

impl UIntCode {
    /// The AND of two numbers, in canonical form.
    pub fn bitand(&self, rhs: &UIntCode) -> (r: UIntCode)
        ensures
            r == UIntCode::from_nat(nat_and(self@, rhs@)),
            r@ == nat_and(self@, rhs@),
            r.canonical(),
    {
        proof {
            let n = nat_and(self@, rhs@);
            lemma_nat_and_step(self@, rhs@);
            self.lemma_size_bounds();
            rhs.lemma_size_bounds();
            UIntCode::lemma_with_size(n, min_nat(self.size(), rhs.size()));
        }
        self.private_and(rhs).trim()
    }

    /// The OR of two numbers. The result has as many digits as the longer
    /// chain, and is canonical where both chains are.
    pub fn bitor(&self, rhs: &UIntCode) -> (r: UIntCode)
        ensures
            r == UIntCode::with_size(nat_or(self@, rhs@), max_nat(self.size(), rhs.size())),
            r@ == nat_or(self@, rhs@),
            self.canonical() && rhs.canonical() ==> r.canonical(),
        decreases self,
    {
        proof {
            self.lemma_fits_longer(*rhs);
            lemma_nat_or_xor_bound(self@, rhs@, max_nat(self.size(), rhs.size()));
            UIntCode::lemma_with_size(nat_or(self@, rhs@), max_nat(self.size(), rhs.size()));
        }
        match (self.split(), rhs.split()) {
            (None, _) => {
                proof {
                    rhs.lemma_with_own_size();
                }
                rhs.clone()
            },
            (_, None) => {
                proof {
                    self.lemma_with_own_size();
                }
                self.clone()
            },
            (Some((a, left)), Some((b, right))) => {
                proof {
                    lemma_nat_or_step(self@, rhs@);
                }
                let high = left.bitor(right);
                proof {
                    UIntCode::lemma_with_size(
                        nat_or(left@, right@),
                        max_nat(left.size(), right.size()),
                    );
                }
                UIntCode::digit(a.bitor(b), high)
            },
        }
    }

    /// The XOR of two numbers, in canonical form.
    pub fn bitxor(&self, rhs: &UIntCode) -> (r: UIntCode)
        ensures
            r == UIntCode::from_nat(nat_xor(self@, rhs@)),
            r@ == nat_xor(self@, rhs@),
            r.canonical(),
    {
        proof {
            let n = nat_xor(self@, rhs@);
            self.lemma_fits_longer(*rhs);
            lemma_nat_or_xor_bound(self@, rhs@, max_nat(self.size(), rhs.size()));
            UIntCode::lemma_with_size(n, max_nat(self.size(), rhs.size()));
        }
        self.private_xor(rhs).trim()
    }

    /// The number shifted up by the value of one digit: as it is for 0,
    /// doubled for 1.
    pub fn shl_bit(&self, bit: BitCode) -> (r: UIntCode)
        ensures
            r@ == (if bit.is_set() {
                2 * self@
            } else {
                self@
            }),
            self.canonical() ==> r.canonical(),
    {
        match bit {
            BitCode::B0 => self.clone(),
            BitCode::B1 => self.clone().doubled(),
        }
    }

    /// The number shifted down by the value of one digit: as it is for 0,
    /// without its lowest digit for 1.
    pub fn shr_bit(&self, bit: BitCode) -> (r: UIntCode)
        ensures
            r@ == (if bit.is_set() {
                self@ / 2
            } else {
                self@
            }),
            r == (if bit.is_set() {
                self.rest()
            } else {
                *self
            }),
            self.canonical() ==> r.canonical(),
    {
        match (bit, self.split()) {
            (BitCode::B1, Some((_, rest))) => rest.clone(),
            _ => self.clone(),
        }
    }

    /// The number shifted up by `n` digits: `n` zeros are put below its
    /// digits, one at a time. A chain without digits stays as it is.
    pub fn shl(&self, n: &UIntCode) -> (r: UIntCode)
        ensures
            r@ == self@ * pow2(n@),
            self.canonical() ==> r.canonical() && r == UIntCode::from_nat(self@ * pow2(n@)),
    {
        let r = shift_up(self.clone(), n);
        proof {
            if self.canonical() {
                r.lemma_canonical_unique();
            }
        }
        r
    }

    /// The number shifted down by `n` digits: its `n` lowest digits are
    /// dropped, one at a time.
    pub fn shr(&self, n: &UIntCode) -> (r: UIntCode)
        ensures
            r@ == self@ / pow2(n@),
            self.canonical() ==> r.canonical() && r == UIntCode::from_nat(self@ / pow2(n@)),
        decreases self,
    {
        let r = match (self.split(), n.sub_bit(BitCode::B1)) {
            (None, _) => {
                proof {
                    vstd::arithmetic::power2::lemma_pow2_pos(n@);
                    vstd::arithmetic::div_mod::lemma_div_basics(pow2(n@) as int);
                }
                UIntCode::Term
            },
            (_, Err(_)) => {
                proof {
                    vstd::arithmetic::power2::lemma2_to64();
                    vstd::arithmetic::div_mod::lemma_div_basics(self@ as int);
                }
                self.clone()
            },
            (Some((_, rest)), Ok(less)) => {
                proof {
                    lemma_pow2_unfold(n@);
                    vstd::arithmetic::power2::lemma_pow2_pos(less@);
                    vstd::arithmetic::div_mod::lemma_div_denominator(
                        self@ as int,
                        2,
                        pow2(less@) as int,
                    );
                    assert(rest@ == self@ / 2);
                    assert(pow2(n@) == 2 * pow2(less@));
                }
                rest.shr(&less)
            },
        };
        proof {
            if self.canonical() {
                r.lemma_canonical_unique();
            }
        }
        r
    }
}

/// `x` with `n` zeros put below its digits.
fn shift_up(x: UIntCode, n: &UIntCode) -> (r: UIntCode)
    ensures
        r@ == x@ * pow2(n@),
        x.canonical() ==> r.canonical(),
    decreases n@,
{
    match n.sub_bit(BitCode::B1) {
        Err(_) => {
            proof {
                vstd::arithmetic::power2::lemma2_to64();
                vstd::arithmetic::mul::lemma_mul_basics(x@ as int);
            }
            x
        },
        Ok(less) => {
            proof {
                lemma_pow2_unfold(n@);
                assert(pow2(n@) == 2 * pow2(less@));
                assert((2 * x@) * pow2(less@) == x@ * (2 * pow2(less@))) by (nonlinear_arith);
            }
            shift_up(x.doubled(), &less)
        },
    }
}

impl Len for UIntCode {
    type Output = UIntCode;

    /// The number of digits, as a canonical chain.
    open spec fn len_spec(&self) -> UIntCode {
        UIntCode::from_nat(self.size())
    }

    fn len(&self) -> (r: UIntCode)
        ensures
            r@ == self.size(),
            r.canonical(),
        decreases self,
    {
        proof {
            UIntCode::lemma_from_nat(self.size());
        }
        match self.split() {
            None => UIntCode::Term,
            Some((_, rest)) => {
                let counted = rest.len().add_bit(BitCode::B1);
                proof {
                    counted.lemma_canonical_unique();
                }
                counted
            },
        }
    }
}

} // verus!
