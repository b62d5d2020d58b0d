//! The steps behind canonical form: chains turned inside out, and the
//! results of digit-wise operations before their high-order zeros are gone.

use vstd::prelude::*;
use crate::bit::BitCode;
use crate::marker_traits::Bit;
use crate::uint_arith::majority;
use crate::uint::UIntCode;

verus! {

/// A chain read the other way round: the outermost digit is the most
/// significant one.
#[derive(Debug, PartialEq, Eq, Hash)]
pub struct InvertedUInt {
    /// The digits, outermost first.
    pub code: UIntCode,
}

/// Turns a chain inside out, so that the digit that was innermost becomes
/// the outermost one.
pub trait Invert {
    /// The kind of chain that comes out.
    type Output;

    /// The chain with its digits in the opposite order.
    spec fn invert_spec(&self) -> Self::Output;

    /// Reverses the order of the digits.
    fn invert(&self) -> (r: Self::Output)
        ensures
            r == self.invert_spec(),
    ;
}

/// The working step of [`Invert`]: moves the digits of `self`, outermost
/// first, onto what has been turned so far.
pub trait PrivateInvert<Rhs> {
    /// The digits of `self` in the opposite order, around those of
    /// `so_far`.
    spec fn private_invert_spec(&self, so_far: Rhs) -> Rhs;

    /// Moves the digits of `self` one by one onto `so_far`.
    fn private_invert(&self, so_far: Rhs) -> (r: Rhs)
        ensures
            r == self.private_invert_spec(so_far),
    ;
}

/// Drops zeros from the outside of a chain until a one stands outermost.
/// On an inverted chain these are the redundant high-order zeros.
pub trait TrimTrailingZeros {
    /// The kind of chain that comes out.
    type Output;

    /// The chain from its outermost one digit on.
    spec fn trim_trailing_zeros_spec(&self) -> Self::Output;

    /// Drops the zeros that stand outside the outermost one.
    fn trim_trailing_zeros(&self) -> (r: Self::Output)
        ensures
            r == self.trim_trailing_zeros_spec(),
    ;
}

/// Restores canonical form: inverts, drops the zeros that then stand
/// outermost, and inverts again.
pub trait Trim {
    /// The kind of chain that comes out.
    type Output;

    /// The canonical chain of the same number.
    spec fn trim_spec(&self) -> Self::Output;

    /// Removes the redundant high-order zeros.
    fn trim(&self) -> (r: Self::Output)
        ensures
            r == self.trim_spec(),
    ;
}

/// An inverted chain seen as a number.
pub trait InvertedUnsigned {
    /// The number that the chain denotes when its outermost digit is taken
    /// as the least significant one.
    spec fn to_int_spec(&self) -> nat;

    /// That number as a machine integer.
    fn to_int(&self) -> (r: u64)
        requires
            self.to_int_spec() <= u64::MAX,
        ensures
            r == self.to_int_spec(),
    ;
}

/// Digit-wise AND, high-order zeros left in place.
pub trait PrivateAnd<Rhs = Self> {
    /// The kind of chain that comes out.
    type Output;

    /// The AND of the two chains, digit by digit.
    spec fn private_and_spec(&self, rhs: &Rhs) -> Self::Output;

    /// Combines the digits of the two chains by AND.
    fn private_and(&self, rhs: &Rhs) -> (r: Self::Output)
        ensures
            r == self.private_and_spec(rhs),
    ;
}

/// Digit-wise XOR, high-order zeros left in place.
pub trait PrivateXor<Rhs = Self> {
    /// The kind of chain that comes out.
    type Output;

    /// The XOR of the two chains, digit by digit.
    spec fn private_xor_spec(&self, rhs: &Rhs) -> Self::Output;

    /// Combines the digits of the two chains by XOR.
    fn private_xor(&self, rhs: &Rhs) -> (r: Self::Output)
        ensures
            r == self.private_xor_spec(rhs),
    ;
}

/// Digit-wise subtraction, high-order zeros left in place.
pub trait PrivateSub<Rhs = Self> {
    /// The kind of chain that comes out.
    type Output;

    /// The difference, or `None` where `rhs` is the larger number.
    spec fn private_sub_spec(&self, rhs: &Rhs) -> Option<Self::Output>;

    /// Subtracts `rhs` digit by digit.
    fn private_sub(&self, rhs: &Rhs) -> (r: Option<Self::Output>)
        ensures
            r == self.private_sub_spec(rhs),
    ;
}

impl InvertedUInt {
    /// The number whose digits, most significant first, the chain holds.
    pub open spec fn denoted(self) -> nat {
        UIntCode::from_digits(self.code.digits().reverse()).value()
    }
}

impl PrivateInvert<InvertedUInt> for UIntCode {
    /// The chain of the digits of `self` in the opposite order, followed
    /// by the digits of `so_far`.
    open spec fn private_invert_spec(&self, so_far: InvertedUInt) -> InvertedUInt {
        InvertedUInt {
            code: UIntCode::from_digits(self.digits().reverse() + so_far.code.digits()),
        }
    }

    fn private_invert(&self, so_far: InvertedUInt) -> (r: InvertedUInt)
        decreases self,
    {
        match self.split() {
            None => {
                proof {
                    so_far.code.lemma_digits_roundtrip();
                    assert(self.digits().reverse() + so_far.code.digits()
                        =~= so_far.code.digits());
                }
                so_far
            },
            Some((bit, rest)) => {
                let next = InvertedUInt { code: UIntCode::digit(bit, so_far.code) };
                proof {
                    assert(next.code.digits() =~= seq![bit] + so_far.code.digits());
                    assert(self.digits() =~= seq![bit] + rest.digits());
                    assert(rest.digits().reverse() + next.code.digits() =~= self.digits().reverse()
                        + so_far.code.digits());
                }
                rest.private_invert(next)
            },
        }
    }
}

impl PrivateInvert<UIntCode> for InvertedUInt {
    /// The chain of the digits of `self` in the opposite order, followed
    /// by the digits of `so_far`.
    open spec fn private_invert_spec(&self, so_far: UIntCode) -> UIntCode {
        UIntCode::from_digits(self.code.digits().reverse() + so_far.digits())
    }

    fn private_invert(&self, so_far: UIntCode) -> (r: UIntCode) {
        let moved = self.code.private_invert(InvertedUInt { code: so_far });
        moved.code
    }
}

impl Invert for UIntCode {
    type Output = InvertedUInt;

    /// The chain of the same digits, most significant first.
    open spec fn invert_spec(&self) -> InvertedUInt {
        InvertedUInt { code: UIntCode::from_digits(self.digits().reverse()) }
    }

    fn invert(&self) -> (r: InvertedUInt) {
        proof {
            assert(self.digits().reverse() + UIntCode::Term.digits()
                =~= self.digits().reverse());
        }
        self.private_invert(InvertedUInt { code: UIntCode::Term })
    }
}

impl Invert for InvertedUInt {
    type Output = UIntCode;

    /// The chain of the same digits, least significant first.
    open spec fn invert_spec(&self) -> UIntCode {
        UIntCode::from_digits(self.code.digits().reverse())
    }

    fn invert(&self) -> (r: UIntCode) {
        proof {
            assert(self.code.digits().reverse() + UIntCode::Term.digits()
                =~= self.code.digits().reverse());
        }
        self.private_invert(UIntCode::Term)
    }
}

impl InvertedUnsigned for InvertedUInt {
    /// The digits read as they nest, the outermost one counting least.
    open spec fn to_int_spec(&self) -> nat {
        self.code.value()
    }

    fn to_int(&self) -> (r: u64) {
        digits_to_int(&self.code)
    }
}

/// The number that a chain denotes, as a machine integer.
fn digits_to_int(code: &UIntCode) -> (r: u64)
    requires
        code.value() <= u64::MAX,
    ensures
        r == code.value(),
    decreases code,
{
    match code.split() {
        None => 0,
        Some((bit, rest)) => {
            let low: u64 = match bit {
                BitCode::B0 => 0,
                BitCode::B1 => 1,
            };
            low + 2 * digits_to_int(rest)
        },
    }
}

impl TrimTrailingZeros for InvertedUInt {
    type Output = InvertedUInt;

    /// The chain from its outermost one digit on; nothing is left of a
    /// chain of zeros.
    open spec fn trim_trailing_zeros_spec(&self) -> InvertedUInt {
        InvertedUInt { code: self.code.stripped() }
    }

    fn trim_trailing_zeros(&self) -> (r: InvertedUInt) {
        InvertedUInt { code: strip(&self.code) }
    }
}

/// The chain from its outermost one digit on.
fn strip(code: &UIntCode) -> (r: UIntCode)
    ensures
        r == code.stripped(),
    decreases code,
{
    match code {
        UIntCode::Term => UIntCode::Term,
        UIntCode::Zero(rest) => strip(rest),
        UIntCode::One(_) => code.clone(),
    }
}

impl Trim for UIntCode {
    type Output = UIntCode;

    /// The one canonical chain that denotes the same number.
    open spec fn trim_spec(&self) -> UIntCode {
        UIntCode::from_nat(self.value())
    }

    fn trim(&self) -> (r: UIntCode)
        ensures
            r@ == self@,
            r.canonical(),
    {
        proof {
            self.lemma_digits_roundtrip();
            UIntCode::lemma_strip_reversed(self.digits());
            UIntCode::lemma_from_nat(self.value());
        }
        self.invert().trim_trailing_zeros().invert()
    }
}

/// The difference of two numbers less a borrow digit, column by column
/// from the least significant digit. A column borrows from the next one
/// where its digit of `a` is smaller than what is taken from it. The result
/// has as many digits as `a`; there is none where `a` is too small.
fn sub_with_borrow(a: &UIntCode, b: &UIntCode, borrow: BitCode) -> (r: Option<UIntCode>)
    ensures
        r == (if a@ >= b@ + borrow.value() {
            Some(UIntCode::with_size((a@ - b@ - borrow.value()) as nat, a.size()))
        } else {
            None
        }),
    decreases a, b,
{
    match (a.split(), b.split()) {
        (None, None) => match borrow {
            BitCode::B0 => Some(UIntCode::Term),
            BitCode::B1 => None,
        },
        (None, Some((y, right))) => match (y, borrow) {
            (BitCode::B0, BitCode::B0) => sub_with_borrow(a, right, BitCode::B0),
            _ => None,
        },
        (Some((x, left)), None) => {
            let digit = x.bitxor(borrow);
            let borrow_out = x.not().bitand(borrow);
            match sub_with_borrow(left, b, borrow_out) {
                Some(high) => Some(UIntCode::digit(digit, high)),
                None => None,
            }
        },
        (Some((x, left)), Some((y, right))) => {
            let digit = x.bitxor(y).bitxor(borrow);
            let borrow_out = x.not().bitand(y).bitor(borrow.bitand(x.bitxor(y).not()));
            assert(borrow_out == majority(BitCode::of(!x.is_set()), y, borrow));
            match sub_with_borrow(left, right, borrow_out) {
                Some(high) => Some(UIntCode::digit(digit, high)),
                None => None,
            }
        },
    }
}

impl PrivateSub for UIntCode {
    type Output = UIntCode;

    /// The difference in as many digits as `self` has.
    open spec fn private_sub_spec(&self, rhs: &UIntCode) -> Option<UIntCode> {
        if self.value() >= rhs.value() {
            Some(UIntCode::with_size((self.value() - rhs.value()) as nat, self.size()))
        } else {
            None
        }
    }

    fn private_sub(&self, rhs: &UIntCode) -> (r: Option<UIntCode>) {
        sub_with_borrow(self, rhs, BitCode::B0)
    }
}

} // verus!
