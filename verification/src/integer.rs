//! Signed integers: a sign and an unsigned chain.

use vstd::prelude::*;
use crate::marker_traits::{lemma_wrap_signed_neg, Integer, Unsigned};
use crate::private::Trim;
use crate::uint::{gen_uint, tyuint, UIntCode};

verus! {

/// A signed integer.
///
/// Zero is `Zero` and nothing else: a well-formed `Pos` or `Neg` holds a
/// canonical chain that is not zero.
#[derive(Debug, PartialEq, Eq, Hash)]
pub enum IntCode {
    /// The number zero.
    Zero,
    /// A number above zero, given by its magnitude.
    Pos(Box<UIntCode>),
    /// A number below zero, given by its magnitude.
    Neg(Box<UIntCode>),
}

impl View for IntCode {
    type V = int;

    /// The number denoted.
    open spec fn view(&self) -> int {
        self.value()
    }
}

impl IntCode {
    /// The number denoted.
    pub open spec fn value(self) -> int {
        match self {
            IntCode::Zero => 0,
            IntCode::Pos(m) => m.value() as int,
            IntCode::Neg(m) => -(m.value() as int),
        }
    }

    /// The absolute value, as a chain.
    pub open spec fn magnitude(self) -> UIntCode {
        match self {
            IntCode::Zero => UIntCode::Term,
            IntCode::Pos(m) => *m,
            IntCode::Neg(m) => *m,
        }
    }

    /// Whether the value is well formed: the magnitude of a `Pos` or `Neg`
    /// is canonical and not zero.
    pub open spec fn wf(self) -> bool {
        match self {
            IntCode::Zero => true,
            IntCode::Pos(m) => m.canonical() && !(*m is Term),
            IntCode::Neg(m) => m.canonical() && !(*m is Term),
        }
    }

    /// The well-formed value of a number.
    pub open spec fn from_int(i: int) -> IntCode {
        if i == 0 {
            IntCode::Zero
        } else if i > 0 {
            IntCode::Pos(Box::new(UIntCode::from_nat(i as nat)))
        } else {
            IntCode::Neg(Box::new(UIntCode::from_nat((-i) as nat)))
        }
    }

    /// The same magnitude with the opposite sign.
    pub open spec fn negated(self) -> IntCode {
        match self {
            IntCode::Zero => IntCode::Zero,
            IntCode::Pos(m) => IntCode::Neg(m),
            IntCode::Neg(m) => IntCode::Pos(m),
        }
    }

    /// `from_int` yields a well-formed value that denotes the number given.
    pub proof fn lemma_from_int(i: int)
        ensures
            IntCode::from_int(i).value() == i,
            IntCode::from_int(i).wf(),
    {
        if i > 0 {
            UIntCode::lemma_from_nat(i as nat);
        } else if i < 0 {
            UIntCode::lemma_from_nat((-i) as nat);
        }
    }

    /// Every number has exactly one well-formed value.
    pub proof fn lemma_wf_unique(self)
        requires
            self.wf(),
        ensures
            self == IntCode::from_int(self.value()),
    {
        match self {
            IntCode::Zero => {},
            IntCode::Pos(m) => {
                m.lemma_canonical_zero();
                m.lemma_canonical_unique();
            },
            IntCode::Neg(m) => {
                m.lemma_canonical_zero();
                m.lemma_canonical_unique();
            },
        }
    }

    /// A well-formed value is `Zero`, `Pos` or `Neg` as its number is
    /// zero, above or below.
    pub proof fn lemma_wf_sign(self)
        requires
            self.wf(),
        ensures
            (self is Zero) == (self.value() == 0),
            (self is Pos) == (self.value() > 0),
            (self is Neg) == (self.value() < 0),
            self.magnitude().canonical(),
            self.magnitude().value() == (if self.value() < 0 {
                -self.value()
            } else {
                self.value()
            }),
    {
        self.magnitude().lemma_canonical_zero();
    }

    /// The value with the given magnitude and sign; a magnitude of zero
    /// gives `Zero` whatever the sign. The magnitude is brought into
    /// canonical form first.
    pub fn from_magnitude(magnitude: UIntCode, negative: bool) -> (r: IntCode)
        ensures
            r.wf(),
            r@ == (if negative {
                -(magnitude@ as int)
            } else {
                magnitude@ as int
            }),
            r == IntCode::from_int(
                if negative {
                    -(magnitude@ as int)
                } else {
                    magnitude@ as int
                },
            ),
            magnitude@ == 0 ==> r == IntCode::Zero,
    {
        proof {
            UIntCode::lemma_from_nat(magnitude@);
        }
        let m = magnitude.trim();
        match m {
            UIntCode::Term => IntCode::Zero,
            other => if negative {
                IntCode::Neg(Box::new(other))
            } else {
                IntCode::Pos(Box::new(other))
            },
        }
    }

    /// Whether the value is well formed.
    pub fn is_wf(&self) -> (r: bool)
        ensures
            r == self.wf(),
    {
        match self {
            IntCode::Zero => true,
            IntCode::Pos(m) => match &**m {
                UIntCode::Term => false,
                _ => m.is_canonical(),
            },
            IntCode::Neg(m) => match &**m {
                UIntCode::Term => false,
                _ => m.is_canonical(),
            },
        }
    }

    /// The number with the opposite sign; zero stays zero.
    pub fn neg(&self) -> (r: IntCode)
        ensures
            r == self.negated(),
            r@ == -self@,
            self.wf() ==> r.wf(),
    {
        match self {
            IntCode::Zero => IntCode::Zero,
            IntCode::Pos(m) => IntCode::Neg(Box::new((**m).clone())),
            IntCode::Neg(m) => IntCode::Pos(Box::new((**m).clone())),
        }
    }
}

impl Clone for IntCode {
    /// A copy of the value.
    fn clone(&self) -> (r: IntCode)
        ensures
            r == *self,
    {
        match self {
            IntCode::Zero => IntCode::Zero,
            IntCode::Pos(m) => IntCode::Pos(Box::new((**m).clone())),
            IntCode::Neg(m) => IntCode::Neg(Box::new((**m).clone())),
        }
    }
}

/// The well-formed value of a machine integer.
pub fn gen_int(i: i64) -> (r: IntCode)
    ensures
        r == IntCode::from_int(i as int),
        r@ == i,
        r.wf(),
{
    proof {
        IntCode::lemma_from_int(i as int);
    }
    if i > 0 {
        IntCode::Pos(Box::new(gen_uint(i as u64)))
    } else if i < 0 {
        let magnitude: u64 = (-(i + 1)) as u64 + 1;
        IntCode::Neg(Box::new(gen_uint(magnitude)))
    } else {
        IntCode::Zero
    }
}

/// The well-formed value of a number given by its magnitude and by whether
/// a minus sign stands before it; minus zero is zero.
pub fn tyint(has_negative_op: bool, value: u128) -> (r: IntCode)
    ensures
        r == IntCode::from_int(
            if has_negative_op {
                -(value as int)
            } else {
                value as int
            },
        ),
        r.wf(),
{
    proof {
        IntCode::lemma_from_int(value as int);
        IntCode::lemma_from_int(-(value as int));
    }
    if value == 0 {
        IntCode::Zero
    } else if has_negative_op {
        IntCode::Neg(Box::new(tyuint(value)))
    } else {
        IntCode::Pos(Box::new(tyuint(value)))
    }
}

impl Integer for IntCode {
    fn to_i8(&self) -> (r: i8) {
        match self {
            IntCode::Zero => 0,
            IntCode::Pos(m) => m.to_i8(),
            IntCode::Neg(m) => {
                let t: i8 = m.to_i8();
                proof {
                    lemma_wrap_signed_neg(m@ as int, 0x100);
                }
                if t == i8::MIN {
                    t
                } else {
                    -t
                }
            },
        }
    }

    fn to_i16(&self) -> (r: i16) {
        match self {
            IntCode::Zero => 0,
            IntCode::Pos(m) => m.to_i16(),
            IntCode::Neg(m) => {
                let t: i16 = m.to_i16();
                proof {
                    lemma_wrap_signed_neg(m@ as int, 0x1_0000);
                }
                if t == i16::MIN {
                    t
                } else {
                    -t
                }
            },
        }
    }

    fn to_i32(&self) -> (r: i32) {
        match self {
            IntCode::Zero => 0,
            IntCode::Pos(m) => m.to_i32(),
            IntCode::Neg(m) => {
                let t: i32 = m.to_i32();
                proof {
                    lemma_wrap_signed_neg(m@ as int, 0x1_0000_0000);
                }
                if t == i32::MIN {
                    t
                } else {
                    -t
                }
            },
        }
    }

    fn to_i64(&self) -> (r: i64) {
        match self {
            IntCode::Zero => 0,
            IntCode::Pos(m) => m.to_i64(),
            IntCode::Neg(m) => {
                let t: i64 = m.to_i64();
                proof {
                    lemma_wrap_signed_neg(m@ as int, 0x1_0000_0000_0000_0000);
                }
                if t == i64::MIN {
                    t
                } else {
                    -t
                }
            },
        }
    }

    fn to_isize(&self) -> (r: isize) {
        match self {
            IntCode::Zero => {
                proof {
                    vstd::arithmetic::div_mod::lemma_small_mod(0, (usize::MAX + 1) as nat);
                }
                0
            },
            IntCode::Pos(m) => m.to_isize(),
            IntCode::Neg(m) => {
                let t: isize = m.to_isize();
                proof {
                    if usize::MAX != 0xffff_ffff {
                        assert(usize::MAX == 0xffff_ffff_ffff_ffff);
                    }
                    lemma_wrap_signed_neg(m@ as int, usize::MAX + 1);
                }
                if t == isize::MIN {
                    t
                } else {
                    -t
                }
            },
        }
    }
}

} // verus!
