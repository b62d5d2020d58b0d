//! Unsigned integers as chains of binary digits.

use vstd::prelude::*;
use vstd::arithmetic::power2::{lemma_pow2_unfold, pow2};
use crate::bit::BitCode;
use crate::type_operators::Cmp;
use crate::{compare_nats, ComparisonResult};
use crate::marker_traits::{
    lemma_wrap_signed_step, lemma_wrap_unsigned_step, wrap_signed, wrap_unsigned, Unsigned,
};

verus! {

/// An unsigned integer, written digit by digit.
///
/// The outermost digit is the least significant one; each `Zero` or `One`
/// holds the more significant digits, and `Term` ends the chain. A chain is
/// canonical when its most significant digit, if it has any, is a one, so
/// that every number has exactly one canonical chain.
#[derive(Debug, PartialEq, Eq, Hash)]
pub enum UIntCode {
    /// No further digits: the number zero.
    Term,
    /// The digit 0 below the digits held inside.
    Zero(Box<UIntCode>),
    /// The digit 1 below the digits held inside.
    One(Box<UIntCode>),
}

impl View for UIntCode {
    type V = nat;

    /// The number that the chain denotes.
    open spec fn view(&self) -> nat {
        self.value()
    }
}

impl UIntCode {
    /// The number that the chain denotes: each digit counts twice as much
    /// as the one outside it.
    pub open spec fn value(self) -> nat
        decreases self,
    {
        match self {
            UIntCode::Term => 0,
            UIntCode::Zero(rest) => 2 * rest.value(),
            UIntCode::One(rest) => 2 * rest.value() + 1,
        }
    }

    /// How many digits the chain holds.
    pub open spec fn size(self) -> nat
        decreases self,
    {
        match self {
            UIntCode::Term => 0,
            UIntCode::Zero(rest) => 1 + rest.size(),
            UIntCode::One(rest) => 1 + rest.size(),
        }
    }

    /// The digits, outermost (least significant) first.
    pub open spec fn digits(self) -> Seq<BitCode>
        decreases self,
    {
        match self {
            UIntCode::Term => Seq::empty(),
            UIntCode::Zero(rest) => seq![BitCode::B0] + rest.digits(),
            UIntCode::One(rest) => seq![BitCode::B1] + rest.digits(),
        }
    }

    /// Whether the chain has no redundant most significant zero.
    pub open spec fn canonical(self) -> bool
        decreases self,
    {
        match self {
            UIntCode::Term => true,
            UIntCode::Zero(rest) => !(*rest is Term) && rest.canonical(),
            UIntCode::One(rest) => rest.canonical(),
        }
    }

    /// The canonical chain of a number.
    pub open spec fn from_nat(n: nat) -> UIntCode
        decreases n,
    {
        if n == 0 {
            UIntCode::Term
        } else if n % 2 == 0 {
            UIntCode::Zero(Box::new(UIntCode::from_nat(n / 2)))
        } else {
            UIntCode::One(Box::new(UIntCode::from_nat(n / 2)))
        }
    }

    /// The chain that holds the given digits, outermost first.
    pub open spec fn from_digits(s: Seq<BitCode>) -> UIntCode
        decreases s.len(),
    {
        if s.len() == 0 {
            UIntCode::Term
        } else if s[0] == BitCode::B0 {
            UIntCode::Zero(Box::new(UIntCode::from_digits(s.skip(1))))
        } else {
            UIntCode::One(Box::new(UIntCode::from_digits(s.skip(1))))
        }
    }

    /// The outermost digit; a chain without digits has none, and 0 stands
    /// for it.
    pub open spec fn low(self) -> BitCode {
        match self {
            UIntCode::Term => BitCode::B0,
            UIntCode::Zero(_) => BitCode::B0,
            UIntCode::One(_) => BitCode::B1,
        }
    }

    /// The digits inside the outermost one.
    pub open spec fn rest(self) -> UIntCode {
        match self {
            UIntCode::Term => UIntCode::Term,
            UIntCode::Zero(rest) => *rest,
            UIntCode::One(rest) => *rest,
        }
    }

    /// The chain with `bit` as its outermost digit around `rest`.
    pub open spec fn digit_spec(bit: BitCode, rest: UIntCode) -> UIntCode {
        match bit {
            BitCode::B0 => UIntCode::Zero(Box::new(rest)),
            BitCode::B1 => UIntCode::One(Box::new(rest)),
        }
    }

    /// A chain of `size` digits denotes a number below 2 to the `size`, and
    /// a canonical one with digits a number from 2 to the `size - 1` on.
    pub proof fn lemma_size_bounds(self)
        ensures
            self.value() < pow2(self.size()),
            self.canonical() && self.size() > 0 ==> pow2((self.size() - 1) as nat)
                <= self.value(),
        decreases self,
    {
        match self {
            UIntCode::Term => {
                vstd::arithmetic::power2::lemma2_to64();
            },
            UIntCode::Zero(rest) => {
                lemma_pow2_unfold(self.size());
                rest.lemma_size_bounds();
                if self.canonical() {
                    lemma_pow2_unfold(rest.size());
                }
            },
            UIntCode::One(rest) => {
                lemma_pow2_unfold(self.size());
                rest.lemma_size_bounds();
                if self.canonical() {
                    if rest.size() > 0 {
                        lemma_pow2_unfold(rest.size());
                    } else {
                        vstd::arithmetic::power2::lemma2_to64();
                    }
                }
            },
        }
    }

    /// Among canonical chains the longer one denotes the larger number.
    pub proof fn lemma_size_orders(self, other: UIntCode)
        requires
            self.canonical(),
            other.canonical(),
            self.size() < other.size(),
        ensures
            self.value() < other.value(),
    {
        self.lemma_size_bounds();
        other.lemma_size_bounds();
        if self.size() < other.size() - 1 {
            vstd::arithmetic::power2::lemma_pow2_strictly_increases(
                self.size(),
                (other.size() - 1) as nat,
            );
        }
    }

    /// The chain from its outermost one digit on: the zeros outside that
    /// digit are dropped.
    pub open spec fn stripped(self) -> UIntCode
        decreases self,
    {
        match self {
            UIntCode::Term => UIntCode::Term,
            UIntCode::Zero(rest) => rest.stripped(),
            UIntCode::One(_) => self,
        }
    }

    /// A chain is the chain of its digits.
    pub proof fn lemma_digits_roundtrip(self)
        ensures
            UIntCode::from_digits(self.digits()) == self,
            self.digits().len() == self.size(),
        decreases self,
    {
        match self {
            UIntCode::Term => {},
            UIntCode::Zero(rest) => {
                rest.lemma_digits_roundtrip();
                assert(self.digits().skip(1) =~= rest.digits());
            },
            UIntCode::One(rest) => {
                rest.lemma_digits_roundtrip();
                assert(self.digits().skip(1) =~= rest.digits());
            },
        }
    }

    /// The chain of a sequence of digits has exactly those digits.
    pub proof fn lemma_from_digits(s: Seq<BitCode>)
        ensures
            UIntCode::from_digits(s).digits() == s,
        decreases s.len(),
    {
        if s.len() > 0 {
            UIntCode::lemma_from_digits(s.skip(1));
            assert(seq![s[0]] + s.skip(1) =~= s);
        }
    }

    /// A zero as the most significant digit does not change the number.
    pub proof fn lemma_high_zero(s: Seq<BitCode>)
        ensures
            UIntCode::from_digits(s.push(BitCode::B0)).value() == UIntCode::from_digits(
                s,
            ).value(),
        decreases s.len(),
    {
        let t = s.push(BitCode::B0);
        if s.len() > 0 {
            UIntCode::lemma_high_zero(s.skip(1));
            assert(t.skip(1) =~= s.skip(1).push(BitCode::B0));
            assert(t[0] == s[0]);
        } else {
            assert(t[0] == BitCode::B0);
            assert(UIntCode::from_digits(t.skip(1)) == UIntCode::Term);
            assert(UIntCode::from_digits(t) == UIntCode::Zero(Box::new(UIntCode::Term)));
        }
    }

    /// Digits that end in a one make a canonical chain.
    pub proof fn lemma_high_one(s: Seq<BitCode>)
        requires
            s.len() > 0,
            s.last() == BitCode::B1,
        ensures
            UIntCode::from_digits(s).canonical(),
        decreases s.len(),
    {
        let t = s.skip(1);
        if t.len() > 0 {
            assert(t.last() == s.last());
            UIntCode::lemma_high_one(t);
            assert(!(UIntCode::from_digits(t) is Term));
        } else {
            assert(s[0] == BitCode::B1);
            assert(UIntCode::from_digits(t) == UIntCode::Term);
            assert(UIntCode::Term.canonical());
        }
        assert(UIntCode::from_digits(s) == UIntCode::digit_spec(s[0], UIntCode::from_digits(t)));
    }

    /// Reversing the digits, dropping the zeros that then stand outermost
    /// and reversing again gives the canonical chain of the same number.
    pub proof fn lemma_strip_reversed(s: Seq<BitCode>)
        ensures
            UIntCode::from_digits(
                UIntCode::from_digits(s.reverse()).stripped().digits().reverse(),
            ) == UIntCode::from_nat(UIntCode::from_digits(s).value()),
        decreases s.len(),
    {
        let r = s.reverse();
        if s.len() == 0 {
            assert(r.len() == 0);
            assert(UIntCode::from_digits(r) == UIntCode::Term);
            assert(UIntCode::Term.digits().reverse() =~= Seq::<BitCode>::empty());
        } else {
            let p = s.drop_last();
            assert(r[0] == s.last());
            assert(r.skip(1) =~= p.reverse());
            assert(s =~= p.push(s.last()));
            if s.last() == BitCode::B0 {
                UIntCode::lemma_strip_reversed(p);
                UIntCode::lemma_high_zero(p);
            } else {
                UIntCode::lemma_from_digits(r);
                assert(r.reverse() =~= s);
                UIntCode::lemma_high_one(s);
                UIntCode::from_digits(s).lemma_canonical_unique();
            }
        }
    }

    /// The chain of exactly `size` digits that holds the low `size` bits of
    /// `n`, high-order zeros included.
    pub open spec fn with_size(n: nat, size: nat) -> UIntCode
        decreases size,
    {
        if size == 0 {
            UIntCode::Term
        } else {
            UIntCode::digit_spec(
                BitCode::of(n % 2 == 1),
                UIntCode::with_size(n / 2, (size - 1) as nat),
            )
        }
    }

    /// `with_size` yields a chain of the size asked for, and one that
    /// denotes `n` where `n` fits in that many digits.
    pub proof fn lemma_with_size(n: nat, size: nat)
        ensures
            UIntCode::with_size(n, size).size() == size,
            n < pow2(size) ==> UIntCode::with_size(n, size).value() == n,
        decreases size,
    {
        if size == 0 {
            vstd::arithmetic::power2::lemma2_to64();
        } else {
            lemma_pow2_unfold(size);
            UIntCode::lemma_with_size(n / 2, (size - 1) as nat);
        }
    }

    /// `from_nat` yields a canonical chain that denotes the number given.
    pub proof fn lemma_from_nat(n: nat)
        ensures
            UIntCode::from_nat(n).value() == n,
            UIntCode::from_nat(n).canonical(),
        decreases n,
    {
        if n != 0 {
            UIntCode::lemma_from_nat(n / 2);
        }
    }

    /// A canonical chain denotes zero only if it is `Term`.
    pub proof fn lemma_canonical_zero(self)
        requires
            self.canonical(),
        ensures
            (self.value() == 0) == (self is Term),
        decreases self,
    {
        match self {
            UIntCode::Term => {},
            UIntCode::Zero(rest) => {
                rest.lemma_canonical_zero();
            },
            UIntCode::One(rest) => {},
        }
    }

    /// Every number has exactly one canonical chain: a canonical chain is
    /// the one that `from_nat` gives for its value.
    pub proof fn lemma_canonical_unique(self)
        requires
            self.canonical(),
        ensures
            self == UIntCode::from_nat(self.value()),
        decreases self,
    {
        match self {
            UIntCode::Term => {},
            UIntCode::Zero(rest) => {
                rest.lemma_canonical_zero();
                rest.lemma_canonical_unique();
                assert(self.value() / 2 == rest.value());
            },
            UIntCode::One(rest) => {
                rest.lemma_canonical_unique();
                assert(self.value() / 2 == rest.value());
            },
        }
    }

    /// Two canonical chains that denote the same number are the same chain.
    pub proof fn lemma_canonical_equal(self, other: UIntCode)
        requires
            self.canonical(),
            other.canonical(),
            self.value() == other.value(),
        ensures
            self == other,
    {
        self.lemma_canonical_unique();
        other.lemma_canonical_unique();
    }
}

impl UIntCode {
    /// The number zero.
    pub fn zero() -> (r: UIntCode)
        ensures
            r == UIntCode::Term,
            r@ == 0,
            r.canonical(),
    {
        UIntCode::Term
    }

    /// The number one.
    pub fn one() -> (r: UIntCode)
        ensures
            r == UIntCode::One(Box::new(UIntCode::Term)),
            r@ == 1,
            r.canonical(),
    {
        let r = UIntCode::One(Box::new(UIntCode::Term));
        assert(UIntCode::Term.canonical() && UIntCode::Term.value() == 0);
        r
    }

    /// The chain with `bit` as its outermost digit around `rest`.
    pub fn digit(bit: BitCode, rest: UIntCode) -> (r: UIntCode)
        ensures
            r == UIntCode::digit_spec(bit, rest),
            r@ == 2 * rest@ + bit.value(),
            r.size() == rest.size() + 1,
    {
        match bit {
            BitCode::B0 => UIntCode::Zero(Box::new(rest)),
            BitCode::B1 => UIntCode::One(Box::new(rest)),
        }
    }

    /// The outermost digit and the digits inside it, or `None` for a chain
    /// without digits.
    pub fn split(&self) -> (r: Option<(BitCode, &UIntCode)>)
        ensures
            (self is Term) == (r is None),
            r matches Some((bit, rest)) ==> bit == self.low() && *rest == self.rest() && *self
                == UIntCode::digit_spec(bit, *rest),
    {
        match self {
            UIntCode::Term => None,
            UIntCode::Zero(rest) => Some((BitCode::B0, &**rest)),
            UIntCode::One(rest) => Some((BitCode::B1, &**rest)),
        }
    }

    /// Whether the chain has no redundant most significant zero.
    pub fn is_canonical(&self) -> (r: bool)
        ensures
            r == self.canonical(),
        decreases self,
    {
        match self {
            UIntCode::Term => true,
            UIntCode::Zero(rest) => match &**rest {
                UIntCode::Term => false,
                _ => rest.is_canonical(),
            },
            UIntCode::One(rest) => rest.is_canonical(),
        }
    }

    /// Carries a verdict through the digits of two chains, from the least
    /// significant upwards: equal digits leave `so_far` as it is, differing
    /// digits replace it, and a chain that ends before the other loses.
    fn private_cmp(&self, rhs: &UIntCode, so_far: ComparisonResult) -> (r: ComparisonResult)
        ensures
            r == (if self.size() != rhs.size() {
                compare_nats(self.size(), rhs.size())
            } else if self@ == rhs@ {
                so_far
            } else {
                compare_nats(self@, rhs@)
            }),
        decreases self,
    {
        match (self.split(), rhs.split()) {
            (None, None) => so_far,
            (None, Some(_)) => ComparisonResult::Less,
            (Some(_), None) => ComparisonResult::Greater,
            (Some((a, left)), Some((b, right))) => {
                let verdict = match a.compare(&b) {
                    ComparisonResult::Equal => so_far,
                    differs => differs,
                };
                left.private_cmp(right, verdict)
            },
        }
    }
}

impl Cmp for UIntCode {
    /// The longer chain is the greater one; chains of one length compare as
    /// the numbers they denote. For canonical chains this is the order of
    /// the numbers, see [`UIntCode::lemma_compare_canonical`].
    open spec fn compare_spec(&self, rhs: &UIntCode) -> ComparisonResult {
        if self.size() != rhs.size() {
            compare_nats(self.size(), rhs.size())
        } else {
            compare_nats(self@, rhs@)
        }
    }

    fn compare(&self, rhs: &UIntCode) -> (r: ComparisonResult) {
        self.private_cmp(rhs, ComparisonResult::Equal)
    }
}

impl UIntCode {
    /// Canonical chains compare as the numbers they denote.
    pub proof fn lemma_compare_canonical(self, rhs: UIntCode)
        requires
            self.canonical(),
            rhs.canonical(),
        ensures
            self.compare_spec(&rhs) == compare_nats(self@, rhs@),
    {
        if self.size() < rhs.size() {
            self.lemma_size_orders(rhs);
        } else if rhs.size() < self.size() {
            rhs.lemma_size_orders(self);
        }
    }
}

impl Unsigned for UIntCode {
    fn to_u8(&self) -> (r: u8)
        decreases self,
    {
        match self {
            UIntCode::Term => 0,
            UIntCode::Zero(rest) => {
                let t: u8 = rest.to_u8();
                let r: u8 = t << 1;
                assert(r == (2 * t) % 0x100) by (bit_vector)
                    requires
                        r == t << 1u8,
                ;
                proof {
                    lemma_wrap_unsigned_step(rest@ as int, t as int, 0, 0x100);
                }
                r
            },
            UIntCode::One(rest) => {
                let t: u8 = rest.to_u8();
                let r: u8 = 1 | (t << 1);
                assert(r == (2 * t + 1) % 0x100) by (bit_vector)
                    requires
                        r == 1u8 | (t << 1u8),
                ;
                proof {
                    lemma_wrap_unsigned_step(rest@ as int, t as int, 1, 0x100);
                }
                r
            },
        }
    }

    fn to_u16(&self) -> (r: u16)
        decreases self,
    {
        match self {
            UIntCode::Term => 0,
            UIntCode::Zero(rest) => {
                let t: u16 = rest.to_u16();
                let r: u16 = t << 1;
                assert(r == (2 * t) % 0x1_0000) by (bit_vector)
                    requires
                        r == t << 1u16,
                ;
                proof {
                    lemma_wrap_unsigned_step(rest@ as int, t as int, 0, 0x1_0000);
                }
                r
            },
            UIntCode::One(rest) => {
                let t: u16 = rest.to_u16();
                let r: u16 = 1 | (t << 1);
                assert(r == (2 * t + 1) % 0x1_0000) by (bit_vector)
                    requires
                        r == 1u16 | (t << 1u16),
                ;
                proof {
                    lemma_wrap_unsigned_step(rest@ as int, t as int, 1, 0x1_0000);
                }
                r
            },
        }
    }

    fn to_u32(&self) -> (r: u32)
        decreases self,
    {
        match self {
            UIntCode::Term => 0,
            UIntCode::Zero(rest) => {
                let t: u32 = rest.to_u32();
                let r: u32 = t << 1;
                assert(r == (2 * t) % 0x1_0000_0000) by (bit_vector)
                    requires
                        r == t << 1u32,
                ;
                proof {
                    lemma_wrap_unsigned_step(rest@ as int, t as int, 0, 0x1_0000_0000);
                }
                r
            },
            UIntCode::One(rest) => {
                let t: u32 = rest.to_u32();
                let r: u32 = 1 | (t << 1);
                assert(r == (2 * t + 1) % 0x1_0000_0000) by (bit_vector)
                    requires
                        r == 1u32 | (t << 1u32),
                ;
                proof {
                    lemma_wrap_unsigned_step(rest@ as int, t as int, 1, 0x1_0000_0000);
                }
                r
            },
        }
    }

    fn to_u64(&self) -> (r: u64)
        decreases self,
    {
        match self {
            UIntCode::Term => 0,
            UIntCode::Zero(rest) => {
                let t: u64 = rest.to_u64();
                let r: u64 = t << 1;
                assert(r == (2 * t) % 0x1_0000_0000_0000_0000) by (bit_vector)
                    requires
                        r == t << 1u64,
                ;
                proof {
                    lemma_wrap_unsigned_step(rest@ as int, t as int, 0, 0x1_0000_0000_0000_0000);
                }
                r
            },
            UIntCode::One(rest) => {
                let t: u64 = rest.to_u64();
                let r: u64 = 1 | (t << 1);
                assert(r == (2 * t + 1) % 0x1_0000_0000_0000_0000) by (bit_vector)
                    requires
                        r == 1u64 | (t << 1u64),
                ;
                proof {
                    lemma_wrap_unsigned_step(rest@ as int, t as int, 1, 0x1_0000_0000_0000_0000);
                }
                r
            },
        }
    }

    fn to_usize(&self) -> (r: usize)
        decreases self,
    {
        proof {
            vstd::arithmetic::div_mod::lemma_small_mod(0, (usize::MAX + 1) as nat);
        }
        match self {
            UIntCode::Term => 0,
            UIntCode::Zero(rest) => {
                let t: usize = rest.to_usize();
                proof {
                    lemma_wrap_unsigned_step(rest@ as int, t as int, 0, usize::MAX + 1);
                }
                double_usize(t, 0)
            },
            UIntCode::One(rest) => {
                let t: usize = rest.to_usize();
                proof {
                    lemma_wrap_unsigned_step(rest@ as int, t as int, 1, usize::MAX + 1);
                }
                double_usize(t, 1)
            },
        }
    }

    fn to_i8(&self) -> (r: i8)
        decreases self,
    {
        match self {
            UIntCode::Term => 0,
            UIntCode::Zero(rest) => {
                let t: i8 = rest.to_i8();
                let r: i8 = t << 1;
                assert(r == wrap_signed(2 * t, 0x100)) by (bit_vector)
                    requires
                        r == t << 1i8,
                ;
                proof {
                    lemma_wrap_signed_step(rest@ as int, t as int, 0, 0x100);
                }
                r
            },
            UIntCode::One(rest) => {
                let t: i8 = rest.to_i8();
                let r: i8 = 1 | (t << 1);
                assert(r == wrap_signed(2 * t + 1, 0x100)) by (bit_vector)
                    requires
                        r == 1i8 | (t << 1i8),
                ;
                proof {
                    lemma_wrap_signed_step(rest@ as int, t as int, 1, 0x100);
                }
                r
            },
        }
    }

    fn to_i16(&self) -> (r: i16)
        decreases self,
    {
        match self {
            UIntCode::Term => 0,
            UIntCode::Zero(rest) => {
                let t: i16 = rest.to_i16();
                let r: i16 = t << 1;
                assert(r == wrap_signed(2 * t, 0x1_0000)) by (bit_vector)
                    requires
                        r == t << 1i16,
                ;
                proof {
                    lemma_wrap_signed_step(rest@ as int, t as int, 0, 0x1_0000);
                }
                r
            },
            UIntCode::One(rest) => {
                let t: i16 = rest.to_i16();
                let r: i16 = 1 | (t << 1);
                assert(r == wrap_signed(2 * t + 1, 0x1_0000)) by (bit_vector)
                    requires
                        r == 1i16 | (t << 1i16),
                ;
                proof {
                    lemma_wrap_signed_step(rest@ as int, t as int, 1, 0x1_0000);
                }
                r
            },
        }
    }

    fn to_i32(&self) -> (r: i32)
        decreases self,
    {
        match self {
            UIntCode::Term => 0,
            UIntCode::Zero(rest) => {
                let t: i32 = rest.to_i32();
                let r: i32 = t << 1;
                assert(r == wrap_signed(2 * t, 0x1_0000_0000)) by (bit_vector)
                    requires
                        r == t << 1i32,
                ;
                proof {
                    lemma_wrap_signed_step(rest@ as int, t as int, 0, 0x1_0000_0000);
                }
                r
            },
            UIntCode::One(rest) => {
                let t: i32 = rest.to_i32();
                let r: i32 = 1 | (t << 1);
                assert(r == wrap_signed(2 * t + 1, 0x1_0000_0000)) by (bit_vector)
                    requires
                        r == 1i32 | (t << 1i32),
                ;
                proof {
                    lemma_wrap_signed_step(rest@ as int, t as int, 1, 0x1_0000_0000);
                }
                r
            },
        }
    }

    fn to_i64(&self) -> (r: i64)
        decreases self,
    {
        match self {
            UIntCode::Term => 0,
            UIntCode::Zero(rest) => {
                let t: i64 = rest.to_i64();
                let r: i64 = t << 1;
                assert(r == wrap_signed(2 * t, 0x1_0000_0000_0000_0000)) by (bit_vector)
                    requires
                        r == t << 1i64,
                ;
                proof {
                    lemma_wrap_signed_step(rest@ as int, t as int, 0, 0x1_0000_0000_0000_0000);
                }
                r
            },
            UIntCode::One(rest) => {
                let t: i64 = rest.to_i64();
                let r: i64 = 1 | (t << 1);
                assert(r == wrap_signed(2 * t + 1, 0x1_0000_0000_0000_0000)) by (bit_vector)
                    requires
                        r == 1i64 | (t << 1i64),
                ;
                proof {
                    lemma_wrap_signed_step(rest@ as int, t as int, 1, 0x1_0000_0000_0000_0000);
                }
                r
            },
        }
    }

    fn to_isize(&self) -> (r: isize) {
        let t: usize = self.to_usize();
        let half: usize = usize::MAX / 2;
        let r: isize = if t > half {
            (t - half - 1) as isize + isize::MIN
        } else {
            t as isize
        };
        proof {
            if usize::MAX == 0xffff_ffff {
                assert(r == wrap_signed(self@ as int, 0x1_0000_0000));
            } else {
                assert(usize::MAX == 0xffff_ffff_ffff_ffff);
                assert(r == wrap_signed(self@ as int, 0x1_0000_0000_0000_0000));
            }
        }
        r
    }
}

/// Twice `t` plus `bit`, as far as a `usize` holds it.
fn double_usize(t: usize, bit: usize) -> (r: usize)
    requires
        bit <= 1,
    ensures
        r == wrap_unsigned(2 * t + bit, usize::MAX + 1),
{
    let half: usize = usize::MAX / 2;
    let low: usize = if t > half {
        t - half - 1
    } else {
        t
    };
    let r: usize = low * 2 + bit;
    proof {
        let m: int = usize::MAX + 1;
        assert(m == 2 * half + 2) by {
            if usize::MAX != 0xffff_ffff {
                assert(usize::MAX == 0xffff_ffff_ffff_ffff);
            }
        }
        vstd::arithmetic::div_mod::lemma_small_mod(r as nat, m as nat);
        if t > half {
            vstd::arithmetic::div_mod::lemma_mod_add_multiples_vanish(r as int, m);
        }
    }
    r
}

impl Clone for UIntCode {
    /// A copy of the chain, digit for digit.
    fn clone(&self) -> (r: UIntCode)
        ensures
            r == *self,
        decreases self,
    {
        match self {
            UIntCode::Term => UIntCode::Term,
            UIntCode::Zero(rest) => UIntCode::Zero(Box::new((**rest).clone())),
            UIntCode::One(rest) => UIntCode::One(Box::new((**rest).clone())),
        }
    }
}

/// The canonical chain of a machine integer.
///
/// The digits are produced from the most significant set bit of `u` down to
/// its lowest bit, each new digit wrapped around the ones before it, so that
/// the lowest bit ends up outermost.
pub fn gen_uint(u: u64) -> (r: UIntCode)
    ensures
        r == UIntCode::from_nat(u as nat),
        r@ == u,
        r.canonical(),
{
    let mut result = UIntCode::Term;
    let mut x: u64 = 1u64 << 63;
    let ghost mut k: u64 = 63;
    assert((u >> 63u64) <= 1) by (bit_vector);
    while x > u
        invariant
            (x == 1u64 << k && k < 64 && (u >> k) <= 1) || (x == 0 && u == 0),
        decreases x,
    {
        assert(x == 1u64 << k && k < 64 && x > u ==> (u >> k) == 0 && (x >> 1u64) < x && (k == 0
            ==> u == 0 && (x >> 1u64) == 0) && (k >= 1 ==> (x >> 1u64) == 1u64 << ((k - 1) as u64)
            && (u >> ((k - 1) as u64)) <= 1)) by (bit_vector);
        x >>= 1;
        proof {
            if k >= 1 {
                k = (k - 1) as u64;
            }
        }
    }
    assert(x == 1u64 << k && k < 64 && x <= u && (u >> k) <= 1 ==> ((u >> k) >> 1u64) == 0)
        by (bit_vector);
    while x > 0
        invariant
            (x == 0 && result == UIntCode::from_nat(u as nat)) || (x == 1u64 << k && k < 64 && x
                <= u && result == UIntCode::from_nat(((u >> k) >> 1u64) as nat)),
        decreases x,
    {
        let ghost v: u64 = u >> k;
        assert(x == 1u64 << k && k < 64 && x <= u && v == u >> k ==> v >= 1 && (x >> 1u64) < x
            && ((x & u) > 0) == (v % 2 == 1) && (v >> 1u64) == v / 2 && (k == 0 ==> v == u && (x
            >> 1u64) == 0) && (k >= 1 ==> (x >> 1u64) == 1u64 << ((k - 1) as u64) && (x >> 1u64)
            <= u && ((u >> ((k - 1) as u64)) >> 1u64) == v)) by (bit_vector);
        result =
        if x & u > 0 {
            UIntCode::One(Box::new(result))
        } else {
            UIntCode::Zero(Box::new(result))
        };
        assert(result == UIntCode::from_nat(v as nat));
        x >>= 1;
        proof {
            if k >= 1 {
                k = (k - 1) as u64;
            }
        }
    }
    proof {
        assert(k < 64 ==> (1u64 << k) != 0) by (bit_vector);
        UIntCode::lemma_from_nat(u as nat);
    }
    result
}

/// The canonical chain of a wide machine integer, built from its lowest bit
/// upwards: the lowest bit becomes the outermost digit and the remaining
/// bits, shifted down by one, become the digits inside.
pub fn tyuint(value: u128) -> (r: UIntCode)
    ensures
        r == UIntCode::from_nat(value as nat),
        r@ == value,
        r.canonical(),
    decreases value,
{
    proof {
        UIntCode::lemma_from_nat(value as nat);
    }
    if value == 0 {
        UIntCode::Term
    } else {
        assert((value >> 1u128) == value / 2 && ((value & 1) == 1) == (value % 2 == 1))
            by (bit_vector);
        if value & 1 == 1 {
            UIntCode::One(Box::new(tyuint(value >> 1)))
        } else {
            UIntCode::Zero(Box::new(tyuint(value >> 1)))
        }
    }
}


} // verus!
