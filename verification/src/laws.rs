//! What holds of the operations together.

use vstd::prelude::*;
use vstd::arithmetic::power::pow;
use crate::bit::BitCode;
use crate::integer::IntCode;
use crate::integer_arith::{abs_int, int_pow, trunc_div, trunc_rem};
use crate::marker_traits::{wrap_signed, wrap_unsigned};
use crate::private::{Invert, Trim};
use crate::type_operators::Cmp;
use crate::uint::UIntCode;
use crate::compare_nats;

verus! {

/// A number that fits an unsigned machine integer with `modulus` distinct
/// values comes back unchanged: the conversion of its canonical chain
/// drops nothing.
pub proof fn lemma_round_trip_unsigned(n: nat, modulus: int)
    requires
        n < modulus,
    ensures
        wrap_unsigned(UIntCode::from_nat(n)@ as int, modulus) == n,
{
    UIntCode::lemma_from_nat(n);
    vstd::arithmetic::div_mod::lemma_small_mod(n, modulus as nat);
}

/// A number that fits the upper half of a signed machine integer with
/// `modulus` distinct values comes back unchanged from its canonical
/// chain.
pub proof fn lemma_round_trip_signed(n: nat, modulus: int)
    requires
        2 * n < modulus,
    ensures
        wrap_signed(UIntCode::from_nat(n)@ as int, modulus) == n,
{
    UIntCode::lemma_from_nat(n);
    vstd::arithmetic::div_mod::lemma_small_mod(n, modulus as nat);
}

/// A number that fits a signed machine integer with `modulus` distinct
/// values comes back unchanged from its well-formed signed value.
pub proof fn lemma_round_trip_int(i: int, modulus: int)
    requires
        -modulus <= 2 * i < modulus,
    ensures
        wrap_signed(IntCode::from_int(i)@, modulus) == i,
{
    IntCode::lemma_from_int(i);
    if i >= 0 {
        vstd::arithmetic::div_mod::lemma_small_mod(i as nat, modulus as nat);
    } else {
        vstd::arithmetic::div_mod::lemma_small_mod((i + modulus) as nat, modulus as nat);
        vstd::arithmetic::div_mod::lemma_mod_add_multiples_vanish(i, modulus);
    }
}

/// Two canonical chains denote the same number only if they are the same
/// chain.
pub proof fn lemma_canonical_form_unique(a: UIntCode, b: UIntCode)
    requires
        a.canonical(),
        b.canonical(),
        a@ == b@,
    ensures
        a == b,
{
    a.lemma_canonical_equal(b);
}

/// Trimming keeps the number, yields a canonical chain, and changes
/// nothing when done a second time.
pub proof fn lemma_trim_idempotent(m: UIntCode)
    ensures
        m.trim_spec()@ == m@,
        m.trim_spec().canonical(),
        m.trim_spec().trim_spec() == m.trim_spec(),
        m.canonical() ==> m.trim_spec() == m,
{
    UIntCode::lemma_from_nat(m@);
    if m.canonical() {
        m.lemma_canonical_unique();
    }
}

/// An inverted chain stands for the same number, and inverting it again
/// gives the chain back.
pub proof fn lemma_double_inversion(m: UIntCode)
    ensures
        m.invert_spec().denoted() == m@,
        m.invert_spec().invert_spec() == m,
{
    let r = m.digits().reverse();
    UIntCode::lemma_from_digits(r);
    assert(r.reverse() =~= m.digits());
    m.lemma_digits_roundtrip();
}

/// The most significant digit of a canonical chain with digits is a one.
pub proof fn lemma_canonical_high_digit(m: UIntCode)
    requires
        m.canonical(),
        m.size() > 0,
    ensures
        m.digits().len() == m.size(),
        m.digits().last() == BitCode::B1,
    decreases m,
{
    m.lemma_digits_roundtrip();
    let rest = m.rest();
    rest.lemma_digits_roundtrip();
    if rest.size() > 0 {
        lemma_canonical_high_digit(rest);
        assert(m.digits().last() == rest.digits().last());
    }
}

/// The canonical chains of two machine integers compare as the integers
/// do.
pub proof fn lemma_order_consistent(a: u64, b: u64)
    ensures
        UIntCode::from_nat(a as nat).compare_spec(&UIntCode::from_nat(b as nat)) == compare_nats(
            a as nat,
            b as nat,
        ),
{
    UIntCode::lemma_from_nat(a as nat);
    UIntCode::lemma_from_nat(b as nat);
    UIntCode::from_nat(a as nat).lemma_compare_canonical(UIntCode::from_nat(b as nat));
}

/// The sum of the canonical chains of `a` and `b` converts to `a + b`
/// where that fits the target.
pub proof fn lemma_add_homomorphic(a: nat, b: nat, modulus: int)
    requires
        a + b < modulus,
    ensures
        wrap_unsigned(
            UIntCode::from_nat(UIntCode::from_nat(a)@ + UIntCode::from_nat(b)@)@ as int,
            modulus,
        ) == a + b,
{
    UIntCode::lemma_from_nat(a);
    UIntCode::lemma_from_nat(b);
    lemma_round_trip_unsigned(a + b, modulus);
}

/// The difference of the canonical chains of `a` and `b`, with `b` not
/// above `a`, converts to `a - b` where `a` fits the target.
pub proof fn lemma_sub_homomorphic(a: nat, b: nat, modulus: int)
    requires
        b <= a < modulus,
    ensures
        wrap_unsigned(
            UIntCode::from_nat((UIntCode::from_nat(a)@ - UIntCode::from_nat(b)@) as nat)@ as int,
            modulus,
        ) == a - b,
{
    UIntCode::lemma_from_nat(a);
    UIntCode::lemma_from_nat(b);
    lemma_round_trip_unsigned((a - b) as nat, modulus);
}

/// The product of the canonical chains of `a` and `b` converts to `a * b`
/// where that fits the target.
pub proof fn lemma_mul_homomorphic(a: nat, b: nat, modulus: int)
    requires
        a * b < modulus,
    ensures
        wrap_unsigned(
            UIntCode::from_nat(UIntCode::from_nat(a)@ * UIntCode::from_nat(b)@)@ as int,
            modulus,
        ) == a * b,
{
    UIntCode::lemma_from_nat(a);
    UIntCode::lemma_from_nat(b);
    lemma_round_trip_unsigned(a * b, modulus);
}

/// The quotient times the divisor, plus the remainder, is the dividend
/// again, as chains: the sum of the product of the chains of `a / b` and
/// `b` and of the chain of `a % b` is the chain of `a`.
pub proof fn lemma_div_rem_recompose(a: nat, b: nat)
    requires
        b > 0,
    ensures
        UIntCode::from_nat(
            UIntCode::from_nat(UIntCode::from_nat(a / b)@ * UIntCode::from_nat(b)@)@
                + UIntCode::from_nat(a % b)@,
        ) == UIntCode::from_nat(a),
{
    UIntCode::lemma_from_nat(a / b);
    UIntCode::lemma_from_nat(b);
    UIntCode::lemma_from_nat(a % b);
    UIntCode::lemma_from_nat((a / b) * b);
    vstd::arithmetic::div_mod::lemma_fundamental_div_mod(a as int, b as int);
    assert((a / b) * b + a % b == a) by (nonlinear_arith)
        requires
            a == b * (a / b) + a % b,
    ;
}

/// For signed numbers, the quotient rounded towards zero times the divisor,
/// plus the remainder, is the dividend again, and the remainder is smaller
/// in absolute value than the divisor.
pub proof fn lemma_trunc_div_rem(a: int, b: int)
    requires
        b != 0,
    ensures
        trunc_div(a, b) * b + trunc_rem(a, b) == a,
        abs_int(trunc_rem(a, b)) < abs_int(b),
{
    let q = abs_int(a) / abs_int(b);
    let m = abs_int(a) % abs_int(b);
    vstd::arithmetic::div_mod::lemma_fundamental_div_mod(abs_int(a), abs_int(b));
    vstd::arithmetic::div_mod::lemma_mod_bound(abs_int(a), abs_int(b));
    assert(trunc_div(a, b) * b + trunc_rem(a, b) == a) by (nonlinear_arith)
        requires
            abs_int(a) == abs_int(b) * q + m,
            trunc_div(a, b) == (if (a < 0) != (b < 0) {
                -q
            } else {
                q
            }),
            trunc_rem(a, b) == (if a < 0 {
                -m
            } else {
                m
            }),
            b != 0,
    ;
}

/// A magnitude of zero makes the signed value zero whatever the sign.
pub proof fn lemma_zero_has_no_sign(negative: bool)
    ensures
        IntCode::from_int(
            if negative {
                -(UIntCode::Term@ as int)
            } else {
                UIntCode::Term@ as int
            },
        ) == IntCode::Zero,
{
}

/// Negating twice gives the value back, and the opposite of zero is zero.
pub proof fn lemma_neg_involution(x: IntCode)
    ensures
        x.negated().negated() == x,
        x.negated()@ == -x@,
        IntCode::Zero.negated() == IntCode::Zero,
{
}

/// Any number to the power of zero is one, zero included, and any number
/// to the power of one is the number itself.
pub proof fn lemma_pow_zero_one(x: UIntCode)
    ensures
        UIntCode::from_nat(pow(x@ as int, 0) as nat) == UIntCode::One(Box::new(UIntCode::Term)),
        x.canonical() ==> UIntCode::from_nat(pow(x@ as int, 1) as nat) == x,
{
    vstd::arithmetic::power::lemma_pow0(x@ as int);
    vstd::arithmetic::power::lemma_pow1(x@ as int);
    assert(UIntCode::from_nat(0) == UIntCode::Term);
    assert(UIntCode::from_nat(1) == UIntCode::One(Box::new(UIntCode::from_nat(0))));
    if x.canonical() {
        x.lemma_canonical_unique();
    }
}

/// The same for signed numbers: a power of zero is one and a power of one
/// is the base, whatever the base.
pub proof fn lemma_int_pow_zero_one(x: int)
    ensures
        int_pow(x, 0) == Some(1int),
        int_pow(x, 1) == Some(x),
{
    vstd::arithmetic::power::lemma_pow0(x);
    vstd::arithmetic::power::lemma_pow1(x);
}

} // verus!
