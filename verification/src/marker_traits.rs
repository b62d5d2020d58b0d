//! The conversions that every kind of number offers.

use vstd::prelude::*;

verus! {

/// A binary digit.
pub trait Bit: Sized {
    /// Whether the digit is one.
    spec fn is_set(&self) -> bool;

    /// The digit as a number, 0 or 1.
    fn to_u8(&self) -> (r: u8)
        ensures
            r == (if self.is_set() { 1u8 } else { 0u8 }),
    ;

    /// Whether the digit is one.
    fn to_bool(&self) -> (r: bool)
        ensures
            r == self.is_set(),
    ;
}

/// What is left of `v` in an unsigned machine integer with `modulus`
/// distinct values: the high-order bits are dropped.
pub open spec fn wrap_unsigned(v: int, modulus: int) -> int {
    v % modulus
}

/// What is left of `v` in a signed, two's complement machine integer with
/// `modulus` distinct values: the high-order bits are dropped and the
/// highest bit kept counts as the sign.
pub open spec fn wrap_signed(v: int, modulus: int) -> int {
    let m = v % modulus;
    if 2 * m < modulus {
        m
    } else {
        m - modulus
    }
}

/// Doubling and adding a digit commute with dropping high-order bits: two
/// numbers that agree in their low bits still agree after the step.
pub proof fn lemma_wrap_unsigned_step(v: int, t: int, bit: int, modulus: int)
    requires
        modulus > 0,
        t == wrap_unsigned(v, modulus),
    ensures
        wrap_unsigned(2 * t + bit, modulus) == wrap_unsigned(2 * v + bit, modulus),
{
    let q = v / modulus;
    vstd::arithmetic::div_mod::lemma_fundamental_div_mod(v, modulus);
    assert(2 * v + bit == modulus * (2 * q) + (2 * t + bit)) by (nonlinear_arith)
        requires
            v == modulus * q + t,
    ;
    vstd::arithmetic::div_mod::lemma_mod_multiples_vanish(2 * q, 2 * t + bit, modulus);
}

/// The signed counterpart of [`lemma_wrap_unsigned_step`].
pub proof fn lemma_wrap_signed_step(v: int, t: int, bit: int, modulus: int)
    requires
        modulus > 0,
        t == wrap_signed(v, modulus),
    ensures
        wrap_signed(2 * t + bit, modulus) == wrap_signed(2 * v + bit, modulus),
{
    let m = v % modulus;
    lemma_wrap_unsigned_step(v, m, bit, modulus);
    if t != m {
        assert(2 * m + bit == modulus * 2 + (2 * t + bit));
        vstd::arithmetic::div_mod::lemma_mod_multiples_vanish(2, 2 * t + bit, modulus);
    }
}

/// An unsigned integer of any size.
///
/// The conversions never fail: where the number does not fit the target
/// type, its high-order bits are silently dropped.
pub trait Unsigned: View<V = nat> + Sized {
    /// The low 8 bits of the number.
    fn to_u8(&self) -> (r: u8)
        ensures
            r == wrap_unsigned(self@ as int, 0x100),
    ;

    /// The low 16 bits of the number.
    fn to_u16(&self) -> (r: u16)
        ensures
            r == wrap_unsigned(self@ as int, 0x1_0000),
    ;

    /// The low 32 bits of the number.
    fn to_u32(&self) -> (r: u32)
        ensures
            r == wrap_unsigned(self@ as int, 0x1_0000_0000),
    ;

    /// The low 64 bits of the number.
    fn to_u64(&self) -> (r: u64)
        ensures
            r == wrap_unsigned(self@ as int, 0x1_0000_0000_0000_0000),
    ;

    /// As many low bits of the number as a `usize` holds.
    fn to_usize(&self) -> (r: usize)
        ensures
            r == wrap_unsigned(self@ as int, usize::MAX + 1),
    ;

    /// The low 8 bits of the number, read as two's complement.
    fn to_i8(&self) -> (r: i8)
        ensures
            r == wrap_signed(self@ as int, 0x100),
    ;

    /// The low 16 bits of the number, read as two's complement.
    fn to_i16(&self) -> (r: i16)
        ensures
            r == wrap_signed(self@ as int, 0x1_0000),
    ;

    /// The low 32 bits of the number, read as two's complement.
    fn to_i32(&self) -> (r: i32)
        ensures
            r == wrap_signed(self@ as int, 0x1_0000_0000),
    ;

    /// The low 64 bits of the number, read as two's complement.
    fn to_i64(&self) -> (r: i64)
        ensures
            r == wrap_signed(self@ as int, 0x1_0000_0000_0000_0000),
    ;

    /// As many low bits of the number as an `isize` holds, read as two's
    /// complement.
    fn to_isize(&self) -> (r: isize)
        ensures
            r == wrap_signed(self@ as int, usize::MAX + 1),
    ;
}


/// Negating a number negates what is left of it in a signed machine
/// integer, except for the lowest value of that integer, which stays.
pub proof fn lemma_wrap_signed_neg(v: int, modulus: int)
    requires
        modulus > 0,
        modulus % 2 == 0,
    ensures
        wrap_signed(-v, modulus) == (if 2 * wrap_signed(v, modulus) == -modulus {
            wrap_signed(v, modulus)
        } else {
            -wrap_signed(v, modulus)
        }),
{
    let m = v % modulus;
    let q = v / modulus;
    vstd::arithmetic::div_mod::lemma_fundamental_div_mod(v, modulus);
    if m == 0 {
        assert(-v == (-q) * modulus + 0) by (nonlinear_arith)
            requires
                v == modulus * q,
        ;
        vstd::arithmetic::div_mod::lemma_fundamental_div_mod_converse_mod(-v, modulus, -q, 0);
    } else {
        assert(-v == (-q - 1) * modulus + (modulus - m)) by (nonlinear_arith)
            requires
                v == modulus * q + m,
        ;
        vstd::arithmetic::div_mod::lemma_fundamental_div_mod_converse_mod(
            -v,
            modulus,
            -q - 1,
            modulus - m,
        );
    }
}

/// A signed integer of any size.
///
/// The conversions never fail: where the number does not fit the target
/// type, its high-order bits are silently dropped.
pub trait Integer: View<V = int> + Sized {
    /// The low 8 bits of the number, read as two's complement.
    fn to_i8(&self) -> (r: i8)
        ensures
            r == wrap_signed(self@, 0x100),
    ;

    /// The low 16 bits of the number, read as two's complement.
    fn to_i16(&self) -> (r: i16)
        ensures
            r == wrap_signed(self@, 0x1_0000),
    ;

    /// The low 32 bits of the number, read as two's complement.
    fn to_i32(&self) -> (r: i32)
        ensures
            r == wrap_signed(self@, 0x1_0000_0000),
    ;

    /// The low 64 bits of the number, read as two's complement.
    fn to_i64(&self) -> (r: i64)
        ensures
            r == wrap_signed(self@, 0x1_0000_0000_0000_0000),
    ;

    /// As many low bits of the number as an `isize` holds, read as two's
    /// complement.
    fn to_isize(&self) -> (r: isize)
        ensures
            r == wrap_signed(self@, usize::MAX + 1),
    ;
}

} // verus!
