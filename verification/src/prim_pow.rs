//! Powers of machine integers with exponents of any size.

use vstd::prelude::*;
use vstd::arithmetic::power::{lemma_pow0, lemma_pow1, lemma_pow_adds, pow};
use vstd::pervasive::unreached;
use crate::integer::IntCode;
use crate::integer_arith::{abs_int, lemma_pow_neg};
use crate::marker_traits::{wrap_unsigned, Unsigned};
use crate::type_operators::Pow;
use crate::uint::UIntCode;

verus! {

/// The exponent that a machine integer is raised to: the low 32 bits of
/// the number given.
pub open spec fn machine_exponent(exp: nat) -> nat {
    wrap_unsigned(exp as int, 0x1_0000_0000) as nat
}

/// The absolute value of a power is the power of the absolute value.
pub proof fn lemma_pow_abs(b: int, n: nat)
    ensures
        abs_int(pow(b, n)) == pow(abs_int(b), n),
        pow(abs_int(b), n) >= 0,
{
    crate::uint_pow::lemma_pow_nat(abs_int(b) as nat, n);
    if b < 0 {
        lemma_pow_neg(-b, n);
    }
}

/// While a power of a base of absolute value two or more stays within the
/// range of a machine integer, so do the powers with smaller exponents,
/// and each is the one before it times the base.
///
/// The range runs from `-(hi + 1)` to `hi`.
pub proof fn lemma_pow_within(b: int, i: nat, n: nat, hi: int)
    requires
        b >= 2 || b <= -2,
        i <= n,
        -(hi + 1) <= pow(b, n) <= hi,
    ensures
        -(hi + 1) <= pow(b, i) <= hi,
        i < n ==> pow(b, i + 1) == pow(b, i) * b,
{
    let a = abs_int(b);
    lemma_pow_abs(b, n);
    lemma_pow_abs(b, i);
    if i < n {
        let rest = (n - i) as nat;
        lemma_pow_adds(a, i, rest);
        lemma_pow1(a);
        vstd::arithmetic::power::lemma_pow_increases(a as nat, 1, rest);
        assert(2 * pow(a, i) <= pow(a, n)) by (nonlinear_arith)
            requires
                pow(a, n) == pow(a, i) * pow(a, rest),
                pow(a, rest) >= 2,
                pow(a, i) >= 0,
        ;
        lemma_pow_adds(b, i, 1);
        lemma_pow1(b);
    }
}

/// `base` to the power of `n`, where that fits a `u8`.
fn pow_u8(base: u8, n: u32) -> (r: u8)
    requires
        u8::MIN <= pow(base as int, n as nat) <= u8::MAX,
    ensures
        r == pow(base as int, n as nat),
{
    if n == 0 {
        proof {
            lemma_pow0(base as int);
        }
        return 1;
    }
    if base == 0 || base == 1 {
        proof {
            vstd::arithmetic::power::lemma0_pow(n as nat);
            vstd::arithmetic::power::lemma1_pow(n as nat);
        }
        return base;
    }
    let mut acc: u8 = 1;
    let mut i: u32 = 0;
    proof {
        lemma_pow0(base as int);
    }
    while i < n
        invariant
            i <= n,
            base >= 2 || base <= -2,
            acc == pow(base as int, i as nat),
            u8::MIN <= pow(base as int, n as nat) <= u8::MAX,
        decreases n - i,
    {
        proof {
            lemma_pow_within(base as int, i as nat, n as nat, u8::MAX as int);
            lemma_pow_within(base as int, (i + 1) as nat, n as nat, u8::MAX as int);
        }
        acc = acc * base;
        i = i + 1;
    }
    acc
}

impl Pow<UIntCode> for u8 {
    type Output = u8;

    /// The power has to fit a `u8`.
    open spec fn powi_requires(&self, exp: &UIntCode) -> bool {
        u8::MIN <= pow(*self as int, machine_exponent(exp.value())) <= u8::MAX
    }

    /// The result is `self` to the power of the low 32 bits of `exp`.
    open spec fn powi_ensures(&self, exp: &UIntCode, r: &u8) -> bool {
        *r == pow(*self as int, machine_exponent(exp.value()))
    }

    fn powi(self, exp: &UIntCode) -> (r: u8) {
        pow_u8(self, exp.to_u32())
    }
}

impl Pow<IntCode> for u8 {
    type Output = u8;

    /// The exponent must not be below zero, and the power has to fit a
    /// `u8`.
    open spec fn powi_requires(&self, exp: &IntCode) -> bool {
        &&& !(*exp is Neg)
        &&& u8::MIN <= pow(*self as int, machine_exponent(exp.magnitude().value()))
            <= u8::MAX
    }

    /// The result is `self` to the power of the low 32 bits of `exp`.
    open spec fn powi_ensures(&self, exp: &IntCode, r: &u8) -> bool {
        *r == pow(*self as int, machine_exponent(exp.magnitude().value()))
    }

    fn powi(self, exp: &IntCode) -> (r: u8) {
        match exp {
            IntCode::Zero => {
                proof {
                    vstd::arithmetic::div_mod::lemma_small_mod(0, 0x1_0000_0000);
                }
                pow_u8(self, 0)
            },
            IntCode::Pos(m) => pow_u8(self, m.to_u32()),
            IntCode::Neg(_) => unreached(),
        }
    }
}

/// `base` to the power of `n`, where that fits a `u16`.
fn pow_u16(base: u16, n: u32) -> (r: u16)
    requires
        u16::MIN <= pow(base as int, n as nat) <= u16::MAX,
    ensures
        r == pow(base as int, n as nat),
{
    if n == 0 {
        proof {
            lemma_pow0(base as int);
        }
        return 1;
    }
    if base == 0 || base == 1 {
        proof {
            vstd::arithmetic::power::lemma0_pow(n as nat);
            vstd::arithmetic::power::lemma1_pow(n as nat);
        }
        return base;
    }
    let mut acc: u16 = 1;
    let mut i: u32 = 0;
    proof {
        lemma_pow0(base as int);
    }
    while i < n
        invariant
            i <= n,
            base >= 2 || base <= -2,
            acc == pow(base as int, i as nat),
            u16::MIN <= pow(base as int, n as nat) <= u16::MAX,
        decreases n - i,
    {
        proof {
            lemma_pow_within(base as int, i as nat, n as nat, u16::MAX as int);
            lemma_pow_within(base as int, (i + 1) as nat, n as nat, u16::MAX as int);
        }
        acc = acc * base;
        i = i + 1;
    }
    acc
}

impl Pow<UIntCode> for u16 {
    type Output = u16;

    /// The power has to fit a `u16`.
    open spec fn powi_requires(&self, exp: &UIntCode) -> bool {
        u16::MIN <= pow(*self as int, machine_exponent(exp.value())) <= u16::MAX
    }

    /// The result is `self` to the power of the low 32 bits of `exp`.
    open spec fn powi_ensures(&self, exp: &UIntCode, r: &u16) -> bool {
        *r == pow(*self as int, machine_exponent(exp.value()))
    }

    fn powi(self, exp: &UIntCode) -> (r: u16) {
        pow_u16(self, exp.to_u32())
    }
}

impl Pow<IntCode> for u16 {
    type Output = u16;

    /// The exponent must not be below zero, and the power has to fit a
    /// `u16`.
    open spec fn powi_requires(&self, exp: &IntCode) -> bool {
        &&& !(*exp is Neg)
        &&& u16::MIN <= pow(*self as int, machine_exponent(exp.magnitude().value()))
            <= u16::MAX
    }

    /// The result is `self` to the power of the low 32 bits of `exp`.
    open spec fn powi_ensures(&self, exp: &IntCode, r: &u16) -> bool {
        *r == pow(*self as int, machine_exponent(exp.magnitude().value()))
    }

    fn powi(self, exp: &IntCode) -> (r: u16) {
        match exp {
            IntCode::Zero => {
                proof {
                    vstd::arithmetic::div_mod::lemma_small_mod(0, 0x1_0000_0000);
                }
                pow_u16(self, 0)
            },
            IntCode::Pos(m) => pow_u16(self, m.to_u32()),
            IntCode::Neg(_) => unreached(),
        }
    }
}

/// `base` to the power of `n`, where that fits a `u32`.
fn pow_u32(base: u32, n: u32) -> (r: u32)
    requires
        u32::MIN <= pow(base as int, n as nat) <= u32::MAX,
    ensures
        r == pow(base as int, n as nat),
{
    if n == 0 {
        proof {
            lemma_pow0(base as int);
        }
        return 1;
    }
    if base == 0 || base == 1 {
        proof {
            vstd::arithmetic::power::lemma0_pow(n as nat);
            vstd::arithmetic::power::lemma1_pow(n as nat);
        }
        return base;
    }
    let mut acc: u32 = 1;
    let mut i: u32 = 0;
    proof {
        lemma_pow0(base as int);
    }
    while i < n
        invariant
            i <= n,
            base >= 2 || base <= -2,
            acc == pow(base as int, i as nat),
            u32::MIN <= pow(base as int, n as nat) <= u32::MAX,
        decreases n - i,
    {
        proof {
            lemma_pow_within(base as int, i as nat, n as nat, u32::MAX as int);
            lemma_pow_within(base as int, (i + 1) as nat, n as nat, u32::MAX as int);
        }
        acc = acc * base;
        i = i + 1;
    }
    acc
}

impl Pow<UIntCode> for u32 {
    type Output = u32;

    /// The power has to fit a `u32`.
    open spec fn powi_requires(&self, exp: &UIntCode) -> bool {
        u32::MIN <= pow(*self as int, machine_exponent(exp.value())) <= u32::MAX
    }

    /// The result is `self` to the power of the low 32 bits of `exp`.
    open spec fn powi_ensures(&self, exp: &UIntCode, r: &u32) -> bool {
        *r == pow(*self as int, machine_exponent(exp.value()))
    }

    fn powi(self, exp: &UIntCode) -> (r: u32) {
        pow_u32(self, exp.to_u32())
    }
}

impl Pow<IntCode> for u32 {
    type Output = u32;

    /// The exponent must not be below zero, and the power has to fit a
    /// `u32`.
    open spec fn powi_requires(&self, exp: &IntCode) -> bool {
        &&& !(*exp is Neg)
        &&& u32::MIN <= pow(*self as int, machine_exponent(exp.magnitude().value()))
            <= u32::MAX
    }

    /// The result is `self` to the power of the low 32 bits of `exp`.
    open spec fn powi_ensures(&self, exp: &IntCode, r: &u32) -> bool {
        *r == pow(*self as int, machine_exponent(exp.magnitude().value()))
    }

    fn powi(self, exp: &IntCode) -> (r: u32) {
        match exp {
            IntCode::Zero => {
                proof {
                    vstd::arithmetic::div_mod::lemma_small_mod(0, 0x1_0000_0000);
                }
                pow_u32(self, 0)
            },
            IntCode::Pos(m) => pow_u32(self, m.to_u32()),
            IntCode::Neg(_) => unreached(),
        }
    }
}

/// `base` to the power of `n`, where that fits a `u64`.
fn pow_u64(base: u64, n: u32) -> (r: u64)
    requires
        u64::MIN <= pow(base as int, n as nat) <= u64::MAX,
    ensures
        r == pow(base as int, n as nat),
{
    if n == 0 {
        proof {
            lemma_pow0(base as int);
        }
        return 1;
    }
    if base == 0 || base == 1 {
        proof {
            vstd::arithmetic::power::lemma0_pow(n as nat);
            vstd::arithmetic::power::lemma1_pow(n as nat);
        }
        return base;
    }
    let mut acc: u64 = 1;
    let mut i: u32 = 0;
    proof {
        lemma_pow0(base as int);
    }
    while i < n
        invariant
            i <= n,
            base >= 2 || base <= -2,
            acc == pow(base as int, i as nat),
            u64::MIN <= pow(base as int, n as nat) <= u64::MAX,
        decreases n - i,
    {
        proof {
            lemma_pow_within(base as int, i as nat, n as nat, u64::MAX as int);
            lemma_pow_within(base as int, (i + 1) as nat, n as nat, u64::MAX as int);
        }
        acc = acc * base;
        i = i + 1;
    }
    acc
}

impl Pow<UIntCode> for u64 {
    type Output = u64;

    /// The power has to fit a `u64`.
    open spec fn powi_requires(&self, exp: &UIntCode) -> bool {
        u64::MIN <= pow(*self as int, machine_exponent(exp.value())) <= u64::MAX
    }

    /// The result is `self` to the power of the low 32 bits of `exp`.
    open spec fn powi_ensures(&self, exp: &UIntCode, r: &u64) -> bool {
        *r == pow(*self as int, machine_exponent(exp.value()))
    }

    fn powi(self, exp: &UIntCode) -> (r: u64) {
        pow_u64(self, exp.to_u32())
    }
}

impl Pow<IntCode> for u64 {
    type Output = u64;

    /// The exponent must not be below zero, and the power has to fit a
    /// `u64`.
    open spec fn powi_requires(&self, exp: &IntCode) -> bool {
        &&& !(*exp is Neg)
        &&& u64::MIN <= pow(*self as int, machine_exponent(exp.magnitude().value()))
            <= u64::MAX
    }

    /// The result is `self` to the power of the low 32 bits of `exp`.
    open spec fn powi_ensures(&self, exp: &IntCode, r: &u64) -> bool {
        *r == pow(*self as int, machine_exponent(exp.magnitude().value()))
    }

    fn powi(self, exp: &IntCode) -> (r: u64) {
        match exp {
            IntCode::Zero => {
                proof {
                    vstd::arithmetic::div_mod::lemma_small_mod(0, 0x1_0000_0000);
                }
                pow_u64(self, 0)
            },
            IntCode::Pos(m) => pow_u64(self, m.to_u32()),
            IntCode::Neg(_) => unreached(),
        }
    }
}

/// `base` to the power of `n`, where that fits a `usize`.
fn pow_usize(base: usize, n: u32) -> (r: usize)
    requires
        usize::MIN <= pow(base as int, n as nat) <= usize::MAX,
    ensures
        r == pow(base as int, n as nat),
{
    if n == 0 {
        proof {
            lemma_pow0(base as int);
        }
        return 1;
    }
    if base == 0 || base == 1 {
        proof {
            vstd::arithmetic::power::lemma0_pow(n as nat);
            vstd::arithmetic::power::lemma1_pow(n as nat);
        }
        return base;
    }
    let mut acc: usize = 1;
    let mut i: u32 = 0;
    proof {
        lemma_pow0(base as int);
    }
    while i < n
        invariant
            i <= n,
            base >= 2 || base <= -2,
            acc == pow(base as int, i as nat),
            usize::MIN <= pow(base as int, n as nat) <= usize::MAX,
        decreases n - i,
    {
        proof {
            lemma_pow_within(base as int, i as nat, n as nat, usize::MAX as int);
            lemma_pow_within(base as int, (i + 1) as nat, n as nat, usize::MAX as int);
        }
        acc = acc * base;
        i = i + 1;
    }
    acc
}

impl Pow<UIntCode> for usize {
    type Output = usize;

    /// The power has to fit a `usize`.
    open spec fn powi_requires(&self, exp: &UIntCode) -> bool {
        usize::MIN <= pow(*self as int, machine_exponent(exp.value())) <= usize::MAX
    }

    /// The result is `self` to the power of the low 32 bits of `exp`.
    open spec fn powi_ensures(&self, exp: &UIntCode, r: &usize) -> bool {
        *r == pow(*self as int, machine_exponent(exp.value()))
    }

    fn powi(self, exp: &UIntCode) -> (r: usize) {
        pow_usize(self, exp.to_u32())
    }
}

impl Pow<IntCode> for usize {
    type Output = usize;

    /// The exponent must not be below zero, and the power has to fit a
    /// `usize`.
    open spec fn powi_requires(&self, exp: &IntCode) -> bool {
        &&& !(*exp is Neg)
        &&& usize::MIN <= pow(*self as int, machine_exponent(exp.magnitude().value()))
            <= usize::MAX
    }

    /// The result is `self` to the power of the low 32 bits of `exp`.
    open spec fn powi_ensures(&self, exp: &IntCode, r: &usize) -> bool {
        *r == pow(*self as int, machine_exponent(exp.magnitude().value()))
    }

    fn powi(self, exp: &IntCode) -> (r: usize) {
        match exp {
            IntCode::Zero => {
                proof {
                    vstd::arithmetic::div_mod::lemma_small_mod(0, 0x1_0000_0000);
                }
                pow_usize(self, 0)
            },
            IntCode::Pos(m) => pow_usize(self, m.to_u32()),
            IntCode::Neg(_) => unreached(),
        }
    }
}

/// `base` to the power of `n`, where that fits a `i8`.
fn pow_i8(base: i8, n: u32) -> (r: i8)
    requires
        i8::MIN <= pow(base as int, n as nat) <= i8::MAX,
    ensures
        r == pow(base as int, n as nat),
{
    if n == 0 {
        proof {
            lemma_pow0(base as int);
        }
        return 1;
    }
    if base == 0 || base == 1 {
        proof {
            vstd::arithmetic::power::lemma0_pow(n as nat);
            vstd::arithmetic::power::lemma1_pow(n as nat);
        }
        return base;
    }
    if base == -1 {
        proof {
            vstd::arithmetic::power::lemma1_pow(n as nat);
            lemma_pow_neg(1, n as nat);
        }
        return if n % 2 == 0 {
            1
        } else {
            -1
        };
    }
    let mut acc: i8 = 1;
    let mut i: u32 = 0;
    proof {
        lemma_pow0(base as int);
    }
    while i < n
        invariant
            i <= n,
            base >= 2 || base <= -2,
            acc == pow(base as int, i as nat),
            i8::MIN <= pow(base as int, n as nat) <= i8::MAX,
        decreases n - i,
    {
        proof {
            lemma_pow_within(base as int, i as nat, n as nat, i8::MAX as int);
            lemma_pow_within(base as int, (i + 1) as nat, n as nat, i8::MAX as int);
        }
        acc = acc * base;
        i = i + 1;
    }
    acc
}

impl Pow<UIntCode> for i8 {
    type Output = i8;

    /// The power has to fit a `i8`.
    open spec fn powi_requires(&self, exp: &UIntCode) -> bool {
        i8::MIN <= pow(*self as int, machine_exponent(exp.value())) <= i8::MAX
    }

    /// The result is `self` to the power of the low 32 bits of `exp`.
    open spec fn powi_ensures(&self, exp: &UIntCode, r: &i8) -> bool {
        *r == pow(*self as int, machine_exponent(exp.value()))
    }

    fn powi(self, exp: &UIntCode) -> (r: i8) {
        pow_i8(self, exp.to_u32())
    }
}

impl Pow<IntCode> for i8 {
    type Output = i8;

    /// The exponent must not be below zero, and the power has to fit a
    /// `i8`.
    open spec fn powi_requires(&self, exp: &IntCode) -> bool {
        &&& !(*exp is Neg)
        &&& i8::MIN <= pow(*self as int, machine_exponent(exp.magnitude().value()))
            <= i8::MAX
    }

    /// The result is `self` to the power of the low 32 bits of `exp`.
    open spec fn powi_ensures(&self, exp: &IntCode, r: &i8) -> bool {
        *r == pow(*self as int, machine_exponent(exp.magnitude().value()))
    }

    fn powi(self, exp: &IntCode) -> (r: i8) {
        match exp {
            IntCode::Zero => {
                proof {
                    vstd::arithmetic::div_mod::lemma_small_mod(0, 0x1_0000_0000);
                }
                pow_i8(self, 0)
            },
            IntCode::Pos(m) => pow_i8(self, m.to_u32()),
            IntCode::Neg(_) => unreached(),
        }
    }
}

/// `base` to the power of `n`, where that fits a `i16`.
fn pow_i16(base: i16, n: u32) -> (r: i16)
    requires
        i16::MIN <= pow(base as int, n as nat) <= i16::MAX,
    ensures
        r == pow(base as int, n as nat),
{
    if n == 0 {
        proof {
            lemma_pow0(base as int);
        }
        return 1;
    }
    if base == 0 || base == 1 {
        proof {
            vstd::arithmetic::power::lemma0_pow(n as nat);
            vstd::arithmetic::power::lemma1_pow(n as nat);
        }
        return base;
    }
    if base == -1 {
        proof {
            vstd::arithmetic::power::lemma1_pow(n as nat);
            lemma_pow_neg(1, n as nat);
        }
        return if n % 2 == 0 {
            1
        } else {
            -1
        };
    }
    let mut acc: i16 = 1;
    let mut i: u32 = 0;
    proof {
        lemma_pow0(base as int);
    }
    while i < n
        invariant
            i <= n,
            base >= 2 || base <= -2,
            acc == pow(base as int, i as nat),
            i16::MIN <= pow(base as int, n as nat) <= i16::MAX,
        decreases n - i,
    {
        proof {
            lemma_pow_within(base as int, i as nat, n as nat, i16::MAX as int);
            lemma_pow_within(base as int, (i + 1) as nat, n as nat, i16::MAX as int);
        }
        acc = acc * base;
        i = i + 1;
    }
    acc
}

impl Pow<UIntCode> for i16 {
    type Output = i16;

    /// The power has to fit a `i16`.
    open spec fn powi_requires(&self, exp: &UIntCode) -> bool {
        i16::MIN <= pow(*self as int, machine_exponent(exp.value())) <= i16::MAX
    }

    /// The result is `self` to the power of the low 32 bits of `exp`.
    open spec fn powi_ensures(&self, exp: &UIntCode, r: &i16) -> bool {
        *r == pow(*self as int, machine_exponent(exp.value()))
    }

    fn powi(self, exp: &UIntCode) -> (r: i16) {
        pow_i16(self, exp.to_u32())
    }
}

impl Pow<IntCode> for i16 {
    type Output = i16;

    /// The exponent must not be below zero, and the power has to fit a
    /// `i16`.
    open spec fn powi_requires(&self, exp: &IntCode) -> bool {
        &&& !(*exp is Neg)
        &&& i16::MIN <= pow(*self as int, machine_exponent(exp.magnitude().value()))
            <= i16::MAX
    }

    /// The result is `self` to the power of the low 32 bits of `exp`.
    open spec fn powi_ensures(&self, exp: &IntCode, r: &i16) -> bool {
        *r == pow(*self as int, machine_exponent(exp.magnitude().value()))
    }

    fn powi(self, exp: &IntCode) -> (r: i16) {
        match exp {
            IntCode::Zero => {
                proof {
                    vstd::arithmetic::div_mod::lemma_small_mod(0, 0x1_0000_0000);
                }
                pow_i16(self, 0)
            },
            IntCode::Pos(m) => pow_i16(self, m.to_u32()),
            IntCode::Neg(_) => unreached(),
        }
    }
}

/// `base` to the power of `n`, where that fits a `i32`.
fn pow_i32(base: i32, n: u32) -> (r: i32)
    requires
        i32::MIN <= pow(base as int, n as nat) <= i32::MAX,
    ensures
        r == pow(base as int, n as nat),
{
    if n == 0 {
        proof {
            lemma_pow0(base as int);
        }
        return 1;
    }
    if base == 0 || base == 1 {
        proof {
            vstd::arithmetic::power::lemma0_pow(n as nat);
            vstd::arithmetic::power::lemma1_pow(n as nat);
        }
        return base;
    }
    if base == -1 {
        proof {
            vstd::arithmetic::power::lemma1_pow(n as nat);
            lemma_pow_neg(1, n as nat);
        }
        return if n % 2 == 0 {
            1
        } else {
            -1
        };
    }
    let mut acc: i32 = 1;
    let mut i: u32 = 0;
    proof {
        lemma_pow0(base as int);
    }
    while i < n
        invariant
            i <= n,
            base >= 2 || base <= -2,
            acc == pow(base as int, i as nat),
            i32::MIN <= pow(base as int, n as nat) <= i32::MAX,
        decreases n - i,
    {
        proof {
            lemma_pow_within(base as int, i as nat, n as nat, i32::MAX as int);
            lemma_pow_within(base as int, (i + 1) as nat, n as nat, i32::MAX as int);
        }
        acc = acc * base;
        i = i + 1;
    }
    acc
}

impl Pow<UIntCode> for i32 {
    type Output = i32;

    /// The power has to fit a `i32`.
    open spec fn powi_requires(&self, exp: &UIntCode) -> bool {
        i32::MIN <= pow(*self as int, machine_exponent(exp.value())) <= i32::MAX
    }

    /// The result is `self` to the power of the low 32 bits of `exp`.
    open spec fn powi_ensures(&self, exp: &UIntCode, r: &i32) -> bool {
        *r == pow(*self as int, machine_exponent(exp.value()))
    }

    fn powi(self, exp: &UIntCode) -> (r: i32) {
        pow_i32(self, exp.to_u32())
    }
}

impl Pow<IntCode> for i32 {
    type Output = i32;

    /// The exponent must not be below zero, and the power has to fit a
    /// `i32`.
    open spec fn powi_requires(&self, exp: &IntCode) -> bool {
        &&& !(*exp is Neg)
        &&& i32::MIN <= pow(*self as int, machine_exponent(exp.magnitude().value()))
            <= i32::MAX
    }

    /// The result is `self` to the power of the low 32 bits of `exp`.
    open spec fn powi_ensures(&self, exp: &IntCode, r: &i32) -> bool {
        *r == pow(*self as int, machine_exponent(exp.magnitude().value()))
    }

    fn powi(self, exp: &IntCode) -> (r: i32) {
        match exp {
            IntCode::Zero => {
                proof {
                    vstd::arithmetic::div_mod::lemma_small_mod(0, 0x1_0000_0000);
                }
                pow_i32(self, 0)
            },
            IntCode::Pos(m) => pow_i32(self, m.to_u32()),
            IntCode::Neg(_) => unreached(),
        }
    }
}

/// `base` to the power of `n`, where that fits a `i64`.
fn pow_i64(base: i64, n: u32) -> (r: i64)
    requires
        i64::MIN <= pow(base as int, n as nat) <= i64::MAX,
    ensures
        r == pow(base as int, n as nat),
{
    if n == 0 {
        proof {
            lemma_pow0(base as int);
        }
        return 1;
    }
    if base == 0 || base == 1 {
        proof {
            vstd::arithmetic::power::lemma0_pow(n as nat);
            vstd::arithmetic::power::lemma1_pow(n as nat);
        }
        return base;
    }
    if base == -1 {
        proof {
            vstd::arithmetic::power::lemma1_pow(n as nat);
            lemma_pow_neg(1, n as nat);
        }
        return if n % 2 == 0 {
            1
        } else {
            -1
        };
    }
    let mut acc: i64 = 1;
    let mut i: u32 = 0;
    proof {
        lemma_pow0(base as int);
    }
    while i < n
        invariant
            i <= n,
            base >= 2 || base <= -2,
            acc == pow(base as int, i as nat),
            i64::MIN <= pow(base as int, n as nat) <= i64::MAX,
        decreases n - i,
    {
        proof {
            lemma_pow_within(base as int, i as nat, n as nat, i64::MAX as int);
            lemma_pow_within(base as int, (i + 1) as nat, n as nat, i64::MAX as int);
        }
        acc = acc * base;
        i = i + 1;
    }
    acc
}

impl Pow<UIntCode> for i64 {
    type Output = i64;

    /// The power has to fit a `i64`.
    open spec fn powi_requires(&self, exp: &UIntCode) -> bool {
        i64::MIN <= pow(*self as int, machine_exponent(exp.value())) <= i64::MAX
    }

    /// The result is `self` to the power of the low 32 bits of `exp`.
    open spec fn powi_ensures(&self, exp: &UIntCode, r: &i64) -> bool {
        *r == pow(*self as int, machine_exponent(exp.value()))
    }

    fn powi(self, exp: &UIntCode) -> (r: i64) {
        pow_i64(self, exp.to_u32())
    }
}

impl Pow<IntCode> for i64 {
    type Output = i64;

    /// The exponent must not be below zero, and the power has to fit a
    /// `i64`.
    open spec fn powi_requires(&self, exp: &IntCode) -> bool {
        &&& !(*exp is Neg)
        &&& i64::MIN <= pow(*self as int, machine_exponent(exp.magnitude().value()))
            <= i64::MAX
    }

    /// The result is `self` to the power of the low 32 bits of `exp`.
    open spec fn powi_ensures(&self, exp: &IntCode, r: &i64) -> bool {
        *r == pow(*self as int, machine_exponent(exp.magnitude().value()))
    }

    fn powi(self, exp: &IntCode) -> (r: i64) {
        match exp {
            IntCode::Zero => {
                proof {
                    vstd::arithmetic::div_mod::lemma_small_mod(0, 0x1_0000_0000);
                }
                pow_i64(self, 0)
            },
            IntCode::Pos(m) => pow_i64(self, m.to_u32()),
            IntCode::Neg(_) => unreached(),
        }
    }
}

/// `base` to the power of `n`, where that fits a `isize`.
fn pow_isize(base: isize, n: u32) -> (r: isize)
    requires
        isize::MIN <= pow(base as int, n as nat) <= isize::MAX,
    ensures
        r == pow(base as int, n as nat),
{
    if n == 0 {
        proof {
            lemma_pow0(base as int);
        }
        return 1;
    }
    if base == 0 || base == 1 {
        proof {
            vstd::arithmetic::power::lemma0_pow(n as nat);
            vstd::arithmetic::power::lemma1_pow(n as nat);
        }
        return base;
    }
    if base == -1 {
        proof {
            vstd::arithmetic::power::lemma1_pow(n as nat);
            lemma_pow_neg(1, n as nat);
        }
        return if n % 2 == 0 {
            1
        } else {
            -1
        };
    }
    let mut acc: isize = 1;
    let mut i: u32 = 0;
    proof {
        lemma_pow0(base as int);
    }
    while i < n
        invariant
            i <= n,
            base >= 2 || base <= -2,
            acc == pow(base as int, i as nat),
            isize::MIN <= pow(base as int, n as nat) <= isize::MAX,
        decreases n - i,
    {
        proof {
            lemma_pow_within(base as int, i as nat, n as nat, isize::MAX as int);
            lemma_pow_within(base as int, (i + 1) as nat, n as nat, isize::MAX as int);
        }
        acc = acc * base;
        i = i + 1;
    }
    acc
}

impl Pow<UIntCode> for isize {
    type Output = isize;

    /// The power has to fit a `isize`.
    open spec fn powi_requires(&self, exp: &UIntCode) -> bool {
        isize::MIN <= pow(*self as int, machine_exponent(exp.value())) <= isize::MAX
    }

    /// The result is `self` to the power of the low 32 bits of `exp`.
    open spec fn powi_ensures(&self, exp: &UIntCode, r: &isize) -> bool {
        *r == pow(*self as int, machine_exponent(exp.value()))
    }

    fn powi(self, exp: &UIntCode) -> (r: isize) {
        pow_isize(self, exp.to_u32())
    }
}

impl Pow<IntCode> for isize {
    type Output = isize;

    /// The exponent must not be below zero, and the power has to fit a
    /// `isize`.
    open spec fn powi_requires(&self, exp: &IntCode) -> bool {
        &&& !(*exp is Neg)
        &&& isize::MIN <= pow(*self as int, machine_exponent(exp.magnitude().value()))
            <= isize::MAX
    }

    /// The result is `self` to the power of the low 32 bits of `exp`.
    open spec fn powi_ensures(&self, exp: &IntCode, r: &isize) -> bool {
        *r == pow(*self as int, machine_exponent(exp.magnitude().value()))
    }

    fn powi(self, exp: &IntCode) -> (r: isize) {
        match exp {
            IntCode::Zero => {
                proof {
                    vstd::arithmetic::div_mod::lemma_small_mod(0, 0x1_0000_0000);
                }
                pow_isize(self, 0)
            },
            IntCode::Pos(m) => pow_isize(self, m.to_u32()),
            IntCode::Neg(_) => unreached(),
        }
    }
}

} // verus!
