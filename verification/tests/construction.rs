use exactnum::bit::BitCode;
use exactnum::integer::{gen_int, tyint, IntCode};
use exactnum::marker_traits::{Integer, Unsigned};
use exactnum::uint::{gen_uint, tyuint, UIntCode};

fn zero(rest: UIntCode) -> UIntCode {
    UIntCode::Zero(Box::new(rest))
}

fn one(rest: UIntCode) -> UIntCode {
    UIntCode::One(Box::new(rest))
}

#[test]
fn tyint_test() {
    assert_eq!(tyint(false, 0), gen_int(0));
    assert_eq!(tyint(false, 1), gen_int(1));
    assert_eq!(tyint(false, 2), gen_int(2));
    assert_eq!(tyint(false, 3), gen_int(3));
    assert_eq!(tyint(false, 4), gen_int(4));
    assert_eq!(tyint(false, 4294967296), gen_int(4294967296));

    assert_eq!(tyint(true, 0), gen_int(0));
    assert_eq!(tyint(true, 1), gen_int(-1));
    assert_eq!(tyint(true, 2), gen_int(-2));
    assert_eq!(tyint(true, 3), gen_int(-3));
    assert_eq!(tyint(true, 4), gen_int(-4));
    assert_eq!(tyint(true, 4294967296), gen_int(-4294967296));

    assert_eq!(tyuint(0), gen_uint(0));
    assert_eq!(tyuint(1), gen_uint(1));
    assert_eq!(tyuint(2), gen_uint(2));
    assert_eq!(tyuint(3), gen_uint(3));
    assert_eq!(tyuint(4), gen_uint(4));
    assert_eq!(tyuint(4294967296), gen_uint(4294967296));
}

#[test]
fn chains_have_the_lowest_digit_outermost() {
    assert_eq!(gen_uint(0), UIntCode::Term);
    assert_eq!(gen_uint(1), one(UIntCode::Term));
    assert_eq!(gen_uint(2), zero(one(UIntCode::Term)));
    assert_eq!(gen_uint(6), zero(one(one(UIntCode::Term))));
    assert_eq!(gen_uint(13), one(zero(one(one(UIntCode::Term)))));
    assert_eq!(tyuint(13), one(zero(one(one(UIntCode::Term)))));
}

#[test]
fn the_widest_machine_integers() {
    let mut all_ones = UIntCode::Term;
    for _ in 0..64 {
        all_ones = one(all_ones);
    }
    assert_eq!(gen_uint(u64::MAX), all_ones);
    assert_eq!(tyuint(u64::MAX as u128), all_ones);
    let mut wide = UIntCode::Term;
    for _ in 0..128 {
        wide = one(wide);
    }
    assert_eq!(tyuint(u128::MAX), wide);
    assert_eq!(gen_uint(1 << 63).to_u64(), 1 << 63);
}

#[test]
fn signed_values_from_machine_integers() {
    assert_eq!(gen_int(0), IntCode::Zero);
    assert_eq!(gen_int(5), IntCode::Pos(Box::new(gen_uint(5))));
    assert_eq!(gen_int(-5), IntCode::Neg(Box::new(gen_uint(5))));
    assert_eq!(gen_int(i64::MAX), IntCode::Pos(Box::new(gen_uint(i64::MAX as u64))));
    assert_eq!(gen_int(i64::MIN), IntCode::Neg(Box::new(gen_uint(1 << 63))));
    assert_eq!(gen_int(i64::MIN).to_i64(), i64::MIN);
}

#[test]
fn from_magnitude_collapses_zero() {
    assert_eq!(IntCode::from_magnitude(gen_uint(0), false), IntCode::Zero);
    assert_eq!(IntCode::from_magnitude(gen_uint(0), true), IntCode::Zero);
    assert_eq!(IntCode::from_magnitude(zero(zero(UIntCode::Term)), true), IntCode::Zero);
    assert_eq!(IntCode::from_magnitude(gen_uint(9), false), gen_int(9));
    assert_eq!(IntCode::from_magnitude(gen_uint(9), true), gen_int(-9));
    // A magnitude with redundant zeros is trimmed on the way in.
    assert_eq!(IntCode::from_magnitude(one(zero(UIntCode::Term)), true), gen_int(-1));
}

#[test]
fn well_formedness_is_decidable() {
    assert!(gen_uint(12).is_canonical());
    assert!(UIntCode::Term.is_canonical());
    assert!(!zero(UIntCode::Term).is_canonical());
    assert!(!one(zero(UIntCode::Term)).is_canonical());
    assert!(gen_int(-12).is_wf());
    assert!(IntCode::Zero.is_wf());
    assert!(!IntCode::Pos(Box::new(UIntCode::Term)).is_wf());
    assert!(!IntCode::Neg(Box::new(zero(UIntCode::Term))).is_wf());
}

#[test]
fn round_trips_through_every_unsigned_width() {
    for n in [0u64, 1, 2, 5, 100, 127, 128, 200, 255] {
        assert_eq!(gen_uint(n).to_u8() as u64, n);
    }
    for n in [0u64, 255, 256, 40000, 65535] {
        assert_eq!(gen_uint(n).to_u16() as u64, n);
    }
    for n in [0u64, 65536, 4294967295] {
        assert_eq!(gen_uint(n).to_u32() as u64, n);
        assert_eq!(gen_uint(n).to_usize() as u64, n);
    }
    for n in [0u64, 4294967296, u64::MAX, 1 << 63, 1234567890123456789] {
        assert_eq!(gen_uint(n).to_u64(), n);
    }
}

#[test]
fn round_trips_through_every_signed_width() {
    for n in [0i64, 1, 5, 100, 127] {
        assert_eq!(gen_uint(n as u64).to_i8() as i64, n);
        assert_eq!(gen_int(n).to_i8() as i64, n);
        assert_eq!(gen_int(-n).to_i8() as i64, -n);
    }
    assert_eq!(gen_int(-128).to_i8(), -128);
    assert_eq!(gen_int(-32768).to_i16(), -32768);
    assert_eq!(gen_int(32767).to_i16(), 32767);
    assert_eq!(gen_uint(32767).to_i16(), 32767);
    assert_eq!(gen_int(-2147483648).to_i32(), -2147483648);
    assert_eq!(gen_int(2147483647).to_i32(), 2147483647);
    assert_eq!(gen_uint(2147483647).to_i32(), 2147483647);
    assert_eq!(gen_int(i64::MAX).to_i64(), i64::MAX);
    assert_eq!(gen_uint(i64::MAX as u64).to_i64(), i64::MAX);
    assert_eq!(gen_int(-4).to_isize(), -4);
    assert_eq!(gen_int(-2147483648).to_isize(), -2147483648);
    assert_eq!(gen_uint(77).to_isize(), 77);
}

#[test]
fn conversions_drop_high_order_bits() {
    // 300 is 256 + 44.
    assert_eq!(gen_uint(300).to_u8(), 44);
    assert_eq!(gen_uint(300).to_i8(), 44);
    // 200 read as two's complement in eight bits.
    assert_eq!(gen_uint(200).to_i8(), -56);
    assert_eq!(gen_uint(128).to_i8(), -128);
    assert_eq!(gen_uint(65536 + 7).to_u16(), 7);
    assert_eq!(gen_uint(65535).to_i16(), -1);
    assert_eq!(gen_uint((1 << 32) + 9).to_u32(), 9);
    assert_eq!(gen_uint(u64::MAX).to_i64(), -1);
    assert_eq!(gen_uint(u64::MAX).to_i32(), -1);
    assert_eq!(tyuint((1u128 << 64) + 5).to_u64(), 5);
    assert_eq!(tyuint((1u128 << 64) + 5).to_usize(), 5);
    assert_eq!(tyuint(u128::MAX).to_isize(), -1);
    assert_eq!(gen_int(-300).to_i8(), -44);
    assert_eq!(gen_int(-200).to_i8(), 56);
    assert_eq!(gen_int(-129).to_i8(), 127);
    assert_eq!(gen_int(128).to_i8(), -128);
    assert_eq!(gen_int(-65537).to_i16(), -1);
    assert_eq!(tyint(true, 1u128 << 64).to_i64(), 0);
    assert_eq!(tyint(true, (1u128 << 64) + 1).to_isize(), -1);
}

#[test]
fn written_forms() {
    assert_eq!(gen_uint(0).to_string(), "UTerm");
    assert_eq!(gen_uint(1).to_string(), "UInt<UTerm, B1>");
    assert_eq!(gen_uint(6).to_string(), "UInt<UInt<UInt<UTerm, B1>, B1>, B0>");
    assert_eq!(gen_int(0).to_string(), "Z0");
    assert_eq!(gen_int(2).to_string(), "PInt<UInt<UInt<UTerm, B1>, B0>>");
    assert_eq!(gen_int(-1).to_string(), "NInt<UInt<UTerm, B1>>");
}

#[test]
fn clones_are_equal() {
    let n = gen_uint(123456789);
    assert_eq!(n.clone(), n);
    let i = gen_int(-123456789);
    assert_eq!(i.clone(), i);
}

#[test]
fn digits_and_splitting() {
    assert_eq!(UIntCode::digit(BitCode::B0, gen_uint(3)), gen_uint(6));
    assert_eq!(UIntCode::digit(BitCode::B1, gen_uint(3)), gen_uint(7));
    assert_eq!(gen_uint(6).split(), Some((BitCode::B0, &gen_uint(3))));
    assert_eq!(gen_uint(7).split(), Some((BitCode::B1, &gen_uint(3))));
    assert_eq!(gen_uint(0).split(), None);
    assert_eq!(UIntCode::zero(), gen_uint(0));
    assert_eq!(UIntCode::one(), gen_uint(1));
}
