use exactnum::private::{
    Invert, InvertedUInt, InvertedUnsigned, PrivateAnd, PrivateInvert, PrivateSub, PrivateXor,
    Trim, TrimTrailingZeros,
};
use exactnum::marker_traits::Unsigned;
use exactnum::uint::{gen_uint, UIntCode};

#[test]
fn test_inversion() {
    let test4 = gen_uint(4).invert();
    let test5 = gen_uint(5).invert();
    let test12 = gen_uint(12).invert();
    let test16 = gen_uint(16).invert();

    assert_eq!(1, test4.to_int());
    assert_eq!(5, test5.to_int());
    assert_eq!(3, test12.to_int());
    assert_eq!(1, test16.to_int());
}

#[test]
fn test_double_inversion() {
    let test4 = gen_uint(4).invert().invert();
    let test5 = gen_uint(5).invert().invert();
    let test12 = gen_uint(12).invert().invert();
    let test16 = gen_uint(16).invert().invert();

    assert_eq!(4, test4.to_u64());
    assert_eq!(5, test5.to_u64());
    assert_eq!(12, test12.to_u64());
    assert_eq!(16, test16.to_u64());
}

fn zero(rest: UIntCode) -> UIntCode {
    UIntCode::Zero(Box::new(rest))
}

fn one(rest: UIntCode) -> UIntCode {
    UIntCode::One(Box::new(rest))
}

#[test]
fn inversion_reverses_the_digits() {
    // 6 is 110: outermost 0, then 1, then 1.
    let six = gen_uint(6);
    assert_eq!(six, zero(one(one(UIntCode::Term))));
    let inverted = six.invert();
    assert_eq!(inverted, InvertedUInt { code: one(one(zero(UIntCode::Term))) });
    assert_eq!(gen_uint(0).invert(), InvertedUInt { code: UIntCode::Term });
}

#[test]
fn private_invert_moves_digits_onto_what_is_there() {
    let so_far = InvertedUInt { code: one(UIntCode::Term) };
    let moved = gen_uint(2).private_invert(so_far);
    // 2 is 0 then 1; moved outermost first onto [1] this gives 1, 0, 1.
    assert_eq!(moved, InvertedUInt { code: one(zero(one(UIntCode::Term))) });
    let back = moved.private_invert(UIntCode::Term);
    assert_eq!(back, one(zero(one(UIntCode::Term))));
}

#[test]
fn trailing_zeros_are_dropped_until_a_one() {
    let padded = InvertedUInt { code: zero(zero(one(zero(UIntCode::Term)))) };
    assert_eq!(
        padded.trim_trailing_zeros(),
        InvertedUInt { code: one(zero(UIntCode::Term)) }
    );
    let all_zero = InvertedUInt { code: zero(zero(UIntCode::Term)) };
    assert_eq!(all_zero.trim_trailing_zeros(), InvertedUInt { code: UIntCode::Term });
}

#[test]
fn trim_removes_high_order_zeros() {
    // 5 with two redundant zeros above it.
    let padded = one(zero(one(zero(zero(UIntCode::Term)))));
    assert!(!padded.is_canonical());
    let trimmed = padded.trim();
    assert_eq!(trimmed, gen_uint(5));
    assert!(trimmed.is_canonical());
    assert_eq!(trimmed.trim(), gen_uint(5));
    assert_eq!(zero(zero(UIntCode::Term)).trim(), UIntCode::Term);
    assert_eq!(UIntCode::Term.trim(), UIntCode::Term);
}

#[test]
fn private_sub_keeps_the_length() {
    // 8 - 5 = 3, in the four digits of 8.
    let d = gen_uint(8).private_sub(&gen_uint(5));
    assert_eq!(d, Some(one(one(zero(zero(UIntCode::Term))))));
    assert_eq!(gen_uint(5).private_sub(&gen_uint(8)), None);
    assert_eq!(gen_uint(7).private_sub(&gen_uint(7)), Some(zero(zero(zero(UIntCode::Term)))));
    assert_eq!(gen_uint(0).private_sub(&gen_uint(0)), Some(UIntCode::Term));
    assert_eq!(gen_uint(0).private_sub(&gen_uint(1)), None);
}

#[test]
fn private_and_has_the_shorter_length() {
    // 12 & 5 = 4, in the three digits of 5.
    assert_eq!(gen_uint(12).private_and(&gen_uint(5)), zero(zero(one(UIntCode::Term))));
    // 8 & 7 = 0, in three digits.
    assert_eq!(gen_uint(8).private_and(&gen_uint(7)), zero(zero(zero(UIntCode::Term))));
    assert_eq!(gen_uint(9).private_and(&gen_uint(0)), UIntCode::Term);
}

#[test]
fn private_xor_has_the_longer_length() {
    // 12 ^ 13 = 1, in four digits.
    assert_eq!(
        gen_uint(12).private_xor(&gen_uint(13)),
        one(zero(zero(zero(UIntCode::Term))))
    );
    assert_eq!(gen_uint(0).private_xor(&gen_uint(6)), gen_uint(6));
    assert_eq!(gen_uint(6).private_xor(&gen_uint(0)), gen_uint(6));
}
