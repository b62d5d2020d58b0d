use exactnum::integer::{gen_int, IntCode};
use exactnum::marker_traits::Integer;
use exactnum::type_operators::Cmp;
use exactnum::uint::gen_uint;
use exactnum::{ArithmeticError, ComparisonResult};

#[test]
fn signed_negation() {
    assert_eq!(gen_int(3).neg(), gen_int(-3));
    assert_eq!(gen_int(-3).neg(), gen_int(3));
    assert_eq!(gen_int(0).neg(), gen_int(0));
    assert_eq!(IntCode::Zero.neg(), IntCode::Zero);
    for i in [-7i64, -1, 0, 1, 7, i64::MAX, i64::MIN] {
        assert_eq!(gen_int(i).neg().neg(), gen_int(i));
    }
}

#[test]
fn signed_addition() {
    assert_eq!(gen_int(7).add(&gen_int(2)), gen_int(9));
    assert_eq!(gen_int(-7).add(&gen_int(-2)), gen_int(-9));
    assert_eq!(gen_int(7).add(&gen_int(-2)), gen_int(5));
    assert_eq!(gen_int(2).add(&gen_int(-7)), gen_int(-5));
    assert_eq!(gen_int(-7).add(&gen_int(2)), gen_int(-5));
    assert_eq!(gen_int(-2).add(&gen_int(7)), gen_int(5));
    assert_eq!(gen_int(7).add(&gen_int(-7)), IntCode::Zero);
    assert_eq!(gen_int(-7).add(&gen_int(7)), IntCode::Zero);
    assert_eq!(gen_int(0).add(&gen_int(-7)), gen_int(-7));
    assert_eq!(gen_int(7).add(&gen_int(0)), gen_int(7));
    assert_eq!(gen_int(0).add(&gen_int(0)), IntCode::Zero);
}

#[test]
fn signed_subtraction() {
    assert_eq!(gen_int(2).sub(&gen_int(3)), gen_int(-1));
    assert_eq!(gen_int(3).sub(&gen_int(2)), gen_int(1));
    assert_eq!(gen_int(3).sub(&gen_int(3)), IntCode::Zero);
    assert_eq!(gen_int(-3).sub(&gen_int(-3)), IntCode::Zero);
    assert_eq!(gen_int(3).sub(&gen_int(-2)), gen_int(5));
    assert_eq!(gen_int(-3).sub(&gen_int(2)), gen_int(-5));
    assert_eq!(gen_int(-3).sub(&gen_int(-5)), gen_int(2));
    assert_eq!(gen_int(0).sub(&gen_int(5)), gen_int(-5));
    assert_eq!(gen_int(0).sub(&gen_int(-5)), gen_int(5));
    assert_eq!(gen_int(5).sub(&gen_int(0)), gen_int(5));
    assert_eq!(gen_int(0).sub(&gen_int(0)), IntCode::Zero);
    assert_eq!(IntCode::private_integer_add(&gen_uint(8), &gen_uint(5)), gen_int(3));
    assert_eq!(IntCode::private_integer_add(&gen_uint(5), &gen_uint(8)), gen_int(-3));
    assert_eq!(IntCode::private_integer_add(&gen_uint(5), &gen_uint(5)), IntCode::Zero);
}

#[test]
fn signed_multiplication() {
    assert_eq!(gen_int(3).mul(&gen_int(2)), gen_int(6));
    assert_eq!(gen_int(-3).mul(&gen_int(-2)), gen_int(6));
    assert_eq!(gen_int(3).mul(&gen_int(-2)), gen_int(-6));
    assert_eq!(gen_int(-3).mul(&gen_int(2)), gen_int(-6));
    assert_eq!(gen_int(0).mul(&gen_int(-2)), IntCode::Zero);
    assert_eq!(gen_int(-3).mul(&gen_int(0)), IntCode::Zero);
    assert_eq!(gen_int(0).mul(&gen_int(0)), IntCode::Zero);
}

#[test]
fn division_rounds_towards_zero() {
    assert_eq!(gen_int(6).div(&gen_int(2)), Ok(gen_int(3)));
    assert_eq!(gen_int(7).div(&gen_int(2)), Ok(gen_int(3)));
    assert_eq!(gen_int(-7).div(&gen_int(2)), Ok(gen_int(-3)));
    assert_eq!(gen_int(7).div(&gen_int(-2)), Ok(gen_int(-3)));
    assert_eq!(gen_int(-7).div(&gen_int(-2)), Ok(gen_int(3)));
    assert_eq!(gen_int(2).div(&gen_int(7)), Ok(IntCode::Zero));
    assert_eq!(gen_int(-2).div(&gen_int(7)), Ok(IntCode::Zero));
    assert_eq!(gen_int(7).div(&gen_int(7)), Ok(gen_int(1)));
    assert_eq!(gen_int(-7).div(&gen_int(7)), Ok(gen_int(-1)));
    assert_eq!(gen_int(0).div(&gen_int(-7)), Ok(IntCode::Zero));
    assert_eq!(gen_int(7).div(&gen_int(0)), Err(ArithmeticError::DivisionByZero));
    assert_eq!(gen_int(0).div(&gen_int(0)), Err(ArithmeticError::DivisionByZero));
}

#[test]
fn the_remainder_has_the_sign_of_the_numerator() {
    assert_eq!(gen_int(5).rem(&gen_int(3)), Ok(gen_int(2)));
    assert_eq!(gen_int(5).rem(&gen_int(-3)), Ok(gen_int(2)));
    assert_eq!(gen_int(-5).rem(&gen_int(3)), Ok(gen_int(-2)));
    assert_eq!(gen_int(-5).rem(&gen_int(-3)), Ok(gen_int(-2)));
    assert_eq!(gen_int(6).rem(&gen_int(3)), Ok(IntCode::Zero));
    assert_eq!(gen_int(-6).rem(&gen_int(3)), Ok(IntCode::Zero));
    assert_eq!(gen_int(0).rem(&gen_int(3)), Ok(IntCode::Zero));
    assert_eq!(gen_int(5).rem(&gen_int(0)), Err(ArithmeticError::DivisionByZero));
    assert_eq!(gen_int(0).rem(&gen_int(0)), Err(ArithmeticError::DivisionByZero));
}

#[test]
fn signed_arithmetic_matches_machine_arithmetic() {
    for a in -9i64..10 {
        for b in -9i64..10 {
            assert_eq!(gen_int(a).add(&gen_int(b)), gen_int(a + b));
            assert_eq!(gen_int(a).sub(&gen_int(b)), gen_int(a - b));
            assert_eq!(gen_int(a).mul(&gen_int(b)), gen_int(a * b));
            assert_eq!(gen_int(a).compare(&gen_int(b)).to_ordering(), a.cmp(&b));
            if b != 0 {
                assert_eq!(gen_int(a).div(&gen_int(b)), Ok(gen_int(a / b)));
                assert_eq!(gen_int(a).rem(&gen_int(b)), Ok(gen_int(a % b)));
                let q = gen_int(a).div(&gen_int(b)).unwrap();
                let r = gen_int(a).rem(&gen_int(b)).unwrap();
                assert_eq!(q.mul(&gen_int(b)).add(&r), gen_int(a));
            }
        }
    }
}

#[test]
fn signed_comparison() {
    assert_eq!(gen_int(2).compare(&gen_int(-3)), ComparisonResult::Greater);
    assert_eq!(gen_int(2).compare(&gen_int(2)), ComparisonResult::Equal);
    assert_eq!(gen_int(2).compare(&gen_int(5)), ComparisonResult::Less);
    assert_eq!(gen_int(-2).compare(&gen_int(-5)), ComparisonResult::Greater);
    assert_eq!(gen_int(-5).compare(&gen_int(-2)), ComparisonResult::Less);
    assert_eq!(gen_int(-5).compare(&gen_int(-5)), ComparisonResult::Equal);
    assert_eq!(gen_int(0).compare(&gen_int(0)), ComparisonResult::Equal);
    assert_eq!(gen_int(0).compare(&gen_int(1)), ComparisonResult::Less);
    assert_eq!(gen_int(0).compare(&gen_int(-1)), ComparisonResult::Greater);
    assert_eq!(gen_int(1).compare(&gen_int(0)), ComparisonResult::Greater);
    assert_eq!(gen_int(-1).compare(&gen_int(0)), ComparisonResult::Less);
    assert_eq!(gen_int(-1).compare(&gen_int(1)), ComparisonResult::Less);
}

#[test]
fn signed_conversions() {
    assert_eq!(gen_int(-4).to_i32(), -4);
    assert_eq!(gen_int(-42).to_i8(), -42);
    assert_eq!(gen_int(3).to_i16(), 3);
    assert_eq!(gen_int(0).to_i64(), 0);
    assert_eq!(gen_int(0).to_isize(), 0);
    assert_eq!(gen_int(7).add(&gen_int(2)).to_i64(), 9);
    assert_eq!(gen_int(3).neg().to_i64(), -3);
}
