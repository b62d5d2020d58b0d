use exactnum::array::TArr;
use exactnum::integer::{gen_int, IntCode};
use exactnum::type_operators::Len;
use exactnum::uint::gen_uint;
use exactnum::ArithmeticError;

fn array(values: &[i64]) -> TArr {
    TArr { items: values.iter().map(|v| gen_int(*v)).collect() }
}

#[test]
fn arrays_add_item_by_item() {
    assert_eq!(array(&[3, -4, 0, 38]).add(&array(&[1, 4, -5, 2])), Ok(array(&[4, 0, -5, 40])));
    assert_eq!(array(&[]).add(&array(&[])), Ok(array(&[])));
    assert_eq!(TArr::new().add(&TArr::new()), Ok(TArr::new()));
}

#[test]
fn arrays_subtract_item_by_item() {
    assert_eq!(array(&[3, -4, 0, 38]).sub(&array(&[1, 4, -5, 38])), Ok(array(&[2, -8, 5, 0])));
    assert_eq!(array(&[]).sub(&array(&[])), Ok(array(&[])));
}

#[test]
fn arrays_of_different_lengths_do_not_combine() {
    assert_eq!(array(&[1, 2]).add(&array(&[1])), Err(ArithmeticError::LengthMismatch));
    assert_eq!(array(&[1]).add(&array(&[1, 2])), Err(ArithmeticError::LengthMismatch));
    assert_eq!(array(&[]).add(&array(&[0])), Err(ArithmeticError::LengthMismatch));
    assert_eq!(array(&[1, 2]).sub(&array(&[1])), Err(ArithmeticError::LengthMismatch));
    assert_eq!(array(&[]).sub(&array(&[0])), Err(ArithmeticError::LengthMismatch));
}

#[test]
fn arrays_scale() {
    assert_eq!(array(&[3, -4, 0]).mul(&gen_int(-2)), array(&[-6, 8, 0]));
    assert_eq!(array(&[3, -4, 0]).mul(&gen_int(0)), array(&[0, 0, 0]));
    assert_eq!(array(&[]).mul(&gen_int(5)), array(&[]));
    assert_eq!(gen_int(-2).mul_each(&array(&[3, -4, 0])), array(&[-6, 8, 0]));
    assert_eq!(IntCode::Zero.mul_each(&array(&[3, -4])), array(&[0, 0]));
}

#[test]
fn arrays_divide_by_a_scalar() {
    assert_eq!(array(&[6, -7, 0, 1]).div(&gen_int(2)), Ok(array(&[3, -3, 0, 0])));
    assert_eq!(array(&[6, -7]).div(&gen_int(-2)), Ok(array(&[-3, 3])));
    assert_eq!(array(&[6, -7]).div(&gen_int(0)), Err(ArithmeticError::DivisionByZero));
    // Nothing is divided where there is no item.
    assert_eq!(array(&[]).div(&gen_int(0)), Ok(array(&[])));
}

#[test]
fn a_scalar_divides_by_each_item() {
    assert_eq!(gen_int(12).div_each(&array(&[3, -4, 5, 13])), Ok(array(&[4, -3, 2, 0])));
    assert_eq!(gen_int(0).div_each(&array(&[3, -4])), Ok(array(&[0, 0])));
    assert_eq!(gen_int(12).div_each(&array(&[3, 0])), Err(ArithmeticError::DivisionByZero));
    assert_eq!(gen_int(12).div_each(&array(&[])), Ok(array(&[])));
}

#[test]
fn array_lengths() {
    assert_eq!(array(&[]).len(), gen_uint(0));
    assert_eq!(array(&[7]).len(), gen_uint(1));
    assert_eq!(array(&[3, -4, 0, 38]).len(), gen_uint(4));
}
