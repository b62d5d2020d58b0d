use exactnum::bit::BitCode;
use exactnum::marker_traits::Bit;
use exactnum::type_operators::Cmp;
use exactnum::ComparisonResult;

use exactnum::bit::BitCode::{B0, B1};

#[test]
fn bit_operations() {
    assert_eq!(B1.to_u8(), B0.not().to_u8());
    assert_eq!(B0.to_u8(), B1.not().to_u8());

    assert_eq!(B0.to_u8(), B0.bitand(B0).to_u8());
    assert_eq!(B0.to_u8(), B0.bitand(B1).to_u8());
    assert_eq!(B0.to_u8(), B1.bitand(B0).to_u8());
    assert_eq!(B1.to_u8(), B1.bitand(B1).to_u8());

    assert_eq!(B0.to_u8(), B0.bitor(B0).to_u8());
    assert_eq!(B1.to_u8(), B0.bitor(B1).to_u8());
    assert_eq!(B1.to_u8(), B1.bitor(B0).to_u8());
    assert_eq!(B1.to_u8(), B1.bitor(B1).to_u8());

    assert_eq!(B0.to_u8(), B0.bitxor(B0).to_u8());
    assert_eq!(B1.to_u8(), B0.bitxor(B1).to_u8());
    assert_eq!(B1.to_u8(), B1.bitxor(B0).to_u8());
    assert_eq!(B0.to_u8(), B1.bitxor(B1).to_u8());
}

#[test]
fn bit_operations_give_the_digit_itself() {
    assert_eq!(B0.not(), B1);
    assert_eq!(B1.not(), B0);
    assert_eq!(B1.bitand(B1), B1);
    assert_eq!(B1.bitand(B0), B0);
    assert_eq!(B0.bitor(B0), B0);
    assert_eq!(B0.bitor(B1), B1);
    assert_eq!(B1.bitxor(B1), B0);
    assert_eq!(B0.bitxor(B1), B1);
}

#[test]
fn bit_conversions() {
    assert_eq!(B0.to_u8(), 0);
    assert_eq!(B1.to_u8(), 1);
    assert!(!B0.to_bool());
    assert!(B1.to_bool());
}

#[test]
fn bit_comparison() {
    assert_eq!(B0.compare(&B0), ComparisonResult::Equal);
    assert_eq!(B0.compare(&B1), ComparisonResult::Less);
    assert_eq!(B1.compare(&B0), ComparisonResult::Greater);
    assert_eq!(B1.compare(&B1), ComparisonResult::Equal);
}

#[test]
fn comparison_results_as_orderings() {
    assert_eq!(ComparisonResult::Less.to_ordering(), std::cmp::Ordering::Less);
    assert_eq!(ComparisonResult::Equal.to_ordering(), std::cmp::Ordering::Equal);
    assert_eq!(ComparisonResult::Greater.to_ordering(), std::cmp::Ordering::Greater);
}

#[test]
fn bit_code_is_copied_freely() {
    let b: BitCode = B1;
    let c = b;
    assert_eq!(b, c);
}
