use exactnum::integer::{gen_int, IntCode};
use exactnum::type_operators::Pow;
use exactnum::uint::{gen_uint, UIntCode};
use exactnum::ArithmeticError;

#[test]
fn pow_test() {
    let z0 = gen_int(0);
    let p3 = gen_int(3);

    let u0 = gen_uint(0);
    let u3 = gen_uint(3);

    for x in &[0i8, -3, 2] {
        assert_eq!(x.powi(&z0), 1);
        assert_eq!(x.powi(&u0), 1);

        assert_eq!(x.powi(&p3), x * x * x);
        assert_eq!(x.powi(&u3), x * x * x);
    }
    for x in &[0u8, 1, 5] {
        assert_eq!(x.powi(&z0), 1);
        assert_eq!(x.powi(&u0), 1);

        assert_eq!(x.powi(&p3), x * x * x);
        assert_eq!(x.powi(&u3), x * x * x);
    }
    for x in &[0usize, 1, 5, 40] {
        assert_eq!(x.powi(&z0), 1);
        assert_eq!(x.powi(&u0), 1);

        assert_eq!(x.powi(&p3), x * x * x);
        assert_eq!(x.powi(&u3), x * x * x);
    }
    for x in &[0isize, 1, 2, -30, -22, 48] {
        assert_eq!(x.powi(&z0), 1);
        assert_eq!(x.powi(&u0), 1);

        assert_eq!(x.powi(&p3), x * x * x);
        assert_eq!(x.powi(&u3), x * x * x);
    }
}

#[test]
fn machine_powers_of_every_width() {
    let n = gen_uint(5);
    assert_eq!(3u8.powi(&n), 243);
    assert_eq!(3u16.powi(&n), 243);
    assert_eq!(3u32.powi(&n), 243);
    assert_eq!(3u64.powi(&n), 243);
    assert_eq!(3usize.powi(&n), 243);
    assert_eq!((-2i8).powi(&n), -32);
    assert_eq!((-3i16).powi(&n), -243);
    assert_eq!((-3i32).powi(&n), -243);
    assert_eq!((-3i64).powi(&n), -243);
    assert_eq!((-3isize).powi(&n), -243);
    let p = gen_int(4);
    assert_eq!(3u8.powi(&p), 81);
    assert_eq!(3u16.powi(&p), 81);
    assert_eq!(3u32.powi(&p), 81);
    assert_eq!(3u64.powi(&p), 81);
    assert_eq!(3usize.powi(&p), 81);
    assert_eq!((-3i8).powi(&p), 81);
    assert_eq!((-3i16).powi(&p), 81);
    assert_eq!((-3i32).powi(&p), 81);
    assert_eq!((-3i64).powi(&p), 81);
    assert_eq!((-3isize).powi(&p), 81);
}

#[test]
fn machine_powers_at_the_edges() {
    // The lowest value of a signed type is reached without overflow on the way.
    assert_eq!((-2i8).powi(&gen_uint(7)), i8::MIN);
    assert_eq!((-2i64).powi(&gen_uint(63)), i64::MIN);
    assert_eq!(2u64.powi(&gen_uint(63)), 1u64 << 63);
    // Bases of absolute value at most one never overflow, however large the exponent.
    let huge = gen_uint(4000000001);
    assert_eq!(1u8.powi(&huge), 1);
    assert_eq!(0u8.powi(&huge), 0);
    assert_eq!((-1i8).powi(&huge), -1);
    assert_eq!((-1i8).powi(&gen_uint(4000000000)), 1);
    assert_eq!(0i32.powi(&gen_uint(0)), 1);
}

#[test]
fn machine_exponents_keep_their_low_32_bits() {
    // 2^32 + 3 counts as 3.
    let wide = gen_uint((1u64 << 32) + 3);
    assert_eq!(5u32.powi(&wide), 125);
    assert_eq!(5i64.powi(&gen_int((1i64 << 32) + 2)), 25);
}

#[test]
fn unsigned_powers() {
    assert_eq!(gen_uint(2).pow(&gen_uint(10)), gen_uint(1024));
    assert_eq!(gen_uint(3).pow(&gen_uint(4)), gen_uint(81));
    assert_eq!(gen_uint(7).pow(&gen_uint(1)), gen_uint(7));
    assert_eq!(gen_uint(7).pow(&gen_uint(0)), gen_uint(1));
    assert_eq!(gen_uint(0).pow(&gen_uint(0)), gen_uint(1));
    assert_eq!(gen_uint(0).pow(&gen_uint(5)), gen_uint(0));
    assert_eq!(gen_uint(1).pow(&gen_uint(1000)), gen_uint(1));
    assert_eq!(gen_uint(10).pow(&gen_uint(19)), gen_uint(10_000_000_000_000_000_000));
    assert_eq!(gen_uint(2).powi(&gen_uint(10)), gen_uint(1024));
}

#[test]
fn unsigned_powers_beyond_machine_integers() {
    // 2^100 has a one above a hundred zeros.
    let big = gen_uint(2).pow(&gen_uint(100));
    let mut expected = UIntCode::One(Box::new(UIntCode::Term));
    for _ in 0..100 {
        expected = UIntCode::Zero(Box::new(expected));
    }
    assert_eq!(big, expected);
}

#[test]
fn private_pow_multiplies_into_the_accumulator() {
    let r = UIntCode::private_pow(&gen_uint(3), gen_uint(5), &gen_uint(2));
    assert_eq!(r, gen_uint(45));
    let r = UIntCode::private_pow(&gen_uint(3), gen_uint(5), &gen_uint(0));
    assert_eq!(r, gen_uint(5));
}

#[test]
fn signed_powers() {
    assert_eq!(gen_int(2).pow(&gen_int(10)), Ok(gen_int(1024)));
    assert_eq!(gen_int(-3).pow(&gen_int(3)), Ok(gen_int(-27)));
    assert_eq!(gen_int(-3).pow(&gen_int(2)), Ok(gen_int(9)));
    assert_eq!(gen_int(-3).pow(&gen_int(1)), Ok(gen_int(-3)));
    assert_eq!(gen_int(5).pow(&gen_int(0)), Ok(gen_int(1)));
    assert_eq!(gen_int(-5).pow(&gen_int(0)), Ok(gen_int(1)));
    assert_eq!(gen_int(0).pow(&gen_int(0)), Ok(gen_int(1)));
    assert_eq!(gen_int(0).pow(&gen_int(4)), Ok(IntCode::Zero));
    assert_eq!(gen_int(-3).powi(&gen_int(3)), Ok(gen_int(-27)));
}

#[test]
fn signed_powers_with_negative_exponents() {
    assert_eq!(gen_int(0).pow(&gen_int(-4)), Ok(IntCode::Zero));
    assert_eq!(gen_int(1).pow(&gen_int(-4)), Ok(gen_int(1)));
    assert_eq!(gen_int(-1).pow(&gen_int(-4)), Ok(gen_int(1)));
    assert_eq!(gen_int(-1).pow(&gen_int(-3)), Ok(gen_int(-1)));
    assert_eq!(gen_int(2).pow(&gen_int(-1)), Err(ArithmeticError::NegativeExponent));
    assert_eq!(gen_int(-2).pow(&gen_int(-2)), Err(ArithmeticError::NegativeExponent));
    assert_eq!(gen_int(3).pow(&gen_int(-2)), Err(ArithmeticError::NegativeExponent));
    assert_eq!(gen_int(-3).pow(&gen_int(-1)), Err(ArithmeticError::NegativeExponent));
}
