use rust_bignum::buffer::bytes_to_bigint;
use rust_bignum::integer::BigInteger;
use rust_bignum::integer_ops::bigint_from_str;
use rust_bignum::integer_ops::bigint_to_string_bytes;
use rust_bignum::rounding::apply_rounding_mode;
use rust_bignum::rounding::divide_rounded;
use rust_bignum::rounding::RoundingMode;

const MODES: [RoundingMode; 7] = [
    RoundingMode::Up,
    RoundingMode::Down,
    RoundingMode::Ceiling,
    RoundingMode::Floor,
    RoundingMode::HalfUp,
    RoundingMode::HalfDown,
    RoundingMode::HalfEven,
];

fn big(v: i64) -> BigInteger {
    bigint_from_str(&v.to_string()).unwrap()
}

fn value(n: &BigInteger) -> i64 {
    bigint_to_string_bytes(&n.bytes).parse().unwrap()
}

fn round(dividend: i64, divisor: i64, mode: RoundingMode) -> i64 {
    let quotient = dividend / divisor;
    let remainder = dividend % divisor;
    value(&apply_rounding_mode(
        &big(dividend),
        big(quotient),
        &big(remainder),
        &big(divisor),
        mode,
    ))
}

#[test]
fn codes_stand_for_modes() {
    for (code, mode) in MODES.iter().enumerate() {
        assert_eq!(RoundingMode::from_code(code as i32), *mode);
        assert_eq!(mode.code(), code as i32);
    }
}

#[test]
fn other_codes_mean_down() {
    for code in [-1, 7, 8, 100, i32::MIN, i32::MAX] {
        assert_eq!(RoundingMode::from_code(code), RoundingMode::Down);
    }
}

#[test]
fn up_moves_away_from_zero() {
    assert_eq!(round(31, 10, RoundingMode::Up), 4);
    assert_eq!(round(-31, 10, RoundingMode::Up), -4);
    assert_eq!(round(1, 10, RoundingMode::Up), 1);
    assert_eq!(round(-1, 10, RoundingMode::Up), -1);
}

#[test]
fn down_keeps_the_quotient() {
    assert_eq!(round(39, 10, RoundingMode::Down), 3);
    assert_eq!(round(-39, 10, RoundingMode::Down), -3);
}

#[test]
fn ceiling_moves_toward_positive_infinity() {
    assert_eq!(round(31, 10, RoundingMode::Ceiling), 4);
    assert_eq!(round(-39, 10, RoundingMode::Ceiling), -3);
}

#[test]
fn floor_moves_toward_negative_infinity() {
    assert_eq!(round(39, 10, RoundingMode::Floor), 3);
    assert_eq!(round(-31, 10, RoundingMode::Floor), -4);
}

#[test]
fn half_up_rounds_a_tie_away_from_zero() {
    assert_eq!(round(25, 10, RoundingMode::HalfUp), 3);
    assert_eq!(round(-25, 10, RoundingMode::HalfUp), -3);
    assert_eq!(round(24, 10, RoundingMode::HalfUp), 2);
    assert_eq!(round(26, 10, RoundingMode::HalfUp), 3);
}

#[test]
fn half_down_rounds_a_tie_toward_zero() {
    assert_eq!(round(25, 10, RoundingMode::HalfDown), 2);
    assert_eq!(round(-25, 10, RoundingMode::HalfDown), -2);
    assert_eq!(round(26, 10, RoundingMode::HalfDown), 3);
    assert_eq!(round(-26, 10, RoundingMode::HalfDown), -3);
}

#[test]
fn half_even_rounds_a_tie_to_the_even_neighbour() {
    assert_eq!(round(25, 10, RoundingMode::HalfEven), 2);
    assert_eq!(round(35, 10, RoundingMode::HalfEven), 4);
    assert_eq!(round(-25, 10, RoundingMode::HalfEven), -2);
    assert_eq!(round(-35, 10, RoundingMode::HalfEven), -4);
    assert_eq!(round(5, 10, RoundingMode::HalfEven), 0);
    assert_eq!(round(15, 10, RoundingMode::HalfEven), 2);
    assert_eq!(round(26, 10, RoundingMode::HalfEven), 3);
    assert_eq!(round(24, 10, RoundingMode::HalfEven), 2);
}

#[test]
fn half_even_tie_is_always_even() {
    for dividend in [-95i64, -85, -15, -5, 5, 15, 25, 35, 45, 995] {
        assert_eq!(round(dividend, 10, RoundingMode::HalfEven) % 2, 0);
    }
}

#[test]
fn half_modes_compare_twice_the_remainder_with_the_divisor() {
    assert_eq!(round(7, 3, RoundingMode::HalfUp), 2);
    assert_eq!(round(8, 3, RoundingMode::HalfUp), 3);
    assert_eq!(round(7, 3, RoundingMode::HalfDown), 2);
    assert_eq!(round(8, 3, RoundingMode::HalfDown), 3);
    assert_eq!(round(7, 3, RoundingMode::HalfEven), 2);
    assert_eq!(round(8, 3, RoundingMode::HalfEven), 3);
    assert_eq!(round(-7, 3, RoundingMode::HalfUp), -2);
    assert_eq!(round(-8, 3, RoundingMode::HalfUp), -3);
}

#[test]
fn the_sign_is_that_of_the_value_divided() {
    let r = apply_rounding_mode(
        &big(-5),
        big(0),
        &big(-5),
        &big(10),
        RoundingMode::HalfUp,
    );
    assert_eq!(value(&r), -1);
    let r = apply_rounding_mode(&big(-1), big(0), &big(-1), &big(10), RoundingMode::Floor);
    assert_eq!(value(&r), -1);
    let r = apply_rounding_mode(&big(-1), big(0), &big(-1), &big(10), RoundingMode::Ceiling);
    assert_eq!(value(&r), 0);
}

#[test]
fn divide_rounded_divides_and_rounds() {
    let expected: [(RoundingMode, i64, i64); 7] = [
        (RoundingMode::Up, 4, -4),
        (RoundingMode::Down, 3, -3),
        (RoundingMode::Ceiling, 4, -3),
        (RoundingMode::Floor, 3, -4),
        (RoundingMode::HalfUp, 4, -4),
        (RoundingMode::HalfDown, 3, -3),
        (RoundingMode::HalfEven, 4, -4),
    ];
    for (mode, positive, negative) in expected {
        assert_eq!(value(&divide_rounded(&big(7), &big(2), mode)), positive);
        assert_eq!(value(&divide_rounded(&big(-7), &big(2), mode)), negative);
    }
}

#[test]
fn divide_rounded_leaves_an_exact_quotient() {
    for mode in MODES {
        assert_eq!(value(&divide_rounded(&big(-30), &big(10), mode)), -3);
        assert_eq!(value(&divide_rounded(&big(0), &big(7), mode)), 0);
    }
}

#[test]
fn rounding_works_on_large_values() {
    let dividend = bigint_from_str("123456789012345678901234567895").unwrap();
    let r = divide_rounded(&dividend, &big(10), RoundingMode::HalfEven);
    assert_eq!(
        bigint_to_string_bytes(&r.bytes),
        "12345678901234567890123456790"
    );
    let r = divide_rounded(&dividend, &bytes_to_bigint(&[0x0a]), RoundingMode::HalfDown);
    assert_eq!(
        bigint_to_string_bytes(&r.bytes),
        "12345678901234567890123456789"
    );
}
