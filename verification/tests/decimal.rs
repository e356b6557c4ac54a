use rust_bignum::buffer::bytes_to_bigint;
use rust_bignum::decimal::fits_scale;
use rust_bignum::decimal::format_decimal;
use rust_bignum::decimal::parse_decimal;
use rust_bignum::decimal::scale_up;
use rust_bignum::decimal::times_power_of_ten;
use rust_bignum::decimal::ScaledInteger;
use rust_bignum::decimal_ops::bigdecimal_abs;
use rust_bignum::decimal_ops::bigdecimal_add;
use rust_bignum::decimal_ops::bigdecimal_compare;
use rust_bignum::decimal_ops::bigdecimal_divide;
use rust_bignum::decimal_ops::bigdecimal_multiply;
use rust_bignum::decimal_ops::bigdecimal_set_scale;
use rust_bignum::decimal_ops::bigdecimal_signum;
use rust_bignum::decimal_ops::bigdecimal_subtract;
use rust_bignum::decimal_ops::bigdecimal_to_biginteger;
use rust_bignum::decimal_ops::rescale;
use rust_bignum::error::BigNumError;
use rust_bignum::integer::BigInteger;
use rust_bignum::integer_ops::bigint_from_str;
use rust_bignum::integer_ops::bigint_to_string_bytes;
use rust_bignum::rounding::RoundingMode;

fn big(text: &str) -> BigInteger {
    bigint_from_str(text).unwrap()
}

fn text(n: &BigInteger) -> String {
    bigint_to_string_bytes(&n.bytes)
}

fn parsed(s: &str) -> (String, i32) {
    let x: ScaledInteger = parse_decimal(s);
    (text(&x.unscaled), x.scale)
}

#[test]
fn parse_reads_digits_and_scale() {
    assert_eq!(parsed("123.456"), ("123456".to_string(), 3));
    assert_eq!(parsed("42"), ("42".to_string(), 0));
    assert_eq!(parsed("0.045"), ("45".to_string(), 3));
    assert_eq!(parsed("-0.5"), ("-5".to_string(), 1));
    assert_eq!(parsed("-12.00"), ("-1200".to_string(), 2));
}

#[test]
fn parse_strips_one_leading_plus() {
    assert_eq!(parsed("+1.5"), ("15".to_string(), 1));
    assert_eq!(parsed("+7"), ("7".to_string(), 0));
    assert_eq!(parsed("+-7"), ("-7".to_string(), 0));
}

#[test]
fn parse_reads_white_space_as_stray() {
    assert_eq!(parsed(" 1.5 "), ("0".to_string(), 2));
    assert_eq!(parsed("  1.5\n"), ("0".to_string(), 2));
    assert_eq!(parsed("1.5 "), ("0".to_string(), 2));
    assert_eq!(parsed(" 1.5"), ("0".to_string(), 1));
    assert_eq!(parsed("\t-3 "), ("0".to_string(), 0));
    assert_eq!(parsed(" +7"), ("0".to_string(), 0));
    assert_eq!(parsed("\u{3000}2.25\u{a0}"), ("0".to_string(), 3));
}

#[test]
fn operations_read_text_with_white_space_as_zero() {
    assert_eq!(bigdecimal_add(" 1.5 ", "2", 0), "2.00");
    assert_eq!(bigdecimal_signum(" -1"), 0);
    assert_eq!(bigdecimal_compare(" 5", "0"), 0);
    assert_eq!(bigdecimal_abs("-1 "), "0");
    assert_eq!(bigdecimal_to_biginteger(" 12.9"), "0");
}

#[test]
fn parse_reads_malformed_text_as_zero() {
    assert_eq!(parsed("abc"), ("0".to_string(), 0));
    assert_eq!(parsed(""), ("0".to_string(), 0));
    assert_eq!(parsed("1.2x"), ("0".to_string(), 2));
    assert_eq!(parsed("1 .5"), ("0".to_string(), 1));
    assert_eq!(parsed("1.2.3"), ("0".to_string(), 3));
    assert_eq!(parsed("1e5"), ("0".to_string(), 0));
    assert_eq!(parsed("-"), ("0".to_string(), 0));
}

#[test]
fn parse_splits_at_the_first_point_only() {
    assert_eq!(parsed("5."), ("5".to_string(), 0));
    assert_eq!(parsed(".5"), ("5".to_string(), 1));
    assert_eq!(parsed("."), ("0".to_string(), 0));
    assert_eq!(parsed("-.25"), ("-25".to_string(), 2));
}

#[test]
fn parse_counts_the_characters_behind_the_point() {
    assert_eq!(parsed("1.\u{e9}"), ("0".to_string(), 1));
    assert_eq!(parsed("1.\u{20ac}5"), ("0".to_string(), 2));
    assert_eq!(parsed("1.5\u{180e}"), ("0".to_string(), 2));
    assert_eq!(parsed("1.2.3"), ("0".to_string(), 3));
    assert_eq!(parsed("+.500"), ("500".to_string(), 3));
}

#[test]
fn parse_accepts_digit_separators() {
    assert_eq!(parsed("1_000.5"), ("10005".to_string(), 1));
    assert_eq!(parsed("_1"), ("0".to_string(), 0));
}

#[test]
fn fits_scale_accepts_ordinary_text() {
    assert!(fits_scale("123.456"));
    assert!(fits_scale(""));
    assert!(fits_scale("+1."));
    assert!(fits_scale(" 1.5 "));
    assert!(fits_scale("no point at all"));
}

#[test]
fn format_sets_the_point() {
    assert_eq!(format_decimal(&big("12345"), 2), "123.45");
    assert_eq!(format_decimal(&big("-12345"), 2), "-123.45");
    assert_eq!(format_decimal(&big("100"), 2), "1.00");
    assert_eq!(format_decimal(&big("12345"), 4), "1.2345");
}

#[test]
fn format_pads_small_values_with_zeros() {
    assert_eq!(format_decimal(&big("45"), 3), "0.045");
    assert_eq!(format_decimal(&big("-45"), 3), "-0.045");
    assert_eq!(format_decimal(&big("123"), 3), "0.123");
    assert_eq!(format_decimal(&big("-5"), 1), "-0.5");
    assert_eq!(format_decimal(&big("0"), 2), "0.00");
    assert_eq!(format_decimal(&big("7"), 5), "0.00007");
}

#[test]
fn format_without_scale_is_integer_text() {
    assert_eq!(format_decimal(&big("5"), 0), "5");
    assert_eq!(format_decimal(&big("-1234"), 0), "-1234");
    assert_eq!(format_decimal(&big("5"), -2), "5");
    assert_eq!(format_decimal(&big("-5"), i64::MIN), "-5");
}

#[test]
fn scale_up_appends_zeros() {
    assert_eq!(text(&scale_up(big("5"), 0, 3)), "5000");
    assert_eq!(text(&scale_up(big("-12"), 1, 2)), "-120");
    assert_eq!(text(&scale_up(big("0"), 0, 9)), "0");
}

#[test]
fn scale_up_never_reduces() {
    assert_eq!(text(&scale_up(big("5123"), 3, 1)), "5123");
    assert_eq!(text(&scale_up(big("5123"), 3, 3)), "5123");
    assert_eq!(text(&scale_up(big("5123"), 0, -4)), "5123");
}

#[test]
fn times_power_of_ten_multiplies() {
    assert_eq!(text(&times_power_of_ten(&big("3"), 0)), "3");
    assert_eq!(text(&times_power_of_ten(&big("-3"), 4)), "-30000");
    assert_eq!(
        text(&times_power_of_ten(&big("1"), 30)),
        "1000000000000000000000000000000"
    );
}

#[test]
fn add_aligns_scales() {
    assert_eq!(bigdecimal_add("1.5", "2.25", 0), "3.75");
    assert_eq!(bigdecimal_add("0.1", "0.02", 1), "0.12");
    assert_eq!(bigdecimal_add("-1.5", "1.5", 0), "0.0");
    assert_eq!(bigdecimal_add("10", "-0.001", 2), "9.999");
}

#[test]
fn add_ignores_a_smaller_requested_scale() {
    assert_eq!(bigdecimal_add("1.234", "1", 1), "2.234");
    assert_eq!(bigdecimal_add("1.234", "1", -5), "2.234");
}

#[test]
fn add_writes_the_sum_at_a_larger_requested_scale() {
    assert_eq!(bigdecimal_add("1", "2", 2), "0.03");
    assert_eq!(bigdecimal_add("1.5", "2.5", 3), "0.040");
}

#[test]
fn add_is_commutative_on_examples() {
    let pairs = [
        ("1.5", "2.25"),
        ("-3", "0.001"),
        ("abc", "7.5"),
        ("+4.50", "4.5"),
        (" 4.50", "4.5 "),
        ("0", "-0.0"),
    ];
    for (a, b) in pairs {
        for scale in [-1, 0, 2, 5] {
            assert_eq!(bigdecimal_add(a, b, scale), bigdecimal_add(b, a, scale));
        }
    }
}

#[test]
fn subtract_aligns_scales() {
    assert_eq!(bigdecimal_subtract("5.5", "2.25", 0), "3.25");
    assert_eq!(bigdecimal_subtract("1", "2.5", 0), "-1.5");
    assert_eq!(bigdecimal_subtract("2.5", "2.5", 0), "0.0");
    assert_eq!(bigdecimal_subtract("1", "2", 2), "-0.01");
}

#[test]
fn multiply_adds_scales() {
    assert_eq!(bigdecimal_multiply("1.5", "2.5", 0), "3.75");
    assert_eq!(bigdecimal_multiply("-0.1", "0.1", 0), "-0.01");
    assert_eq!(bigdecimal_multiply("12", "12", 0), "144");
    assert_eq!(bigdecimal_multiply("1.50", "2", 1), "3.00");
    assert_eq!(bigdecimal_multiply("3", "4", 2), "0.12");
}

#[test]
fn divide_scales_the_dividend() {
    assert_eq!(bigdecimal_divide("1", "3", 5), Ok("0.33333".to_string()));
    assert_eq!(bigdecimal_divide("10", "4", 1), Ok("2.5".to_string()));
    assert_eq!(bigdecimal_divide("1", "0.5", 0), Ok("2".to_string()));
    assert_eq!(bigdecimal_divide("2", "3", 3), Ok("0.666".to_string()));
}

#[test]
fn divide_truncates_toward_zero() {
    assert_eq!(bigdecimal_divide("-7", "2", 0), Ok("-3".to_string()));
    assert_eq!(bigdecimal_divide("7", "-2", 0), Ok("-3".to_string()));
    assert_eq!(bigdecimal_divide("-7", "-2", 0), Ok("3".to_string()));
    assert_eq!(bigdecimal_divide("-2", "3", 2), Ok("-0.66".to_string()));
}

#[test]
fn divide_does_not_scale_down() {
    assert_eq!(bigdecimal_divide("1.00", "3", 0), Ok("33".to_string()));
}

#[test]
fn divide_by_unreadable_text_is_division_by_zero() {
    assert_eq!(
        bigdecimal_divide("1", "abc", 2),
        Err(BigNumError::DivisionByZero)
    );
    assert_eq!(bigdecimal_divide("abc", "2", 2), Ok("0.00".to_string()));
}

#[test]
fn abs_keeps_the_scale() {
    assert_eq!(bigdecimal_abs("-1.50"), "1.50");
    assert_eq!(bigdecimal_abs("1.50"), "1.50");
    assert_eq!(bigdecimal_abs("-0.045"), "0.045");
    assert_eq!(bigdecimal_abs("-7"), "7");
    assert_eq!(bigdecimal_abs("+07.10"), "7.10");
}

#[test]
fn signum_is_the_sign() {
    assert_eq!(bigdecimal_signum("-0.001"), -1);
    assert_eq!(bigdecimal_signum("0.000"), 0);
    assert_eq!(bigdecimal_signum("12.5"), 1);
    assert_eq!(bigdecimal_signum("junk"), 0);
}

#[test]
fn compare_aligns_scales() {
    assert_eq!(bigdecimal_compare("1.5", "1.50"), 0);
    assert_eq!(bigdecimal_compare("1.49", "1.5"), -1);
    assert_eq!(bigdecimal_compare("2", "1.99"), 1);
    assert_eq!(bigdecimal_compare("-1", "0.5"), -1);
    assert_eq!(bigdecimal_compare("-1.5", "-1.51"), 1);
    assert_eq!(bigdecimal_compare("junk", "0"), 0);
}

#[test]
fn compare_swapped_is_negated() {
    let pairs = [("1.5", "1.50"), ("1.49", "1.5"), ("2", "1.99"), ("-3", "x")];
    for (a, b) in pairs {
        assert_eq!(bigdecimal_compare(a, b), -bigdecimal_compare(b, a));
    }
}

#[test]
fn set_scale_rounds_a_positive_value_in_every_mode() {
    assert_eq!(bigdecimal_set_scale("123.451", 2, 0), "123.46");
    assert_eq!(bigdecimal_set_scale("123.451", 2, 1), "123.45");
    assert_eq!(bigdecimal_set_scale("123.451", 2, 2), "123.46");
    assert_eq!(bigdecimal_set_scale("123.451", 2, 3), "123.45");
    assert_eq!(bigdecimal_set_scale("123.451", 2, 4), "123.45");
    assert_eq!(bigdecimal_set_scale("123.451", 2, 5), "123.45");
    assert_eq!(bigdecimal_set_scale("123.451", 2, 6), "123.45");
}

#[test]
fn set_scale_rounds_a_negative_value_in_every_mode() {
    assert_eq!(bigdecimal_set_scale("-123.456", 2, 0), "-123.46");
    assert_eq!(bigdecimal_set_scale("-123.456", 2, 1), "-123.45");
    assert_eq!(bigdecimal_set_scale("-123.456", 2, 2), "-123.45");
    assert_eq!(bigdecimal_set_scale("-123.456", 2, 3), "-123.46");
    assert_eq!(bigdecimal_set_scale("-123.456", 2, 4), "-123.46");
    assert_eq!(bigdecimal_set_scale("-123.456", 2, 5), "-123.46");
    assert_eq!(bigdecimal_set_scale("-123.456", 2, 6), "-123.46");
}

#[test]
fn set_scale_resolves_ties() {
    assert_eq!(bigdecimal_set_scale("2.5", 0, 4), "3");
    assert_eq!(bigdecimal_set_scale("-2.5", 0, 4), "-3");
    assert_eq!(bigdecimal_set_scale("2.5", 0, 5), "2");
    assert_eq!(bigdecimal_set_scale("-2.5", 0, 5), "-2");
    assert_eq!(bigdecimal_set_scale("-2.5", 0, 6), "-2");
    assert_eq!(bigdecimal_set_scale("-3.5", 0, 6), "-4");
    assert_eq!(bigdecimal_set_scale("0.125", 2, 6), "0.12");
    assert_eq!(bigdecimal_set_scale("0.135", 2, 6), "0.14");
    assert_eq!(bigdecimal_set_scale("0.5", 0, 6), "0");
    assert_eq!(bigdecimal_set_scale("1.5", 0, 6), "2");
}

#[test]
fn set_scale_half_modes_round_to_nearest() {
    assert_eq!(bigdecimal_set_scale("2.51", 0, 5), "3");
    assert_eq!(bigdecimal_set_scale("2.49", 0, 4), "2");
    assert_eq!(bigdecimal_set_scale("2.51", 0, 6), "3");
    assert_eq!(bigdecimal_set_scale("3.49", 0, 6), "3");
    assert_eq!(bigdecimal_set_scale("-2.51", 0, 5), "-3");
}

#[test]
fn set_scale_leaves_an_exact_quotient_alone() {
    for mode in 0..7 {
        assert_eq!(bigdecimal_set_scale("2.500", 1, mode), "2.5");
        assert_eq!(bigdecimal_set_scale("-7.00", 0, mode), "-7");
    }
}

#[test]
fn set_scale_with_an_unknown_mode_truncates() {
    assert_eq!(bigdecimal_set_scale("2.9", 0, 7), "2");
    assert_eq!(bigdecimal_set_scale("2.9", 0, -1), "2");
    assert_eq!(bigdecimal_set_scale("-2.9", 0, 99), "-2");
}

#[test]
fn set_scale_at_the_same_scale_returns_the_text_unchanged() {
    assert_eq!(bigdecimal_set_scale(" +1.50", 2, 0), " +1.50");
    assert_eq!(bigdecimal_set_scale("007", 0, 0), "007");
    assert_eq!(bigdecimal_set_scale("junk", 0, 0), "junk");
}

#[test]
fn set_scale_up_only_pads() {
    assert_eq!(bigdecimal_set_scale("1.5", 3, 0), "1.500");
    assert_eq!(bigdecimal_set_scale("7", 2, 3), "7.00");
    assert_eq!(bigdecimal_set_scale("-0.05", 4, 6), "-0.0500");
    assert_eq!(bigdecimal_set_scale("0", 1, 2), "0.0");
    for mode in 0..7 {
        let padded = bigdecimal_set_scale("12.34", 6, mode);
        assert_eq!(padded, "12.340000");
        assert_eq!(bigdecimal_compare(&padded, "12.34"), 0);
    }
}

#[test]
fn set_scale_down_is_truncation() {
    for value in ["123.999", "-123.999", "0.5", "-0.5", "99.001", "5"] {
        assert_eq!(
            bigdecimal_set_scale(value, 0, 1),
            bigdecimal_to_biginteger(value)
        );
    }
    assert_eq!(bigdecimal_set_scale("-1.999", 2, 1), "-1.99");
    assert_eq!(bigdecimal_set_scale("1.999", 1, 1), "1.9");
}

#[test]
fn set_scale_below_zero_divides_further() {
    assert_eq!(bigdecimal_set_scale("1234.5", -2, 1), "12");
    assert_eq!(bigdecimal_set_scale("1250", -2, 6), "12");
    assert_eq!(bigdecimal_set_scale("1350", -2, 6), "14");
}

#[test]
fn rescale_works_on_the_unscaled_integer() {
    assert_eq!(text(&rescale(big("123451"), 3, 2, RoundingMode::Ceiling)), "12346");
    assert_eq!(text(&rescale(big("123451"), 3, 5, RoundingMode::Ceiling)), "12345100");
    assert_eq!(text(&rescale(big("123451"), 3, 3, RoundingMode::Up)), "123451");
    assert_eq!(text(&rescale(big("-25"), 1, 0, RoundingMode::HalfEven)), "-2");
}

#[test]
fn to_biginteger_drops_the_fraction() {
    assert_eq!(bigdecimal_to_biginteger("123.99"), "123");
    assert_eq!(bigdecimal_to_biginteger("-123.99"), "-123");
    assert_eq!(bigdecimal_to_biginteger("42"), "42");
    assert_eq!(bigdecimal_to_biginteger("0.999"), "0");
    assert_eq!(bigdecimal_to_biginteger("-0.999"), "0");
    assert_eq!(bigdecimal_to_biginteger("+0012"), "12");
}

#[test]
fn format_of_parse_gives_canonical_text_back() {
    let texts = [
        "0", "7", "-7", "123", "0.5", "-0.5", "0.045", "-0.045", "123.456", "10.00", "0.0",
        "1000000000000000000000.000000000000000000001", "-99.10",
    ];
    for s in texts {
        let x = parse_decimal(s);
        assert_eq!(format_decimal(&x.unscaled, x.scale as i64), s);
    }
}

#[test]
fn parse_of_format_gives_the_number_back() {
    for (digits, scale) in [("0", 0), ("45", 3), ("-45", 3), ("12345", 2), ("-7", 0), ("100", 5)] {
        let written = format_decimal(&big(digits), scale);
        assert_eq!(parsed(&written), (digits.to_string(), scale as i32));
    }
}

#[test]
fn bytes_denote_the_unscaled_integer() {
    let x = parse_decimal("-1.28");
    assert_eq!(text(&bytes_to_bigint(&x.unscaled.bytes)), "-128");
}
