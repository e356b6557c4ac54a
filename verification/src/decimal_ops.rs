//! The operations on decimal text: each reads its operands, works on their
//! unscaled integers, and writes the result back as text.

use vstd::arithmetic::power::lemma_pow_positive;
use vstd::arithmetic::power::pow;
use vstd::prelude::*;

use crate::decimal::decimal_of_text;
use crate::decimal::decimal_text;
use crate::decimal::format_decimal;
use crate::decimal::parse_decimal;
use crate::decimal::scale_up;
use crate::decimal::scaled_up;
use crate::decimal::times_power_of_ten;
use crate::decimal::scale_fits;
use crate::error::BigNumError;
use crate::integer::integer_abs;
use crate::integer::integer_difference;
use crate::integer::integer_from_i64;
use crate::integer::integer_is_zero;
use crate::integer::integer_less_than;
use crate::integer::integer_pow;
use crate::integer::integer_product;
use crate::integer::integer_quotient;
use crate::integer::integer_sum;
use crate::integer::integer_to_text;
use crate::integer::magnitude;
use crate::integer::truncated_quotient;
use crate::integer::BigInteger;
use crate::notation::integer_text;
use crate::round_trip::lemma_parse_of_format;
use crate::rounding::divide_rounded;
use crate::rounding::mode_of_code;
use crate::rounding::rounded_division;
use crate::rounding::RoundingMode;

verus! {

/// The larger of two integers.
pub open spec fn larger(a: int, b: int) -> int {
    if a >= b {
        a
    } else {
        b
    }
}

/// -1, 0 or 1 as `v` is negative, zero or positive.
pub open spec fn sign_of(v: int) -> int {
    if v < 0 {
        -1
    } else if v == 0 {
        0
    } else {
        1
    }
}

/// -1, 0 or 1 as `a` is less than, equal to or greater than `b`.
pub open spec fn order_of(a: int, b: int) -> int {
    if a < b {
        -1
    } else if a > b {
        1
    } else {
        0
    }
}

/// The text of `a + b`: both unscaled integers are brought to the larger of
/// the two scales and added, and the sum is written at that scale, or at
/// `scale` where that is larger still.
pub open spec fn sum_text(a: Seq<char>, b: Seq<char>, scale: int) -> Seq<char> {
    let (ua, sa) = decimal_of_text(a);
    let (ub, sb) = decimal_of_text(b);
    let common = larger(sa, sb);
    decimal_text(scaled_up(ua, sa, common) + scaled_up(ub, sb, common), larger(common, scale))
}

/// The text of `a - b`, formed as that of the sum is.
pub open spec fn difference_text(a: Seq<char>, b: Seq<char>, scale: int) -> Seq<char> {
    let (ua, sa) = decimal_of_text(a);
    let (ub, sb) = decimal_of_text(b);
    let common = larger(sa, sb);
    decimal_text(scaled_up(ua, sa, common) - scaled_up(ub, sb, common), larger(common, scale))
}

/// The text of `a * b`: the product of the unscaled integers, written at the
/// sum of the two scales, or at `scale` where that is larger.
pub open spec fn product_text(a: Seq<char>, b: Seq<char>, scale: int) -> Seq<char> {
    let (ua, sa) = decimal_of_text(a);
    let (ub, sb) = decimal_of_text(b);
    decimal_text(ua * ub, larger(sa + sb, scale))
}

/// The unscaled integer of `a` as it is divided: with `scale + sb - sa` zeros
/// appended where that number is positive, where `sa` and `sb` are the scales
/// of dividend and divisor.
pub open spec fn dividend_of(a: Seq<char>, b: Seq<char>, scale: int) -> int {
    let (ua, sa) = decimal_of_text(a);
    let (ub, sb) = decimal_of_text(b);
    let shift = scale + sb - sa;
    if shift > 0 {
        ua * pow(10, shift as nat)
    } else {
        ua
    }
}

/// The text of `a / b` where `b` is not zero: the dividend divided toward
/// zero by the unscaled integer of `b`, written at `scale`.
pub open spec fn quotient_text(a: Seq<char>, b: Seq<char>, scale: int) -> Seq<char>
    recommends
        decimal_of_text(b).0 != 0,
{
    decimal_text(truncated_quotient(dividend_of(a, b, scale), decimal_of_text(b).0), scale)
}

/// The text of the magnitude of `a`, at the scale of `a`.
pub open spec fn magnitude_text(a: Seq<char>) -> Seq<char> {
    let (ua, sa) = decimal_of_text(a);
    decimal_text(magnitude(ua) as int, sa)
}

/// -1, 0 or 1 as `a` is less than, equal to or greater than `b`, both taken
/// at the larger of their scales.
pub open spec fn order_of_texts(a: Seq<char>, b: Seq<char>) -> int {
    let (ua, sa) = decimal_of_text(a);
    let (ub, sb) = decimal_of_text(b);
    let common = larger(sa, sb);
    order_of(scaled_up(ua, sa, common), scaled_up(ub, sb, common))
}

/// The unscaled integer of a value brought from `scale` to `target`
/// fractional digits. More digits are zeros appended. Fewer digits are a
/// division by a power of ten toward zero, which is final where it leaves no
/// remainder and is rounded under `mode` where it leaves one.
pub open spec fn rescaled(unscaled: int, scale: int, target: int, mode: RoundingMode) -> int {
    if target >= scale {
        scaled_up(unscaled, scale, target)
    } else {
        rounded_division(unscaled, pow(10, (scale - target) as nat), mode)
    }
}

/// The text of `a` at `scale` fractional digits. At its own scale the text is
/// kept as it was written.
pub open spec fn rescaled_text(a: Seq<char>, scale: int, mode: RoundingMode) -> Seq<char> {
    let (ua, sa) = decimal_of_text(a);
    if sa == scale {
        a
    } else {
        decimal_text(rescaled(ua, sa, scale, mode), scale)
    }
}

/// The integral part of a scaled integer: the unscaled integer divided toward
/// zero by `10^scale`, and the unscaled integer itself at a scale of 0 or
/// less.
pub open spec fn integral_part(unscaled: int, scale: int) -> int {
    if scale <= 0 {
        unscaled
    } else {
        truncated_quotient(unscaled, pow(10, scale as nat))
    }
}

/// The text of the integral part of `a`.
pub open spec fn integral_text(a: Seq<char>) -> Seq<char> {
    let (ua, sa) = decimal_of_text(a);
    integer_text(integral_part(ua, sa))
}

/// -1, 0 or 1 as `v` is negative, zero or positive.
pub fn signum_of(v: &BigInteger) -> (r: i32)
    ensures
        r == sign_of(v@),
{
    let zero = integer_from_i64(0);
    if integer_is_zero(v) {
        0
    } else if integer_less_than(&zero, v) {
        1
    } else {
        -1
    }
}

/// -1, 0 or 1 as `a` is less than, equal to or greater than `b`.
pub fn order_of_integers(a: &BigInteger, b: &BigInteger) -> (r: i32)
    ensures
        r == order_of(a@, b@),
{
    if integer_less_than(a, b) {
        -1
    } else if integer_less_than(b, a) {
        1
    } else {
        0
    }
}

/// The larger of two scales.
fn larger_scale(a: i64, b: i64) -> (r: i64)
    ensures
        r == larger(a as int, b as int),
{
    if a >= b {
        a
    } else {
        b
    }
}

/// Adds two decimal numbers. The sum has as many fractional digits as the
/// operand with more of them, or `scale` where that is more still; it is
/// never cut short.
pub fn bigdecimal_add(a: &str, b: &str, scale: i32) -> (r: String)
    requires
        scale_fits(a@),
        scale_fits(b@),
    ensures
        r@ == sum_text(a@, b@, scale as int),
        scale_fits(r@),
{
    let x = parse_decimal(a);
    let y = parse_decimal(b);
    let x_scale = x.scale;
    let y_scale = y.scale;
    let max_scale = if x_scale >= y_scale {
        x_scale
    } else {
        y_scale
    };
    let x_normalized = scale_up(x.unscaled, x_scale, max_scale);
    let y_normalized = scale_up(y.unscaled, y_scale, max_scale);
    let result = integer_sum(&x_normalized, &y_normalized);
    format_decimal(&result, larger_scale(max_scale as i64, scale as i64))
}

/// Subtracts `b` from `a`. The scale of the difference is chosen as that of a
/// sum is.
pub fn bigdecimal_subtract(a: &str, b: &str, scale: i32) -> (r: String)
    requires
        scale_fits(a@),
        scale_fits(b@),
    ensures
        r@ == difference_text(a@, b@, scale as int),
        scale_fits(r@),
{
    let x = parse_decimal(a);
    let y = parse_decimal(b);
    let x_scale = x.scale;
    let y_scale = y.scale;
    let max_scale = if x_scale >= y_scale {
        x_scale
    } else {
        y_scale
    };
    let x_normalized = scale_up(x.unscaled, x_scale, max_scale);
    let y_normalized = scale_up(y.unscaled, y_scale, max_scale);
    let result = integer_difference(&x_normalized, &y_normalized);
    format_decimal(&result, larger_scale(max_scale as i64, scale as i64))
}

/// Multiplies two decimal numbers. The product has the fractional digits of
/// both operands together, or `scale` where that is more; it is never cut
/// short.
pub fn bigdecimal_multiply(a: &str, b: &str, scale: i32) -> (r: String)
    requires
        scale_fits(a@),
        scale_fits(b@),
    ensures
        r@ == product_text(a@, b@, scale as int),
        decimal_of_text(a@).1 + decimal_of_text(b@).1 <= i32::MAX ==> scale_fits(r@),
{
    let x = parse_decimal(a);
    let y = parse_decimal(b);
    let result = integer_product(&x.unscaled, &y.unscaled);
    let natural: i64 = x.scale as i64 + y.scale as i64;
    format_decimal(&result, larger_scale(natural, scale as i64))
}

/// Divides `a` by `b` and writes the quotient with `scale` fractional digits,
/// cut off toward zero. A divisor whose unscaled integer is zero is refused.
pub fn bigdecimal_divide(a: &str, b: &str, scale: i32) -> (r: Result<String, BigNumError>)
    requires
        scale_fits(a@),
        scale_fits(b@),
    ensures
        match r {
            Ok(t) => decimal_of_text(b@).0 != 0 && t@ == quotient_text(a@, b@, scale as int)
                && scale_fits(t@),
            Err(e) => decimal_of_text(b@).0 == 0 && e == BigNumError::DivisionByZero,
        },
{
    let x = parse_decimal(a);
    let y = parse_decimal(b);
    if integer_is_zero(&y.unscaled) {
        return Err(BigNumError::DivisionByZero);
    }
    let scale_diff: i64 = scale as i64 + y.scale as i64 - x.scale as i64;
    let dividend = if scale_diff > 0 {
        times_power_of_ten(&x.unscaled, scale_diff as u32)
    } else {
        x.unscaled
    };
    let result = integer_quotient(&dividend, &y.unscaled);
    Ok(format_decimal(&result, scale as i64))
}

/// The magnitude of a decimal number, at the scale it was written with.
pub fn bigdecimal_abs(a: &str) -> (r: String)
    requires
        scale_fits(a@),
    ensures
        r@ == magnitude_text(a@),
        scale_fits(r@),
{
    let x = parse_decimal(a);
    let result = integer_abs(&x.unscaled);
    format_decimal(&result, x.scale as i64)
}

/// -1, 0 or 1 as the decimal number is negative, zero or positive.
pub fn bigdecimal_signum(a: &str) -> (r: i32)
    requires
        scale_fits(a@),
    ensures
        r == sign_of(decimal_of_text(a@).0),
{
    let x = parse_decimal(a);
    signum_of(&x.unscaled)
}

/// -1, 0 or 1 as `a` is less than, equal to or greater than `b`.
pub fn bigdecimal_compare(a: &str, b: &str) -> (r: i32)
    requires
        scale_fits(a@),
        scale_fits(b@),
    ensures
        r == order_of_texts(a@, b@),
{
    let x = parse_decimal(a);
    let y = parse_decimal(b);
    let x_scale = x.scale;
    let y_scale = y.scale;
    let max_scale = if x_scale >= y_scale {
        x_scale
    } else {
        y_scale
    };
    let x_normalized = scale_up(x.unscaled, x_scale, max_scale);
    let y_normalized = scale_up(y.unscaled, y_scale, max_scale);
    order_of_integers(&x_normalized, &y_normalized)
}

/// Brings an unscaled integer from `scale` to `target` fractional digits,
/// rounding under `mode` where digits other than zeros are lost.
pub fn rescale(unscaled: BigInteger, scale: i32, target: i32, mode: RoundingMode) -> (r:
    BigInteger)
    ensures
        r@ == rescaled(unscaled@, scale as int, target as int, mode),
{
    if target >= scale {
        return scale_up(unscaled, scale, target);
    }
    let digits: i64 = scale as i64 - target as i64;
    let ten = integer_from_i64(10);
    let divisor = integer_pow(&ten, digits as u32);
    proof {
        lemma_pow_positive(10, digits as nat);
    }
    divide_rounded(&unscaled, &divisor, mode)
}

/// Writes a decimal number with `scale` fractional digits. More digits are
/// zeros; fewer digits are rounded under the mode that `rounding_mode`
/// stands for. A number that already has `scale` digits comes back as it was
/// written.
pub fn bigdecimal_set_scale(a: &str, scale: i32, rounding_mode: i32) -> (r: String)
    requires
        scale_fits(a@),
    ensures
        r@ == rescaled_text(a@, scale as int, mode_of_code(rounding_mode as int)),
        scale_fits(r@),
{
    let x = parse_decimal(a);
    if x.scale == scale {
        return a.to_owned();
    }
    let result = rescale(x.unscaled, x.scale, scale, RoundingMode::from_code(rounding_mode));
    format_decimal(&result, scale as i64)
}

/// The integral part of a decimal number, cut off toward zero, as integer
/// text.
pub fn bigdecimal_to_biginteger(a: &str) -> (r: String)
    requires
        scale_fits(a@),
    ensures
        r@ == integral_text(a@),
        scale_fits(r@),
{
    let x = parse_decimal(a);
    proof {
        lemma_parse_of_format(integral_part(x.unscaled@, x.scale as int), 0);
    }
    if x.scale <= 0 {
        return integer_to_text(&x.unscaled);
    }
    let ten = integer_from_i64(10);
    let divisor = integer_pow(&ten, x.scale as u32);
    proof {
        lemma_pow_positive(10, x.scale as nat);
    }
    let result = integer_quotient(&x.unscaled, &divisor);
    integer_to_text(&result)
}

} // verus!
