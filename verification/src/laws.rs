//! What holds of the operations, whatever their operands.

use vstd::arithmetic::div_mod::lemma_div_pos_is_pos;
use vstd::arithmetic::power::lemma_pow_adds;
use vstd::arithmetic::power::pow;
use vstd::prelude::*;

use crate::decimal::decimal_of_text;
use crate::decimal::decimal_text;
use crate::decimal::scaled_up;
use crate::decimal_ops::difference_text;
use crate::decimal_ops::integral_text;
use crate::decimal_ops::larger;
use crate::decimal_ops::order_of_texts;
use crate::decimal_ops::product_text;
use crate::decimal_ops::rescaled;
use crate::decimal_ops::rescaled_text;
use crate::decimal_ops::sum_text;
use crate::integer::lemma_truncated_division;
use crate::integer::magnitude;
use crate::integer::truncated_quotient;
use crate::integer::truncated_remainder;
use crate::round_trip::lemma_larger_scale_pads;
use crate::round_trip::lemma_parse_of_format;
use crate::round_trip::with_more_zeros;
use crate::rounding::RoundingMode;
use crate::rounding::away_from_zero;
use crate::rounding::rounded_division;
use crate::rounding::rounded_quotient;

verus! {

/// Two scaled integers with scales that are not negative denote the same
/// number: `u1 * 10^(-s1) == u2 * 10^(-s2)`, stated without fractions.
pub open spec fn same_number(u1: int, s1: int, u2: int, s2: int) -> bool
    recommends
        s1 >= 0,
        s2 >= 0,
{
    u1 * pow(10, s2 as nat) == u2 * pow(10, s1 as nat)
}

/// The result of `mode` is no further from the exact quotient than half a
/// unit: twice the distance between the value and the product of result and
/// divisor does not exceed the divisor.
pub open spec fn is_nearest(value: int, divisor: int, result: int) -> bool {
    2 * magnitude(value - result * divisor) <= divisor
}

/// The value lies exactly between two multiples of the divisor.
pub open spec fn is_tie(value: int, divisor: int) -> bool {
    2 * magnitude(truncated_remainder(value, divisor)) == divisor
}

/// Addition is commutative: the sum of `a` and `b` is written as the sum of
/// `b` and `a` is.
pub proof fn lemma_add_commutes(a: Seq<char>, b: Seq<char>, scale: int)
    ensures
        sum_text(a, b, scale) == sum_text(b, a, scale),
{
}

/// Multiplication is commutative: the product of `a` and `b` is written as
/// the product of `b` and `a` is.
pub proof fn lemma_multiply_commutes(a: Seq<char>, b: Seq<char>, scale: int)
    ensures
        product_text(a, b, scale) == product_text(b, a, scale),
{
    let ua = decimal_of_text(a).0;
    let ub = decimal_of_text(b).0;
    assert(ua * ub == ub * ua) by (nonlinear_arith);
}

/// A sum denotes the sum of its operands. Where the scale asked for is not
/// larger than both scales, the text of the sum is read back at the larger
/// scale as the sum of two integers, each of which denotes one operand at
/// that scale.
pub proof fn lemma_sum_denotes_sum(a: Seq<char>, b: Seq<char>, scale: int)
    requires
        scale <= larger(decimal_of_text(a).1, decimal_of_text(b).1),
    ensures
        ({
            let (ua, sa) = decimal_of_text(a);
            let (ub, sb) = decimal_of_text(b);
            let common = larger(sa, sb);
            &&& decimal_of_text(sum_text(a, b, scale)) == (
                scaled_up(ua, sa, common) + scaled_up(ub, sb, common),
                common,
            )
            &&& same_number(scaled_up(ua, sa, common), common, ua, sa)
            &&& same_number(scaled_up(ub, sb, common), common, ub, sb)
        }),
{
    let (ua, sa) = decimal_of_text(a);
    let (ub, sb) = decimal_of_text(b);
    let common = larger(sa, sb);
    lemma_parse_of_format(scaled_up(ua, sa, common) + scaled_up(ub, sb, common), common);
    lemma_larger_scale_keeps_number(ua, sa, common, RoundingMode::Down);
    lemma_larger_scale_keeps_number(ub, sb, common, RoundingMode::Down);
}

/// A difference denotes the difference of its operands, as a sum denotes
/// their sum.
pub proof fn lemma_difference_denotes_difference(a: Seq<char>, b: Seq<char>, scale: int)
    requires
        scale <= larger(decimal_of_text(a).1, decimal_of_text(b).1),
    ensures
        ({
            let (ua, sa) = decimal_of_text(a);
            let (ub, sb) = decimal_of_text(b);
            let common = larger(sa, sb);
            &&& decimal_of_text(difference_text(a, b, scale)) == (
                scaled_up(ua, sa, common) - scaled_up(ub, sb, common),
                common,
            )
            &&& same_number(scaled_up(ua, sa, common), common, ua, sa)
            &&& same_number(scaled_up(ub, sb, common), common, ub, sb)
        }),
{
    let (ua, sa) = decimal_of_text(a);
    let (ub, sb) = decimal_of_text(b);
    let common = larger(sa, sb);
    lemma_parse_of_format(scaled_up(ua, sa, common) - scaled_up(ub, sb, common), common);
    lemma_larger_scale_keeps_number(ua, sa, common, RoundingMode::Down);
    lemma_larger_scale_keeps_number(ub, sb, common, RoundingMode::Down);
}

/// A product denotes the product of its operands. Where the scale asked for
/// is not larger than the two scales together, the text of the product is
/// read back as the product of the unscaled integers at the sum of the
/// scales.
pub proof fn lemma_product_denotes_product(a: Seq<char>, b: Seq<char>, scale: int)
    requires
        scale <= decimal_of_text(a).1 + decimal_of_text(b).1,
    ensures
        decimal_of_text(product_text(a, b, scale)) == (
            decimal_of_text(a).0 * decimal_of_text(b).0,
            decimal_of_text(a).1 + decimal_of_text(b).1,
        ),
{
    let (ua, sa) = decimal_of_text(a);
    let (ub, sb) = decimal_of_text(b);
    lemma_parse_of_format(ua * ub, sa + sb);
}

/// Swapping the operands of a comparison negates its result.
pub proof fn lemma_compare_swaps(a: Seq<char>, b: Seq<char>)
    ensures
        order_of_texts(a, b) == -order_of_texts(b, a),
{
}

/// A larger scale does not change the number: the rescaled integer at the
/// target scale denotes what the integer denoted at its own scale, under
/// every rounding mode.
pub proof fn lemma_larger_scale_keeps_number(
    unscaled: int,
    scale: int,
    target: int,
    mode: RoundingMode,
)
    requires
        0 <= scale <= target,
    ensures
        same_number(rescaled(unscaled, scale, target, mode), target, unscaled, scale),
        rescaled(unscaled, scale, target, mode) == unscaled * pow(10, (target - scale) as nat),
{
    if target == scale {
        assert(pow(10, 0) == 1) by {
            reveal(pow);
        }
    } else {
        let k = (target - scale) as nat;
        lemma_pow_adds(10, k, scale as nat);
        assert(unscaled * pow(10, k) * pow(10, scale as nat) == unscaled * (pow(10, k) * pow(
            10,
            scale as nat,
        ))) by (nonlinear_arith);
    }
}

/// Setting a scale that is not smaller keeps the number: the text that `a`
/// is given at a scale of at least its own has that scale and denotes the
/// number that `a` denotes, under every rounding mode.
pub proof fn lemma_set_scale_up_keeps_number(a: Seq<char>, scale: int, mode: RoundingMode)
    requires
        decimal_of_text(a).1 <= scale,
    ensures
        decimal_of_text(rescaled_text(a, scale, mode)).1 == scale,
        same_number(
            decimal_of_text(rescaled_text(a, scale, mode)).0,
            scale,
            decimal_of_text(a).0,
            decimal_of_text(a).1,
        ),
{
    let (ua, sa) = decimal_of_text(a);
    if sa != scale {
        lemma_parse_of_format(rescaled(ua, sa, scale, mode), scale);
    }
    lemma_larger_scale_keeps_number(ua, sa, scale, mode);
}

/// Setting a larger scale only pads: the result is the canonical text of the
/// number with zeros behind it, under every rounding mode.
pub proof fn lemma_set_scale_up_pads(a: Seq<char>, scale: int, mode: RoundingMode)
    requires
        decimal_of_text(a).1 < scale,
    ensures
        rescaled_text(a, scale, mode) == with_more_zeros(
            decimal_text(decimal_of_text(a).0, decimal_of_text(a).1),
            decimal_of_text(a).1,
            (scale - decimal_of_text(a).1) as nat,
        ),
{
    let (ua, sa) = decimal_of_text(a);
    lemma_larger_scale_pads(ua, sa, (scale - sa) as nat);
}

/// Rounding down is truncation: at a smaller scale and under `Down`, the
/// rescaled integer is the quotient by the power of ten, cut off toward zero.
pub proof fn lemma_down_is_truncation(unscaled: int, scale: int, target: int)
    requires
        target < scale,
    ensures
        rescaled(unscaled, scale, target, RoundingMode::Down) == truncated_quotient(
            unscaled,
            pow(10, (scale - target) as nat),
        ),
{
}

/// Setting a smaller scale under `Down` is truncation: the result is the
/// text of the unscaled integer divided toward zero by the power of ten, and
/// at the scale 0 it is the integral part.
pub proof fn lemma_set_scale_down_is_truncation(a: Seq<char>, scale: int)
    requires
        scale < decimal_of_text(a).1,
    ensures
        rescaled_text(a, scale, RoundingMode::Down) == decimal_text(
            truncated_quotient(
                decimal_of_text(a).0,
                pow(10, (decimal_of_text(a).1 - scale) as nat),
            ),
            scale,
        ),
        scale == 0 ==> rescaled_text(a, scale, RoundingMode::Down) == integral_text(a),
{
}

/// A tie goes to the even neighbour: where the remainder is exactly half the
/// divisor, `HalfEven` keeps an even quotient, moves an odd one by one unit
/// away from zero, and so gives an even result either way.
pub proof fn lemma_half_even_tie_is_even(
    dividend: int,
    quotient: int,
    remainder: int,
    divisor: int,
)
    requires
        2 * magnitude(remainder) == divisor,
    ensures
        rounded_quotient(dividend, quotient, remainder, divisor, RoundingMode::HalfEven) % 2 == 0,
        quotient % 2 == 0 ==> rounded_quotient(
            dividend,
            quotient,
            remainder,
            divisor,
            RoundingMode::HalfEven,
        ) == quotient,
        quotient % 2 != 0 ==> rounded_quotient(
            dividend,
            quotient,
            remainder,
            divisor,
            RoundingMode::HalfEven,
        ) == away_from_zero(dividend < 0, quotient),
{
}

/// `Floor` gives the largest integer whose product with the divisor does not
/// exceed the value, and `Ceiling` the smallest whose product is not below
/// it.
pub proof fn lemma_floor_and_ceiling(value: int, divisor: int)
    requires
        divisor > 0,
    ensures
        rounded_division(value, divisor, RoundingMode::Floor) * divisor <= value,
        value < (rounded_division(value, divisor, RoundingMode::Floor) + 1) * divisor,
        (rounded_division(value, divisor, RoundingMode::Ceiling) - 1) * divisor < value,
        value <= rounded_division(value, divisor, RoundingMode::Ceiling) * divisor,
{
    let q = truncated_quotient(value, divisor);
    let r = truncated_remainder(value, divisor);
    lemma_truncated_division(value, divisor);
    assert((q + 1) * divisor == q * divisor + divisor) by (nonlinear_arith);
    assert((q - 1) * divisor == q * divisor - divisor) by (nonlinear_arith);
    assert((q + 1 - 1) * divisor == q * divisor);
    assert((q - 1 + 1) * divisor == q * divisor);
}

/// `Down` gives the quotient toward zero, and `Up` the quotient away from
/// zero: in magnitude, the first is the largest integer whose product with
/// the divisor does not exceed the value, the second the smallest whose
/// product is not below it. Neither changes the side of zero.
pub proof fn lemma_down_and_up(value: int, divisor: int)
    requires
        divisor > 0,
    ensures
        magnitude(rounded_division(value, divisor, RoundingMode::Down)) * divisor <= magnitude(
            value,
        ),
        magnitude(value) < (magnitude(rounded_division(value, divisor, RoundingMode::Down)) + 1)
            * divisor,
        (magnitude(rounded_division(value, divisor, RoundingMode::Up)) - 1) * divisor < magnitude(
            value,
        ),
        magnitude(value) <= magnitude(rounded_division(value, divisor, RoundingMode::Up))
            * divisor,
        value >= 0 ==> rounded_division(value, divisor, RoundingMode::Down) >= 0
            && rounded_division(value, divisor, RoundingMode::Up) >= 0,
        value <= 0 ==> rounded_division(value, divisor, RoundingMode::Down) <= 0
            && rounded_division(value, divisor, RoundingMode::Up) <= 0,
{
    let q = truncated_quotient(value, divisor);
    let r = truncated_remainder(value, divisor);
    lemma_truncated_division(value, divisor);
    let n = (magnitude(value) / magnitude(divisor)) as int;
    assert(magnitude(divisor) == divisor);
    lemma_div_pos_is_pos(magnitude(value) as int, divisor);
    assert(n >= 0);
    assert(magnitude(q) == n);
    assert((-n) * divisor == -(n * divisor)) by (nonlinear_arith);
    assert((n + 1) * divisor == n * divisor + divisor) by (nonlinear_arith);
    assert((n + 1 - 1) * divisor == n * divisor);
    if r != 0 {
        if value < 0 {
            assert(magnitude(q - 1) == n + 1);
        } else {
            assert(magnitude(q + 1) == n + 1);
        }
    } else {
        assert((n - 1) * divisor == n * divisor - divisor) by (nonlinear_arith);
    }
}

/// The three `Half` modes round to the nearest neighbour, and differ only on
/// a tie: `HalfUp` then goes away from zero, `HalfDown` toward zero, and
/// `HalfEven` to the even neighbour.
pub proof fn lemma_half_modes_are_nearest(value: int, divisor: int)
    requires
        divisor > 0,
    ensures
        is_nearest(value, divisor, rounded_division(value, divisor, RoundingMode::HalfUp)),
        is_nearest(value, divisor, rounded_division(value, divisor, RoundingMode::HalfDown)),
        is_nearest(value, divisor, rounded_division(value, divisor, RoundingMode::HalfEven)),
        !is_tie(value, divisor) ==> rounded_division(value, divisor, RoundingMode::HalfUp)
            == rounded_division(value, divisor, RoundingMode::HalfEven) && rounded_division(
            value,
            divisor,
            RoundingMode::HalfDown,
        ) == rounded_division(value, divisor, RoundingMode::HalfEven),
        is_tie(value, divisor) ==> rounded_division(value, divisor, RoundingMode::HalfUp)
            == rounded_division(value, divisor, RoundingMode::Up) && rounded_division(
            value,
            divisor,
            RoundingMode::HalfDown,
        ) == rounded_division(value, divisor, RoundingMode::Down) && rounded_division(
            value,
            divisor,
            RoundingMode::HalfEven,
        ) % 2 == 0,
{
    let q = truncated_quotient(value, divisor);
    let r = truncated_remainder(value, divisor);
    lemma_truncated_division(value, divisor);
    assert((q + 1) * divisor == q * divisor + divisor) by (nonlinear_arith);
    assert((q - 1) * divisor == q * divisor - divisor) by (nonlinear_arith);
    assert(value - q * divisor == r);
    assert(value - (q + 1) * divisor == r - divisor);
    assert(value - (q - 1) * divisor == r + divisor);
}

} // verus!
