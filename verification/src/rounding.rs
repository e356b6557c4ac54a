//! Rounding: how a quotient that was cut off toward zero is corrected when the
//! division left a remainder.

use vstd::prelude::*;

use crate::integer::integer_abs;
use crate::integer::integer_difference;
use crate::integer::integer_from_i64;
use crate::integer::integer_is_zero;
use crate::integer::integer_less_than;
use crate::integer::integer_remainder;
use crate::integer::integer_sum;
use crate::integer::magnitude;
use crate::integer::integer_quotient;
use crate::integer::truncated_quotient;
use crate::integer::truncated_remainder;
use crate::integer::BigInteger;

verus! {

/// The policy by which an inexact quotient is resolved.
#[derive(Clone, Copy, Debug, PartialEq, Eq, Structural)]
pub enum RoundingMode {
    /// Away from zero.
    Up,
    /// Toward zero.
    Down,
    /// Toward positive infinity.
    Ceiling,
    /// Toward negative infinity.
    Floor,
    /// To the nearest neighbour; a tie goes away from zero.
    HalfUp,
    /// To the nearest neighbour; a tie goes toward zero.
    HalfDown,
    /// To the nearest neighbour; a tie goes to the even neighbour.
    HalfEven,
}

/// The mode that the number `code` stands for: 0 to 6 in the order of the
/// variants, and `Down` for every other number.
pub open spec fn mode_of_code(code: int) -> RoundingMode {
    if code == 0 {
        RoundingMode::Up
    } else if code == 2 {
        RoundingMode::Ceiling
    } else if code == 3 {
        RoundingMode::Floor
    } else if code == 4 {
        RoundingMode::HalfUp
    } else if code == 5 {
        RoundingMode::HalfDown
    } else if code == 6 {
        RoundingMode::HalfEven
    } else {
        RoundingMode::Down
    }
}

/// The number that stands for `mode`.
pub open spec fn code_of_mode(mode: RoundingMode) -> int {
    match mode {
        RoundingMode::Up => 0,
        RoundingMode::Down => 1,
        RoundingMode::Ceiling => 2,
        RoundingMode::Floor => 3,
        RoundingMode::HalfUp => 4,
        RoundingMode::HalfDown => 5,
        RoundingMode::HalfEven => 6,
    }
}

impl RoundingMode {
    /// The mode for a number; a number outside 0 to 6 means truncation.
    pub fn from_code(code: i32) -> (mode: RoundingMode)
        ensures
            mode == mode_of_code(code as int),
    {
        if code == 0 {
            RoundingMode::Up
        } else if code == 2 {
            RoundingMode::Ceiling
        } else if code == 3 {
            RoundingMode::Floor
        } else if code == 4 {
            RoundingMode::HalfUp
        } else if code == 5 {
            RoundingMode::HalfDown
        } else if code == 6 {
            RoundingMode::HalfEven
        } else {
            RoundingMode::Down
        }
    }

    /// The number of this mode.
    pub fn code(self) -> (code: i32)
        ensures
            code == code_of_mode(self),
            mode_of_code(code as int) == self,
    {
        match self {
            RoundingMode::Up => 0,
            RoundingMode::Down => 1,
            RoundingMode::Ceiling => 2,
            RoundingMode::Floor => 3,
            RoundingMode::HalfUp => 4,
            RoundingMode::HalfDown => 5,
            RoundingMode::HalfEven => 6,
        }
    }
}

/// `quotient` moved one unit away from zero, on the side of the value that
/// was divided: down for a negative value, up otherwise.
pub open spec fn away_from_zero(negative: bool, quotient: int) -> int {
    if negative {
        quotient - 1
    } else {
        quotient + 1
    }
}

/// The final quotient of an inexact division. `dividend` is the value that was
/// divided, and counts only by its sign; `quotient` is the quotient cut off
/// toward zero, `remainder` what the division left, `divisor` the divisor.
pub open spec fn rounded_quotient(
    dividend: int,
    quotient: int,
    remainder: int,
    divisor: int,
    mode: RoundingMode,
) -> int {
    let negative = dividend < 0;
    let twice = 2 * magnitude(remainder);
    match mode {
        RoundingMode::Up => away_from_zero(negative, quotient),
        RoundingMode::Down => quotient,
        RoundingMode::Ceiling => if negative {
            quotient
        } else {
            quotient + 1
        },
        RoundingMode::Floor => if negative {
            quotient - 1
        } else {
            quotient
        },
        RoundingMode::HalfUp => if twice >= divisor {
            away_from_zero(negative, quotient)
        } else {
            quotient
        },
        RoundingMode::HalfDown => if twice > divisor {
            away_from_zero(negative, quotient)
        } else {
            quotient
        },
        RoundingMode::HalfEven => if twice > divisor {
            away_from_zero(negative, quotient)
        } else if twice == divisor && quotient % 2 != 0 {
            away_from_zero(negative, quotient)
        } else {
            quotient
        },
    }
}

/// A number is even exactly when its magnitude is.
proof fn lemma_parity(q: int)
    ensures
        (truncated_remainder(q, 2) == 0) == (q % 2 == 0),
{
    assert(magnitude(2) == 2);
    if q < 0 {
        assert(magnitude(q) == -q);
        assert(((-q) % 2 == 0) == (q % 2 == 0));
    } else {
        assert(magnitude(q) == q);
    }
}

/// The quotient of `value` by `divisor` under `mode`: the quotient toward
/// zero where the division leaves nothing, and that quotient resolved under
/// `mode` where it leaves a remainder.
pub open spec fn rounded_division(value: int, divisor: int, mode: RoundingMode) -> int
    recommends
        divisor != 0,
{
    let quotient = truncated_quotient(value, divisor);
    let remainder = truncated_remainder(value, divisor);
    if remainder == 0 {
        quotient
    } else {
        rounded_quotient(value, quotient, remainder, divisor, mode)
    }
}

/// Moves `quotient` one unit away from zero.
fn step_away(negative: bool, quotient: &BigInteger) -> (r: BigInteger)
    ensures
        r@ == away_from_zero(negative, quotient@),
{
    let one = integer_from_i64(1);
    if negative {
        integer_difference(quotient, &one)
    } else {
        integer_sum(quotient, &one)
    }
}

/// Resolves the quotient of an inexact division under `mode`.
///
/// The caller has divided `dividend` by `divisor` toward zero and hands in
/// the quotient and the remainder. The function is meant for a remainder
/// other than zero; it is defined for every input.
pub fn apply_rounding_mode(
    dividend: &BigInteger,
    quotient: BigInteger,
    remainder: &BigInteger,
    divisor: &BigInteger,
    mode: RoundingMode,
) -> (r: BigInteger)
    ensures
        r@ == rounded_quotient(dividend@, quotient@, remainder@, divisor@, mode),
{
    let zero = integer_from_i64(0);
    let is_negative = integer_less_than(dividend, &zero);
    let abs_remainder = integer_abs(remainder);
    let twice = integer_sum(&abs_remainder, &abs_remainder);
    match mode {
        RoundingMode::Up => step_away(is_negative, &quotient),
        RoundingMode::Down => quotient,
        RoundingMode::Ceiling => {
            if is_negative {
                quotient
            } else {
                step_away(false, &quotient)
            }
        },
        RoundingMode::Floor => {
            if is_negative {
                step_away(true, &quotient)
            } else {
                quotient
            }
        },
        RoundingMode::HalfUp => {
            if integer_less_than(&twice, divisor) {
                quotient
            } else {
                step_away(is_negative, &quotient)
            }
        },
        RoundingMode::HalfDown => {
            if integer_less_than(divisor, &twice) {
                step_away(is_negative, &quotient)
            } else {
                quotient
            }
        },
        RoundingMode::HalfEven => {
            if integer_less_than(divisor, &twice) {
                step_away(is_negative, &quotient)
            } else if integer_less_than(&twice, divisor) {
                quotient
            } else {
                let two = integer_from_i64(2);
                let parity = integer_remainder(&quotient, &two);
                proof {
                    lemma_parity(quotient@);
                }
                if integer_is_zero(&parity) {
                    quotient
                } else {
                    step_away(is_negative, &quotient)
                }
            }
        },
    }
}

/// Divides `value` by `divisor` and rounds the quotient under `mode`. An
/// exact quotient is not touched by any mode.
pub fn divide_rounded(value: &BigInteger, divisor: &BigInteger, mode: RoundingMode) -> (r:
    BigInteger)
    requires
        divisor@ != 0,
    ensures
        r@ == rounded_division(value@, divisor@, mode),
{
    let quotient = integer_quotient(value, divisor);
    let remainder = integer_remainder(value, divisor);
    if integer_is_zero(&remainder) {
        quotient
    } else {
        apply_rounding_mode(value, quotient, &remainder, divisor, mode)
    }
}

} // verus!
