//! The operations on integers, given as decimal text or as two's-complement
//! bytes. Each reads its operands, makes one step of arithmetic, and writes
//! the result in the form the operands came in.

use vstd::arithmetic::power::pow;
use vstd::prelude::*;

use crate::buffer::bigint_to_byte_result;
use crate::buffer::bytes_to_bigint;
use crate::buffer::ByteArrayResult;
use crate::decimal::strip_plus;
use crate::decimal::without_plus;
use crate::decimal_ops::order_of;
use crate::decimal_ops::order_of_integers;
use crate::decimal_ops::sign_of;
use crate::decimal_ops::signum_of;
use crate::error::BigNumError;
use crate::integer::integer_abs;
use crate::integer::integer_difference;
use crate::integer::integer_from_text;
use crate::integer::integer_gcd;
use crate::integer::integer_is_zero;
use crate::integer::integer_pow_usize;
use crate::integer::integer_product;
use crate::integer::integer_quotient;
use crate::integer::integer_remainder;
use crate::integer::integer_sum;
use crate::integer::integer_to_i64;
use crate::integer::integer_to_text;
use crate::integer::gcd_of;
use crate::integer::is_gcd;
use crate::integer::lemma_gcd_is_unique;
use crate::integer::is_minimal;
use crate::integer::magnitude;
use crate::integer::signed_value;
use crate::integer::truncated_quotient;
use crate::integer::truncated_remainder;
use crate::integer::BigInteger;
use crate::notation::integer_text;
use crate::notation::parsed_integer;

verus! {

/// The integer that the text `s` denotes, if it denotes one. One leading plus
/// sign does not count.
pub open spec fn integer_of_text(s: Seq<char>) -> Option<int> {
    parsed_integer(without_plus(s))
}

/// `v` fits in an `i64`.
pub open spec fn fits_i64(v: int) -> bool {
    i64::MIN <= v <= i64::MAX
}

/// Reads integer text. Text that is no integer is refused.
pub fn bigint_from_str(s: &str) -> (r: Result<BigInteger, BigNumError>)
    ensures
        match r {
            Ok(n) => integer_of_text(s@) == Some(n@),
            Err(e) => integer_of_text(s@) is None && e == BigNumError::InvalidNumber,
        },
{
    match integer_from_text(strip_plus(s)) {
        Ok(v) => Ok(v),
        Err(_) => Err(BigNumError::InvalidNumber),
    }
}

/// Reads integer text into bytes.
pub fn bigint_from_string_bytes(s: &str) -> (r: Result<ByteArrayResult, BigNumError>)
    ensures
        match r {
            Ok(out) => integer_of_text(s@) == Some(out.value()) && out.wf() && is_minimal(out@),
            Err(e) => integer_of_text(s@) is None && e == BigNumError::InvalidNumber,
        },
{
    match bigint_from_str(s) {
        Ok(n) => Ok(bigint_to_byte_result(&n)),
        Err(e) => Err(e),
    }
}

/// Writes the integer of `data` as decimal text.
pub fn bigint_to_string_bytes(data: &[u8]) -> (r: String)
    ensures
        r@ == integer_text(signed_value(data@)),
{
    let n = bytes_to_bigint(data);
    integer_to_text(&n)
}

/// The sum of two integers given as bytes.
pub fn bigint_add_bytes(a: &[u8], b: &[u8]) -> (r: ByteArrayResult)
    ensures
        r.value() == signed_value(a@) + signed_value(b@),
        r.wf(),
        is_minimal(r@),
{
    let x = bytes_to_bigint(a);
    let y = bytes_to_bigint(b);
    bigint_to_byte_result(&integer_sum(&x, &y))
}

/// The difference of two integers given as bytes.
pub fn bigint_subtract_bytes(a: &[u8], b: &[u8]) -> (r: ByteArrayResult)
    ensures
        r.value() == signed_value(a@) - signed_value(b@),
        r.wf(),
        is_minimal(r@),
{
    let x = bytes_to_bigint(a);
    let y = bytes_to_bigint(b);
    bigint_to_byte_result(&integer_difference(&x, &y))
}

/// The product of two integers given as bytes.
pub fn bigint_multiply_bytes(a: &[u8], b: &[u8]) -> (r: ByteArrayResult)
    ensures
        r.value() == signed_value(a@) * signed_value(b@),
        r.wf(),
        is_minimal(r@),
{
    let x = bytes_to_bigint(a);
    let y = bytes_to_bigint(b);
    bigint_to_byte_result(&integer_product(&x, &y))
}

/// The quotient of two integers given as bytes, cut off toward zero. A zero
/// divisor is refused.
pub fn bigint_divide_bytes(a: &[u8], b: &[u8]) -> (r: Result<ByteArrayResult, BigNumError>)
    ensures
        match r {
            Ok(out) => signed_value(b@) != 0 && out.value() == truncated_quotient(
                signed_value(a@),
                signed_value(b@),
            ) && out.wf() && is_minimal(out@),
            Err(e) => signed_value(b@) == 0 && e == BigNumError::DivisionByZero,
        },
{
    let x = bytes_to_bigint(a);
    let y = bytes_to_bigint(b);
    if integer_is_zero(&y) {
        return Err(BigNumError::DivisionByZero);
    }
    Ok(bigint_to_byte_result(&integer_quotient(&x, &y)))
}

/// What the division of two integers given as bytes leaves, with the sign of
/// the dividend. A zero divisor is refused.
pub fn bigint_mod_bytes(a: &[u8], b: &[u8]) -> (r: Result<ByteArrayResult, BigNumError>)
    ensures
        match r {
            Ok(out) => signed_value(b@) != 0 && out.value() == truncated_remainder(
                signed_value(a@),
                signed_value(b@),
            ) && out.wf() && is_minimal(out@),
            Err(e) => signed_value(b@) == 0 && e == BigNumError::DivisionByZero,
        },
{
    let x = bytes_to_bigint(a);
    let y = bytes_to_bigint(b);
    if integer_is_zero(&y) {
        return Err(BigNumError::DivisionByZero);
    }
    Ok(bigint_to_byte_result(&integer_remainder(&x, &y)))
}

/// The magnitude of an integer given as bytes.
pub fn bigint_abs_bytes(data: &[u8]) -> (r: ByteArrayResult)
    ensures
        r.value() == magnitude(signed_value(data@)),
        r.wf(),
        is_minimal(r@),
{
    let n = bytes_to_bigint(data);
    bigint_to_byte_result(&integer_abs(&n))
}

/// -1, 0 or 1 as the integer given as bytes is negative, zero or positive.
pub fn bigint_signum_bytes(data: &[u8]) -> (r: i32)
    ensures
        r == sign_of(signed_value(data@)),
{
    let n = bytes_to_bigint(data);
    signum_of(&n)
}

/// -1, 0 or 1 as `a` is less than, equal to or greater than `b`.
pub fn bigint_compare_bytes(a: &[u8], b: &[u8]) -> (r: i32)
    ensures
        r == order_of(signed_value(a@), signed_value(b@)),
{
    let x = bytes_to_bigint(a);
    let y = bytes_to_bigint(b);
    order_of_integers(&x, &y)
}

/// The integer as an `i64`, where it fits in one.
pub fn to_long(n: &BigInteger) -> (r: Result<i64, BigNumError>)
    ensures
        match r {
            Ok(v) => v == n@,
            Err(e) => !fits_i64(n@) && e == BigNumError::ConversionOverflow,
        },
{
    match integer_to_i64(n) {
        Some(v) => Ok(v),
        None => Err(BigNumError::ConversionOverflow),
    }
}

/// The integer given as bytes as an `i64`, where it fits in one.
pub fn bigint_to_long_bytes(data: &[u8]) -> (r: Result<i64, BigNumError>)
    ensures
        match r {
            Ok(v) => v == signed_value(data@),
            Err(e) => !fits_i64(signed_value(data@)) && e == BigNumError::ConversionOverflow,
        },
{
    let n = bytes_to_bigint(data);
    to_long(&n)
}

/// The sum of two integers given as text.
pub fn bigint_add(a: &str, b: &str) -> (r: Result<String, BigNumError>)
    ensures
        match r {
            Ok(t) => integer_of_text(a@) is Some && integer_of_text(b@) is Some && t@
                == integer_text(integer_of_text(a@)->0 + integer_of_text(b@)->0),
            Err(e) => (integer_of_text(a@) is None || integer_of_text(b@) is None) && e
                == BigNumError::InvalidNumber,
        },
{
    let x = match bigint_from_str(a) {
        Ok(n) => n,
        Err(e) => {
            return Err(e);
        },
    };
    let y = match bigint_from_str(b) {
        Ok(n) => n,
        Err(e) => {
            return Err(e);
        },
    };
    Ok(integer_to_text(&integer_sum(&x, &y)))
}

/// The difference of two integers given as text.
pub fn bigint_subtract(a: &str, b: &str) -> (r: Result<String, BigNumError>)
    ensures
        match r {
            Ok(t) => integer_of_text(a@) is Some && integer_of_text(b@) is Some && t@
                == integer_text(integer_of_text(a@)->0 - integer_of_text(b@)->0),
            Err(e) => (integer_of_text(a@) is None || integer_of_text(b@) is None) && e
                == BigNumError::InvalidNumber,
        },
{
    let x = match bigint_from_str(a) {
        Ok(n) => n,
        Err(e) => {
            return Err(e);
        },
    };
    let y = match bigint_from_str(b) {
        Ok(n) => n,
        Err(e) => {
            return Err(e);
        },
    };
    Ok(integer_to_text(&integer_difference(&x, &y)))
}

/// The product of two integers given as text.
pub fn bigint_multiply(a: &str, b: &str) -> (r: Result<String, BigNumError>)
    ensures
        match r {
            Ok(t) => integer_of_text(a@) is Some && integer_of_text(b@) is Some && t@
                == integer_text(integer_of_text(a@)->0 * integer_of_text(b@)->0),
            Err(e) => (integer_of_text(a@) is None || integer_of_text(b@) is None) && e
                == BigNumError::InvalidNumber,
        },
{
    let x = match bigint_from_str(a) {
        Ok(n) => n,
        Err(e) => {
            return Err(e);
        },
    };
    let y = match bigint_from_str(b) {
        Ok(n) => n,
        Err(e) => {
            return Err(e);
        },
    };
    Ok(integer_to_text(&integer_product(&x, &y)))
}

/// What a division of `a` by `b`, both given as text, fails with, if it
/// fails: text that is no integer comes before a zero divisor.
pub open spec fn division_error(a: Seq<char>, b: Seq<char>) -> Option<BigNumError> {
    if integer_of_text(a) is None || integer_of_text(b) is None {
        Some(BigNumError::InvalidNumber)
    } else if integer_of_text(b)->0 == 0 {
        Some(BigNumError::DivisionByZero)
    } else {
        None
    }
}

/// The quotient of two integers given as text, cut off toward zero. A zero
/// divisor is refused.
pub fn bigint_divide(a: &str, b: &str) -> (r: Result<String, BigNumError>)
    ensures
        match r {
            Ok(t) => division_error(a@, b@) is None && t@ == integer_text(
                truncated_quotient(integer_of_text(a@)->0, integer_of_text(b@)->0),
            ),
            Err(e) => division_error(a@, b@) == Some(e),
        },
{
    let x = match bigint_from_str(a) {
        Ok(n) => n,
        Err(e) => {
            return Err(e);
        },
    };
    let y = match bigint_from_str(b) {
        Ok(n) => n,
        Err(e) => {
            return Err(e);
        },
    };
    if integer_is_zero(&y) {
        return Err(BigNumError::DivisionByZero);
    }
    Ok(integer_to_text(&integer_quotient(&x, &y)))
}

/// What the division of two integers given as text leaves, with the sign of
/// the dividend. A zero divisor is refused.
pub fn bigint_mod(a: &str, b: &str) -> (r: Result<String, BigNumError>)
    ensures
        match r {
            Ok(t) => division_error(a@, b@) is None && t@ == integer_text(
                truncated_remainder(integer_of_text(a@)->0, integer_of_text(b@)->0),
            ),
            Err(e) => division_error(a@, b@) == Some(e),
        },
{
    let x = match bigint_from_str(a) {
        Ok(n) => n,
        Err(e) => {
            return Err(e);
        },
    };
    let y = match bigint_from_str(b) {
        Ok(n) => n,
        Err(e) => {
            return Err(e);
        },
    };
    if integer_is_zero(&y) {
        return Err(BigNumError::DivisionByZero);
    }
    Ok(integer_to_text(&integer_remainder(&x, &y)))
}

/// `base` raised to `exponent`, for a base given as text. Every integer
/// raised to 0 is 1.
pub fn bigint_pow(base: &str, exponent: u32) -> (r: Result<String, BigNumError>)
    ensures
        match r {
            Ok(t) => integer_of_text(base@) is Some && t@ == integer_text(
                pow(integer_of_text(base@)->0, exponent as nat),
            ),
            Err(e) => integer_of_text(base@) is None && e == BigNumError::InvalidNumber,
        },
{
    let x = match bigint_from_str(base) {
        Ok(n) => n,
        Err(e) => {
            return Err(e);
        },
    };
    Ok(integer_to_text(&integer_pow_usize(&x, exponent as usize)))
}

/// The magnitude of an integer given as text.
pub fn bigint_abs(a: &str) -> (r: Result<String, BigNumError>)
    ensures
        match r {
            Ok(t) => integer_of_text(a@) is Some && t@ == integer_text(
                magnitude(integer_of_text(a@)->0) as int,
            ),
            Err(e) => integer_of_text(a@) is None && e == BigNumError::InvalidNumber,
        },
{
    let x = match bigint_from_str(a) {
        Ok(n) => n,
        Err(e) => {
            return Err(e);
        },
    };
    Ok(integer_to_text(&integer_abs(&x)))
}

/// -1, 0 or 1 as the integer given as text is negative, zero or positive.
pub fn bigint_signum(a: &str) -> (r: Result<i32, BigNumError>)
    ensures
        match r {
            Ok(s) => integer_of_text(a@) is Some && s == sign_of(integer_of_text(a@)->0),
            Err(e) => integer_of_text(a@) is None && e == BigNumError::InvalidNumber,
        },
{
    let x = match bigint_from_str(a) {
        Ok(n) => n,
        Err(e) => {
            return Err(e);
        },
    };
    Ok(signum_of(&x))
}

/// -1, 0 or 1 as `a` is less than, equal to or greater than `b`, both given
/// as text.
pub fn bigint_compare(a: &str, b: &str) -> (r: Result<i32, BigNumError>)
    ensures
        match r {
            Ok(s) => integer_of_text(a@) is Some && integer_of_text(b@) is Some && s == order_of(
                integer_of_text(a@)->0,
                integer_of_text(b@)->0,
            ),
            Err(e) => (integer_of_text(a@) is None || integer_of_text(b@) is None) && e
                == BigNumError::InvalidNumber,
        },
{
    let x = match bigint_from_str(a) {
        Ok(n) => n,
        Err(e) => {
            return Err(e);
        },
    };
    let y = match bigint_from_str(b) {
        Ok(n) => n,
        Err(e) => {
            return Err(e);
        },
    };
    Ok(order_of_integers(&x, &y))
}

/// The greatest common divisor of two integers given as text. It is never
/// negative, and is 0 for two zeros.
pub fn bigint_gcd(a: &str, b: &str) -> (r: Result<String, BigNumError>)
    ensures
        match r {
            Ok(t) => integer_of_text(a@) is Some && integer_of_text(b@) is Some && t@
                == integer_text(gcd_of(integer_of_text(a@)->0, integer_of_text(b@)->0)) && is_gcd(
                integer_of_text(a@)->0,
                integer_of_text(b@)->0,
                gcd_of(integer_of_text(a@)->0, integer_of_text(b@)->0),
            ),
            Err(e) => (integer_of_text(a@) is None || integer_of_text(b@) is None) && e
                == BigNumError::InvalidNumber,
        },
{
    let x = match bigint_from_str(a) {
        Ok(n) => n,
        Err(e) => {
            return Err(e);
        },
    };
    let y = match bigint_from_str(b) {
        Ok(n) => n,
        Err(e) => {
            return Err(e);
        },
    };
    let g = integer_gcd(&x, &y);
    proof {
        lemma_gcd_is_unique(x@, y@, g@, gcd_of(x@, y@));
    }
    Ok(integer_to_text(&g))
}

/// What reading the text `a` as an `i64` fails with, if it fails.
pub open spec fn long_error(a: Seq<char>) -> Option<BigNumError> {
    match integer_of_text(a) {
        None => Some(BigNumError::InvalidNumber),
        Some(v) => if fits_i64(v) {
            None
        } else {
            Some(BigNumError::ConversionOverflow)
        },
    }
}

/// The integer given as text as an `i64`, where it fits in one.
pub fn bigint_to_long(a: &str) -> (r: Result<i64, BigNumError>)
    ensures
        match r {
            Ok(v) => long_error(a@) is None && integer_of_text(a@) == Some(v as int),
            Err(e) => long_error(a@) == Some(e),
        },
{
    let x = match bigint_from_str(a) {
        Ok(n) => n,
        Err(e) => {
            return Err(e);
        },
    };
    to_long(&x)
}

} // verus!
