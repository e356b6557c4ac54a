//! Arbitrary-precision integers.
//!
//! A [`BigInteger`] holds an integer as its two's-complement bytes, most
//! significant first, and denotes the value of those bytes.
//!
//! The arithmetic is `num-bigint`'s. Each function in the second half of this
//! file reads its arguments with `BigInt::from_signed_bytes_be`, makes one
//! call, and writes the result with `BigInt::to_signed_bytes_be`. The
//! contracts of these functions are believed, not proved: they say, over the
//! values of the bytes, what the `num-bigint` source shows the call to
//! compute, and rest on the two conversions giving and taking the value that
//! [`signed_value`] states.

use num_bigint::BigInt;
use num_bigint::ParseBigIntError;
use num_traits::Signed;
use num_traits::ToPrimitive;
use num_traits::Zero;
use std::str::FromStr;
use vstd::arithmetic::div_mod::lemma_fundamental_div_mod;
use vstd::arithmetic::div_mod::lemma_mod_pos_bound;
use vstd::arithmetic::power::pow;
use vstd::prelude::*;

use crate::notation::integer_text;
use crate::notation::parsed_integer;

verus! {

/// The number that the bytes of `b` write in base 256, most significant first.
pub open spec fn unsigned_value(b: Seq<u8>) -> nat
    decreases b.len(),
{
    if b.len() == 0 {
        0
    } else {
        unsigned_value(b.drop_last()) * 256 + b.last() as nat
    }
}

/// The integer that the bytes of `b` write in two's complement, most
/// significant first. The empty sequence denotes 0.
pub open spec fn signed_value(b: Seq<u8>) -> int {
    if b.len() > 0 && b[0] >= 0x80 {
        unsigned_value(b) - pow(256, b.len())
    } else {
        unsigned_value(b) as int
    }
}

/// `b` is the shortest two's-complement form of its value: at least one byte,
/// and no leading byte that only repeats the sign.
pub open spec fn is_minimal(b: Seq<u8>) -> bool {
    &&& b.len() >= 1
    &&& b.len() >= 2 ==> !(b[0] == 0x00 && b[1] < 0x80)
    &&& b.len() >= 2 ==> !(b[0] == 0xff && b[1] >= 0x80)
}

/// The magnitude of `v`.
pub open spec fn magnitude(v: int) -> nat {
    if v < 0 {
        (-v) as nat
    } else {
        v as nat
    }
}

/// The quotient of `a` by `b`, rounded toward zero.
pub open spec fn truncated_quotient(a: int, b: int) -> int
    recommends
        b != 0,
{
    let q = (magnitude(a) / magnitude(b)) as int;
    if (a < 0) != (b < 0) {
        -q
    } else {
        q
    }
}

/// What `a` leaves when divided by `b` toward zero. It has the sign of `a`.
pub open spec fn truncated_remainder(a: int, b: int) -> int
    recommends
        b != 0,
{
    let r = (magnitude(a) % magnitude(b)) as int;
    if a < 0 {
        -r
    } else {
        r
    }
}

/// What division toward zero means: quotient and remainder make up the
/// dividend, and the remainder is smaller than the divisor in magnitude and
/// has the sign of the dividend.
pub proof fn lemma_truncated_division(a: int, b: int)
    requires
        b != 0,
    ensures
        a == truncated_quotient(a, b) * b + truncated_remainder(a, b),
        magnitude(truncated_remainder(a, b)) < magnitude(b),
        a >= 0 ==> truncated_remainder(a, b) >= 0,
        a <= 0 ==> truncated_remainder(a, b) <= 0,
{
    let ma = magnitude(a) as int;
    let mb = magnitude(b) as int;
    let q = ma / mb;
    let r = ma % mb;
    lemma_fundamental_div_mod(ma, mb);
    lemma_mod_pos_bound(ma, mb);
    assert(ma == mb * q + r);
    assert((-q) * mb == -(mb * q)) by (nonlinear_arith);
    assert(q * (-mb) == -(mb * q)) by (nonlinear_arith);
    assert((-q) * (-mb) == mb * q) by (nonlinear_arith);
    assert(q * mb == mb * q) by (nonlinear_arith);
}

/// `d` divides `v`.
pub open spec fn divides(d: int, v: int) -> bool {
    exists|k: int| v == #[trigger] (k * d)
}

/// `g` is the greatest common divisor of `a` and `b`: it is not negative, it
/// divides both, and every common divisor divides it. For `a == b == 0` it
/// is 0.
pub open spec fn is_gcd(a: int, b: int, g: int) -> bool {
    &&& g >= 0
    &&& divides(g, a)
    &&& divides(g, b)
    &&& forall|d: int| divides(d, a) && divides(d, b) ==> #[trigger] divides(d, g)
}

/// The greatest common divisor of `a` and `b`.
pub open spec fn gcd_of(a: int, b: int) -> int {
    choose|g: int| is_gcd(a, b, g)
}

/// Two numbers have one greatest common divisor.
pub proof fn lemma_gcd_is_unique(a: int, b: int, g: int, h: int)
    requires
        is_gcd(a, b, g),
        is_gcd(a, b, h),
    ensures
        g == h,
{
    assert(divides(g, h));
    assert(divides(h, g));
    let k = choose|k: int| h == #[trigger] (k * g);
    let j = choose|j: int| g == #[trigger] (j * h);
    assert(g == j * (k * g));
    if g == 0 {
        assert(h == k * 0);
    } else {
        assert(j * k == 1) by (nonlinear_arith)
            requires
                g == j * (k * g),
                g != 0,
        ;
        assert((j == 1 && k == 1) || (j == -1 && k == -1)) by (nonlinear_arith)
            requires
                j * k == 1,
        ;
    }
}

/// An integer of any size, held as two's-complement bytes, most significant
/// first. Every sequence of bytes is a valid integer.
pub struct BigInteger {
    pub bytes: Vec<u8>,
}

impl View for BigInteger {
    type V = int;

    open spec fn view(&self) -> int {
        signed_value(self.bytes@)
    }
}

#[verifier::external_type_specification]
#[verifier::external_body]
pub struct ExParseBigIntError(ParseBigIntError);

/// `BigInt::from_str`. Its source takes off a leading `-` and then a leading
/// `+`, each only where no `+` follows it, and reads what is left as decimal
/// digits that begin with a digit and may hold `_` between or behind them.
/// It gives the value of the digits, negated under a `-`, and refuses every
/// other text. [`parsed_integer`] states this.
#[verifier::external_body]
pub(crate) fn integer_from_text(s: &str) -> (r: Result<BigInteger, ParseBigIntError>)
    ensures
        match r {
            Ok(n) => parsed_integer(s@) == Some(n@),
            Err(_) => parsed_integer(s@) is None,
        },
{
    match BigInt::from_str(s) {
        Ok(n) => Ok(BigInteger { bytes: n.to_signed_bytes_be() }),
        Err(e) => Err(e),
    }
}

/// `to_string` of a `BigInt`: a `-` for a negative value, then the decimal
/// digits of the magnitude with no zero in front, and `0` for zero.
#[verifier::external_body]
pub(crate) fn integer_to_text(n: &BigInteger) -> (r: String)
    ensures
        r@ == integer_text(n@),
{
    BigInt::from_signed_bytes_be(&n.bytes).to_string()
}

/// `BigInt::from(i64)`: the integer with the value of `v`.
#[verifier::external_body]
pub(crate) fn integer_from_i64(v: i64) -> (r: BigInteger)
    ensures
        r@ == v,
{
    BigInteger { bytes: BigInt::from(v).to_signed_bytes_be() }
}

/// `ToPrimitive::to_i64` on a `BigInt`: the value, where an `i64` can hold it.
#[verifier::external_body]
pub(crate) fn integer_to_i64(n: &BigInteger) -> (r: Option<i64>)
    ensures
        match r {
            Some(v) => v == n@,
            None => n@ < i64::MIN || n@ > i64::MAX,
        },
{
    BigInt::from_signed_bytes_be(&n.bytes).to_i64()
}

/// `BigInt::to_signed_bytes_be`: the shortest two's-complement bytes of the
/// value, most significant first; one zero byte for 0.
#[verifier::external_body]
pub(crate) fn integer_minimal_bytes(n: &BigInteger) -> (r: Vec<u8>)
    ensures
        signed_value(r@) == n@,
        is_minimal(r@),
{
    BigInt::from_signed_bytes_be(&n.bytes).to_signed_bytes_be()
}

/// `BigInt + BigInt`: the sum.
#[verifier::external_body]
pub(crate) fn integer_sum(a: &BigInteger, b: &BigInteger) -> (r: BigInteger)
    ensures
        r@ == a@ + b@,
{
    let x = BigInt::from_signed_bytes_be(&a.bytes);
    let y = BigInt::from_signed_bytes_be(&b.bytes);
    BigInteger { bytes: (x + y).to_signed_bytes_be() }
}

/// `BigInt - BigInt`: the difference.
#[verifier::external_body]
pub(crate) fn integer_difference(a: &BigInteger, b: &BigInteger) -> (r: BigInteger)
    ensures
        r@ == a@ - b@,
{
    let x = BigInt::from_signed_bytes_be(&a.bytes);
    let y = BigInt::from_signed_bytes_be(&b.bytes);
    BigInteger { bytes: (x - y).to_signed_bytes_be() }
}

/// `BigInt * BigInt`: the product.
#[verifier::external_body]
pub(crate) fn integer_product(a: &BigInteger, b: &BigInteger) -> (r: BigInteger)
    ensures
        r@ == a@ * b@,
{
    let x = BigInt::from_signed_bytes_be(&a.bytes);
    let y = BigInt::from_signed_bytes_be(&b.bytes);
    BigInteger { bytes: (x * y).to_signed_bytes_be() }
}

/// `BigInt / BigInt`: the quotient rounded toward zero. The call panics on a
/// zero divisor, which `requires` leaves out.
#[verifier::external_body]
pub(crate) fn integer_quotient(a: &BigInteger, b: &BigInteger) -> (r: BigInteger)
    requires
        b@ != 0,
    ensures
        r@ == truncated_quotient(a@, b@),
{
    let x = BigInt::from_signed_bytes_be(&a.bytes);
    let y = BigInt::from_signed_bytes_be(&b.bytes);
    BigInteger { bytes: (x / y).to_signed_bytes_be() }
}

/// `BigInt % BigInt`: the remainder of the division toward zero, with the
/// sign of the dividend. The call panics on a zero divisor, which `requires`
/// leaves out.
#[verifier::external_body]
pub(crate) fn integer_remainder(a: &BigInteger, b: &BigInteger) -> (r: BigInteger)
    requires
        b@ != 0,
    ensures
        r@ == truncated_remainder(a@, b@),
{
    let x = BigInt::from_signed_bytes_be(&a.bytes);
    let y = BigInt::from_signed_bytes_be(&b.bytes);
    BigInteger { bytes: (x % y).to_signed_bytes_be() }
}

/// `Signed::abs` on a `BigInt`: the magnitude.
#[verifier::external_body]
pub(crate) fn integer_abs(a: &BigInteger) -> (r: BigInteger)
    ensures
        r@ == magnitude(a@),
{
    BigInteger { bytes: BigInt::from_signed_bytes_be(&a.bytes).abs().to_signed_bytes_be() }
}

/// `Zero::is_zero` on a `BigInt`: whether the value is 0.
#[verifier::external_body]
pub(crate) fn integer_is_zero(a: &BigInteger) -> (r: bool)
    ensures
        r == (a@ == 0),
{
    BigInt::from_signed_bytes_be(&a.bytes).is_zero()
}

/// `BigInt < BigInt`: whether the first value is the smaller one.
#[verifier::external_body]
pub(crate) fn integer_less_than(a: &BigInteger, b: &BigInteger) -> (r: bool)
    ensures
        r == (a@ < b@),
{
    BigInt::from_signed_bytes_be(&a.bytes) < BigInt::from_signed_bytes_be(&b.bytes)
}

/// `BigInt::pow`: `base` multiplied by itself `exponent` times; 1 for the
/// exponent 0.
#[verifier::external_body]
pub(crate) fn integer_pow(base: &BigInteger, exponent: u32) -> (r: BigInteger)
    ensures
        r@ == pow(base@, exponent as nat),
{
    BigInteger { bytes: BigInt::from_signed_bytes_be(&base.bytes).pow(exponent).to_signed_bytes_be() }
}

/// `num_traits::pow::pow` on a `BigInt`: `base` multiplied by itself
/// `exponent` times; 1 for the exponent 0.
#[verifier::external_body]
pub(crate) fn integer_pow_usize(base: &BigInteger, exponent: usize) -> (r: BigInteger)
    ensures
        r@ == pow(base@, exponent as nat),
{
    let x = BigInt::from_signed_bytes_be(&base.bytes);
    BigInteger { bytes: num_traits::pow::pow(x, exponent).to_signed_bytes_be() }
}

/// `num_integer::gcd` on two `BigInt`s: their greatest common divisor, which
/// is never negative and is 0 for two zeros.
#[verifier::external_body]
pub(crate) fn integer_gcd(a: &BigInteger, b: &BigInteger) -> (r: BigInteger)
    ensures
        is_gcd(a@, b@, r@),
{
    let x = BigInt::from_signed_bytes_be(&a.bytes);
    let y = BigInt::from_signed_bytes_be(&b.bytes);
    BigInteger { bytes: num_integer::gcd(x, y).to_signed_bytes_be() }
}

} // verus!
