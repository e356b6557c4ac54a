//! Reading and writing are inverse to each other: canonical text is written
//! back as it was read, and what was written is read back as the number it
//! was written from.

use vstd::arithmetic::power::lemma_pow_positive;
use vstd::arithmetic::power::pow;
use vstd::prelude::*;

use crate::decimal::decimal_of_text;
use crate::decimal::decimal_text;
use crate::decimal::lemma_point_position;
use crate::decimal::point_position;
use crate::decimal::without_plus;
use crate::integer::magnitude;
use crate::notation::after_minus;
use crate::notation::after_plus;
use crate::notation::all_digits;
use crate::notation::integer_text;
use crate::notation::is_digit;
use crate::notation::is_numeral;
use crate::notation::lemma_canonical_digits_are_text;
use crate::notation::lemma_digits_are_padded_text;
use crate::notation::lemma_natural_text_digits;
use crate::notation::lemma_natural_text_times_power;
use crate::notation::lemma_value_behind_zeros;
use crate::notation::lemma_value_of_natural_text;
use crate::notation::natural_text;
use crate::notation::numeral_value;
use crate::notation::parsed_integer;
use crate::notation::zeros;

verus! {

/// `s` without a leading minus sign.
pub open spec fn unsigned_part(s: Seq<char>) -> Seq<char> {
    if s.len() > 0 && s[0] == '-' {
        s.skip(1)
    } else {
        s
    }
}

/// The digits of `s` before its decimal point.
pub open spec fn whole_digits(s: Seq<char>) -> Seq<char> {
    let body = unsigned_part(s);
    body.take(point_position(body))
}

/// The digits of `s` behind its decimal point; none where it has no point.
pub open spec fn fraction_digits(s: Seq<char>) -> Seq<char> {
    let body = unsigned_part(s);
    let p = point_position(body);
    if p < body.len() {
        body.skip(p + 1)
    } else {
        Seq::<char>::empty()
    }
}

/// `s` is a decimal number in canonical form: an optional minus sign, one or
/// more digits with no needless zero in front, and, where a point follows,
/// one or more digits behind it. Zero has no minus sign.
pub open spec fn is_canonical_decimal(s: Seq<char>) -> bool {
    let body = unsigned_part(s);
    let whole = whole_digits(s);
    let fraction = fraction_digits(s);
    &&& whole.len() >= 1
    &&& all_digits(whole)
    &&& whole.len() == 1 || whole[0] != '0'
    &&& all_digits(fraction)
    &&& point_position(body) < body.len() ==> fraction.len() >= 1
    &&& s[0] == '-' ==> numeral_value(whole + fraction) != 0
}

/// A minus sign, or nothing.
pub open spec fn sign_text(negative: bool) -> Seq<char> {
    if negative {
        seq!['-']
    } else {
        Seq::<char>::empty()
    }
}

/// The decimal text made of a sign, the digits before the point and the
/// digits behind it. Without digits behind it there is no point.
pub open spec fn assembled(negative: bool, whole: Seq<char>, fraction: Seq<char>) -> Seq<char> {
    if fraction.len() > 0 {
        sign_text(negative) + whole + seq!['.'] + fraction
    } else {
        sign_text(negative) + whole
    }
}

/// The integer that digits denote under a sign.
pub open spec fn signed_numeral(negative: bool, digits: Seq<char>) -> int {
    if negative {
        -(numeral_value(digits) as int)
    } else {
        numeral_value(digits) as int
    }
}

/// The digits of `unscaled` as they are written at `scale` fractional
/// digits: those of its magnitude, with zeros in front until one digit stands
/// before the last `scale`.
pub open spec fn padded_digits(unscaled: int, scale: int) -> Seq<char> {
    let digits = natural_text(magnitude(unscaled));
    if digits.len() <= scale {
        zeros((scale + 1 - digits.len()) as nat) + digits
    } else {
        digits
    }
}

/// `text`, written at `scale` fractional digits, with `more` zeros behind
/// its fraction. Text without a fraction gets its point first.
pub open spec fn with_more_zeros(text: Seq<char>, scale: int, more: nat) -> Seq<char> {
    if scale > 0 {
        text + zeros(more)
    } else {
        text + seq!['.'] + zeros(more)
    }
}

/// Where the first decimal point of a text stands.
pub proof fn lemma_point_position_found(s: Seq<char>)
    ensures
        0 <= point_position(s) <= s.len(),
        forall|i: int| 0 <= i < point_position(s) ==> s[i] != '.',
        point_position(s) < s.len() ==> s[point_position(s)] == '.',
    decreases s.len(),
{
    if s.len() == 0 {
    } else if s[0] == '.' {
    } else {
        lemma_point_position_found(s.skip(1));
        let p = point_position(s.skip(1));
        assert forall|i: int| 0 <= i < point_position(s) implies s[i] != '.' by {
            if i > 0 {
                assert(s.skip(1)[i - 1] == s[i]);
            }
        }
        if p < s.skip(1).len() {
            assert(s.skip(1)[p] == s[p + 1]);
        }
    }
}

/// Digits behind an optional minus sign denote their value, negated under
/// the sign.
pub proof fn lemma_parsed_digits(negative: bool, x: Seq<char>)
    requires
        x.len() >= 1,
        all_digits(x),
    ensures
        negative ==> parsed_integer(seq!['-'] + x) == Some(-(numeral_value(x) as int)),
        !negative ==> parsed_integer(x) == Some(numeral_value(x) as int),
{
    assert(is_digit(x[0]));
    assert(is_numeral(x));
    if negative {
        let s = seq!['-'] + x;
        assert(s[1] == x[0]);
        assert(s.skip(1) =~= x);
        assert(after_minus(s) == x);
        assert(after_plus(x) == x);
    } else {
        assert(after_minus(x) == x);
        assert(after_plus(x) == x);
    }
}

/// Two runs of digits are one run of digits.
pub proof fn lemma_all_digits_concat(a: Seq<char>, b: Seq<char>)
    requires
        all_digits(a),
        all_digits(b),
    ensures
        all_digits(a + b),
{
    assert forall|i: int| 0 <= i < (a + b).len() implies is_digit(#[trigger] (a + b)[i]) by {
        if i < a.len() {
            assert((a + b)[i] == a[i]);
        } else {
            assert((a + b)[i] == b[i - a.len()]);
        }
    }
}

/// Assembled text is read as its digits under its sign, at the scale that is
/// the number of digits behind the point.
pub proof fn lemma_parse_of_assembled(negative: bool, whole: Seq<char>, fraction: Seq<char>)
    requires
        whole.len() >= 1,
        all_digits(whole),
        all_digits(fraction),
    ensures
        decimal_of_text(assembled(negative, whole, fraction)) == (
            signed_numeral(negative, whole + fraction),
            fraction.len() as int,
        ),
{
    let s = assembled(negative, whole, fraction);
    let sign = sign_text(negative);
    let offset = sign.len() as int;
    let p = offset + whole.len();
    let x = whole + fraction;
    lemma_all_digits_concat(whole, fraction);
    assert(is_digit(whole[0]));
    assert(s[0] == if negative {
        '-'
    } else {
        whole[0]
    });
    assert(without_plus(s) == s);
    assert forall|i: int| 0 <= i < p implies s[i] != '.' by {
        if i >= offset {
            assert(s[i] == whole[i - offset]);
            assert(is_digit(whole[i - offset]));
        }
    }
    lemma_point_position(s, p);
    lemma_parsed_digits(negative, x);
    if fraction.len() > 0 {
        assert(s.take(p) + s.skip(p + 1) =~= sign + x);
        assert(s.skip(p + 1) =~= fraction);
    } else {
        assert(x =~= whole);
        assert(s =~= sign + x);
    }
    assert(sign + x =~= if negative {
        seq!['-'] + x
    } else {
        x
    });
}

/// Assembled text in canonical form is the text of what it denotes.
pub proof fn lemma_format_of_assembled(negative: bool, whole: Seq<char>, fraction: Seq<char>)
    requires
        whole.len() >= 1,
        all_digits(whole),
        whole.len() == 1 || whole[0] != '0',
        all_digits(fraction),
        negative ==> numeral_value(whole + fraction) != 0,
    ensures
        decimal_text(signed_numeral(negative, whole + fraction), fraction.len() as int)
            == assembled(negative, whole, fraction),
{
    let x = whole + fraction;
    let m = numeral_value(x);
    let v = signed_numeral(negative, x);
    let scale = fraction.len() as int;
    let sign = sign_text(negative);
    lemma_all_digits_concat(whole, fraction);
    assert(magnitude(v) == m);
    assert((v < 0) == negative);
    if scale > 0 {
        lemma_digits_are_padded_text(x);
        lemma_natural_text_digits(m);
        let t = natural_text(m);
        let k = (x.len() - t.len()) as nat;
        if k > 0 {
            assert((zeros(k) + t)[0] == '0');
            assert(x[0] == whole[0]);
        }
        let padded = if t.len() <= scale {
            zeros((scale + 1 - t.len()) as nat) + t
        } else {
            t
        };
        assert(padded =~= x);
        assert(x.take(whole.len() as int) =~= whole);
        assert(x.skip(whole.len() as int) =~= fraction);
    } else {
        assert(x =~= whole);
        lemma_canonical_digits_are_text(x);
        assert(integer_text(v) =~= sign + x);
    }
}

/// A decimal number in canonical form is assembled from its sign, its digits
/// before the point and its digits behind it.
pub proof fn lemma_canonical_is_assembled(s: Seq<char>)
    requires
        is_canonical_decimal(s),
    ensures
        s == assembled(s[0] == '-', whole_digits(s), fraction_digits(s)),
{
    let body = unsigned_part(s);
    let p = point_position(body);
    lemma_point_position_found(body);
    let negative = s[0] == '-';
    assert(s =~= sign_text(negative) + body);
    if p < body.len() {
        assert(body =~= whole_digits(s) + seq!['.'] + fraction_digits(s));
    } else {
        assert(body =~= whole_digits(s));
    }
}

/// Writing what was read gives the text back: a decimal number in canonical
/// form is the text of the scaled integer that it denotes.
pub proof fn lemma_format_of_parse(s: Seq<char>)
    requires
        is_canonical_decimal(s),
    ensures
        decimal_text(decimal_of_text(s).0, decimal_of_text(s).1) == s,
{
    let negative = s[0] == '-';
    lemma_canonical_is_assembled(s);
    lemma_parse_of_assembled(negative, whole_digits(s), fraction_digits(s));
    lemma_format_of_assembled(negative, whole_digits(s), fraction_digits(s));
}

/// The text of a scaled integer is assembled from its sign and its padded
/// digits, split where the fraction begins.
pub proof fn lemma_decimal_text_is_assembled(unscaled: int, scale: int)
    requires
        scale >= 0,
    ensures
        padded_digits(unscaled, scale).len() > scale,
        all_digits(padded_digits(unscaled, scale)),
        numeral_value(padded_digits(unscaled, scale)) == magnitude(unscaled),
        decimal_text(unscaled, scale) == assembled(
            unscaled < 0,
            padded_digits(unscaled, scale).take(padded_digits(unscaled, scale).len() - scale),
            padded_digits(unscaled, scale).skip(padded_digits(unscaled, scale).len() - scale),
        ),
{
    let m = magnitude(unscaled);
    let digits = natural_text(m);
    let padded = padded_digits(unscaled, scale);
    lemma_natural_text_digits(m);
    lemma_value_of_natural_text(m);
    if digits.len() <= scale {
        let k = (scale + 1 - digits.len()) as nat;
        lemma_value_behind_zeros(k, digits);
        assert forall|i: int| 0 <= i < padded.len() implies is_digit(#[trigger] padded[i]) by {
            if i >= k {
                assert(padded[i] == digits[i - k]);
            }
        }
    }
    let split = padded.len() - scale;
    if scale == 0 {
        assert(padded.take(split) =~= digits);
        assert(integer_text(unscaled) =~= sign_text(unscaled < 0) + digits);
    }
}

/// Reading what was written gives the number back: the text of a scaled
/// integer with a scale that is not negative denotes that integer at that
/// scale.
pub proof fn lemma_parse_of_format(unscaled: int, scale: int)
    requires
        scale >= 0,
    ensures
        decimal_of_text(decimal_text(unscaled, scale)) == (unscaled, scale),
{
    let padded = padded_digits(unscaled, scale);
    let split = padded.len() - scale;
    let whole = padded.take(split);
    let fraction = padded.skip(split);
    lemma_decimal_text_is_assembled(unscaled, scale);
    assert(all_digits(whole)) by {
        assert forall|i: int| 0 <= i < whole.len() implies is_digit(#[trigger] whole[i]) by {
            assert(whole[i] == padded[i]);
        }
    }
    assert(all_digits(fraction)) by {
        assert forall|i: int| 0 <= i < fraction.len() implies is_digit(#[trigger] fraction[i]) by {
            assert(fraction[i] == padded[i + split]);
        }
    }
    lemma_parse_of_assembled(unscaled < 0, whole, fraction);
    assert(whole + fraction =~= padded);
}

/// More fractional digits are zeros at the end: a scaled integer brought to a
/// larger scale is written as before, with the new digits as zeros behind.
pub proof fn lemma_larger_scale_pads(unscaled: int, scale: int, more: nat)
    requires
        scale >= 0,
        more >= 1,
    ensures
        decimal_text(unscaled * pow(10, more), scale + more) == with_more_zeros(
            decimal_text(unscaled, scale),
            scale,
            more,
        ),
{
    let m = magnitude(unscaled);
    let factor = pow(10, more);
    lemma_pow_positive(10, more);
    let larger = unscaled * factor;
    let sign = sign_text(unscaled < 0);
    let digits = natural_text(m);
    let padded = padded_digits(unscaled, scale);
    let split = padded.len() - scale;
    lemma_natural_text_digits(m);
    lemma_decimal_text_is_assembled(unscaled, scale);
    assert(decimal_text(unscaled, scale) =~= if scale > 0 {
        sign + padded.take(split) + seq!['.'] + padded.skip(split)
    } else {
        sign + digits
    });
    if m == 0 {
        assert(unscaled == 0);
        assert(larger == 0) by (nonlinear_arith)
            requires
                larger == unscaled * factor,
                unscaled == 0,
        ;
        assert(digits =~= seq!['0']);
        assert(padded_digits(larger, scale + more) =~= zeros((scale + more + 1) as nat));
        assert(padded =~= zeros((scale + 1) as nat));
        assert(decimal_text(larger, scale + more) =~= with_more_zeros(
            decimal_text(unscaled, scale),
            scale,
            more,
        ));
    } else {
        lemma_natural_text_times_power(m, more);
        assert(magnitude(larger) == m * factor) by (nonlinear_arith)
            requires
                larger == unscaled * factor,
                factor > 0,
                m == magnitude(unscaled),
                m > 0,
        ;
        assert((larger < 0) == (unscaled < 0)) by (nonlinear_arith)
            requires
                larger == unscaled * factor,
                factor > 0,
        ;
        let longer = natural_text(magnitude(larger));
        assert(longer == digits + zeros(more));
        let repadded = padded_digits(larger, scale + more);
        assert(repadded =~= padded + zeros(more));
        assert(repadded.take(split) =~= padded.take(split));
        assert(repadded.skip(split) =~= padded.skip(split) + zeros(more));
        assert(decimal_text(larger, scale + more) =~= with_more_zeros(
            decimal_text(unscaled, scale),
            scale,
            more,
        ));
    }
}

} // verus!
