//! Scaled integers: the parser, the formatter and the scale normaliser.
//!
//! A decimal number is held as an unscaled integer and a scale, and denotes
//! `unscaled * 10^(-scale)`.

use vstd::arithmetic::power::pow;
use vstd::prelude::*;

use crate::integer::integer_from_i64;
use crate::integer::integer_from_text;
use crate::integer::integer_pow;
use crate::integer::integer_product;
use crate::integer::integer_to_text;
use crate::integer::magnitude;
use crate::integer::BigInteger;
use crate::notation::integer_text;
use crate::notation::zeros;
use crate::notation::natural_text;
use crate::notation::parsed_integer;
use crate::notation::lemma_integer_text_shape;
use crate::round_trip::lemma_parse_of_format;

verus! {

/// `s` without one leading plus sign.
pub open spec fn without_plus(s: Seq<char>) -> Seq<char> {
    if s.len() > 0 && s[0] == '+' {
        s.skip(1)
    } else {
        s
    }
}

/// The index of the first decimal point in `s`, or the length of `s` where it
/// holds none.
pub open spec fn point_position(s: Seq<char>) -> int
    decreases s.len(),
{
    if s.len() == 0 {
        0
    } else if s[0] == '.' {
        0
    } else {
        1 + point_position(s.skip(1))
    }
}

/// The integer that `s` denotes, and 0 where it denotes none.
pub open spec fn lenient_integer(s: Seq<char>) -> int {
    match parsed_integer(s) {
        Some(v) => v,
        None => 0,
    }
}

/// The unscaled integer and the scale that the decimal text `s` denotes.
///
/// One leading plus sign does not count. With a decimal point, the
/// characters on both sides of the first one are read together as one
/// integer, and the scale is the number of characters that follow the point;
/// without one, the whole text is read and the scale is 0. Text that is no
/// number reads as 0: white space and every other stray character make it
/// so.
pub open spec fn decimal_of_text(s: Seq<char>) -> (int, int) {
    let clean = without_plus(s);
    let p = point_position(clean);
    if p < clean.len() {
        let fraction = clean.skip(p + 1);
        (lenient_integer(clean.take(p) + fraction), fraction.len() as int)
    } else {
        (lenient_integer(clean), 0)
    }
}

/// The scale of the text `s` can be held: what follows its first decimal
/// point is no longer than an `i32` can count.
pub open spec fn scale_fits(s: Seq<char>) -> bool {
    decimal_of_text(s).1 <= i32::MAX
}

/// The canonical text of `unscaled * 10^(-scale)`.
///
/// With a scale of 0 or less it is the text of the integer. Otherwise the
/// digits of the magnitude are padded with zeros on the left until one digit
/// stands before the last `scale` of them, a point is set before those, and a
/// negative value gets its minus sign.
pub open spec fn decimal_text(unscaled: int, scale: int) -> Seq<char> {
    if scale <= 0 {
        integer_text(unscaled)
    } else {
        let digits = natural_text(magnitude(unscaled));
        let padded = if digits.len() <= scale {
            zeros((scale + 1 - digits.len()) as nat) + digits
        } else {
            digits
        };
        let split = padded.len() - scale;
        let sign = if unscaled < 0 {
            seq!['-']
        } else {
            Seq::<char>::empty()
        };
        sign + padded.take(split) + seq!['.'] + padded.skip(split)
    }
}

/// `unscaled` brought from `current` to `target` fractional digits, where
/// that is more digits; unchanged where it is not.
pub open spec fn scaled_up(unscaled: int, current: int, target: int) -> int {
    if target <= current {
        unscaled
    } else {
        unscaled * pow(10, (target - current) as nat)
    }
}

/// A decimal number: `unscaled * 10^(-scale)`.
pub struct ScaledInteger {
    pub unscaled: BigInteger,
    pub scale: i32,
}

impl ScaledInteger {
    /// The scale is not negative. The parser gives no other value; the
    /// formatter writes a negative scale as it writes the scale 0.
    pub open spec fn wf(&self) -> bool {
        self.scale >= 0
    }
}

impl View for ScaledInteger {
    type V = (int, int);

    /// The unscaled value and the scale.
    open spec fn view(&self) -> (int, int) {
        (self.unscaled@, self.scale as int)
    }
}

/// The position of the first decimal point in `s`, or the number of
/// characters of `s` where it holds none.
fn find_point(s: &str) -> (r: usize)
    ensures
        r == point_position(s@),
        r <= s@.len(),
{
    let n = s.unicode_len();
    let mut found: bool = false;
    let mut pos: usize = 0;
    for c in it: s.chars()
        invariant
            it.seq() == s@,
            s@.len() == n,
            !found ==> pos == it.index(),
            found ==> pos < it.index() && s@[pos as int] == '.',
            forall|i: int| 0 <= i < pos ==> s@[i] != '.',
            pos <= s@.len(),
    {
        if !found {
            if c == '.' {
                found = true;
            } else {
                pos = pos + 1;
            }
        }
    }
    proof {
        lemma_point_position(s@, pos as int);
    }
    pos
}

/// The first point is where no point stands before and one stands at it, or
/// at the end where there is none.
pub proof fn lemma_point_position(s: Seq<char>, p: int)
    requires
        0 <= p <= s.len(),
        forall|i: int| 0 <= i < p ==> s[i] != '.',
        p < s.len() ==> s[p] == '.',
    ensures
        point_position(s) == p,
    decreases s.len(),
{
    if s.len() == 0 {
    } else if p == 0 {
    } else {
        assert(s[0] != '.');
        assert forall|i: int| 0 <= i < p - 1 implies s.skip(1)[i] != '.' by {
            assert(s.skip(1)[i] == s[i + 1]);
        }
        lemma_point_position(s.skip(1), p - 1);
    }
}

/// `s` without one leading plus sign.
pub fn strip_plus(s: &str) -> (r: &str)
    ensures
        r@ == without_plus(s@),
{
    let n = s.unicode_len();
    if n > 0 && s.get_char(0) == '+' {
        s.substring_char(1, n)
    } else {
        s
    }
}

/// Whether the scale of `s` can be held, so that `s` can be read as a decimal
/// number.
pub fn fits_scale(s: &str) -> (r: bool)
    ensures
        r == scale_fits(s@),
{
    let clean = strip_plus(s);
    let m = clean.unicode_len();
    let p = find_point(clean);
    if p < m {
        m - p - 1 <= 0x7fff_ffff
    } else {
        true
    }
}

/// Reads `text` as an integer, and as 0 where it is none.
fn lenient_integer_of(text: &str) -> (r: BigInteger)
    ensures
        r@ == lenient_integer(text@),
{
    match integer_from_text(text) {
        Ok(n) => n,
        Err(_) => integer_from_i64(0),
    }
}

/// Reads decimal text as an unscaled integer and a scale.
///
/// What follows the decimal point must be short enough for its length to be
/// a scale, that is, to fit in an `i32`.
pub fn parse_decimal(s: &str) -> (r: ScaledInteger)
    requires
        scale_fits(s@),
    ensures
        r@ == decimal_of_text(s@),
        r.wf(),
{
    let clean = strip_plus(s);
    let m = clean.unicode_len();
    let p = find_point(clean);
    if p < m {
        let int_part = clean.substring_char(0, p);
        let frac_part = clean.substring_char(p + 1, m);
        let mut combined = int_part.to_owned();
        combined.append(frac_part);
        let scale = (m - p - 1) as i32;
        ScaledInteger { unscaled: lenient_integer_of(combined.as_str()), scale }
    } else {
        ScaledInteger { unscaled: lenient_integer_of(clean), scale: 0 }
    }
}

/// `num` times `10^exponent`.
pub fn times_power_of_ten(num: &BigInteger, exponent: u32) -> (r: BigInteger)
    ensures
        r@ == num@ * pow(10, exponent as nat),
{
    let ten = integer_from_i64(10);
    let factor = integer_pow(&ten, exponent);
    integer_product(num, &factor)
}

/// Brings `num` from `current_scale` to `target_scale` fractional digits by
/// appending zeros. It never takes digits away: where the target is not the
/// larger scale, `num` comes back unchanged.
pub fn scale_up(num: BigInteger, current_scale: i32, target_scale: i32) -> (r: BigInteger)
    ensures
        r@ == scaled_up(num@, current_scale as int, target_scale as int),
{
    if target_scale <= current_scale {
        return num;
    }
    let digits: i64 = target_scale as i64 - current_scale as i64;
    times_power_of_ten(&num, digits as u32)
}

/// Writes `num * 10^(-scale)` as canonical decimal text.
pub fn format_decimal(num: &BigInteger, scale: i64) -> (r: String)
    ensures
        r@ == decimal_text(num@, scale as int),
        scale <= i32::MAX ==> scale_fits(r@),
{
    proof {
        lemma_parse_of_format(num@, if scale > 0 {
            scale as int
        } else {
            0
        });
    }
    write_decimal(num, scale)
}

/// Sets the sign, the digits and the point of `num * 10^(-scale)`.
fn write_decimal(num: &BigInteger, scale: i64) -> (r: String)
    ensures
        r@ == decimal_text(num@, scale as int),
{
    let text = integer_to_text(num);
    if scale <= 0 {
        return text;
    }
    proof {
        lemma_integer_text_shape(num@);
        reveal_strlit("-");
        reveal_strlit("0");
        reveal_strlit(".");
    }
    let len = text.as_str().unicode_len();
    let is_negative = text.as_str().get_char(0) == '-';
    let digits = if is_negative {
        text.as_str().substring_char(1, len)
    } else {
        text.as_str()
    };
    assert(digits@ == natural_text(magnitude(num@)));
    let count = digits.unicode_len();
    let mut result = String::new();
    if is_negative {
        result.append("-");
    }
    let ghost sign = result@;
    if count as u64 <= scale as u64 {
        result.append("0");
        result.append(".");
        let fill: u64 = scale as u64 - count as u64;
        let mut done: u64 = 0;
        while done < fill
            invariant
                done <= fill,
                result@ == sign + seq!['0', '.'] + zeros(done as nat),
                "0"@ == seq!['0'],
            decreases fill - done,
        {
            result.append("0");
            done = done + 1;
            assert(zeros((done - 1) as nat) + seq!['0'] =~= zeros(done as nat));
        }
        result.append(digits);
        proof {
            let padded = zeros((scale + 1 - count) as nat) + digits@;
            assert(padded.take(1) =~= seq!['0']);
            assert(padded.skip(1) =~= zeros(fill as nat) + digits@);
            assert(result@ =~= sign + padded.take(1) + seq!['.'] + padded.skip(1));
        }
        result
    } else {
        let split = count - scale as usize;
        result.append(digits.substring_char(0, split));
        result.append(".");
        result.append(digits.substring_char(split, count));
        proof {
            assert(result@ =~= sign + digits@.take(split as int) + seq!['.'] + digits@.skip(
                split as int,
            ));
        }
        result
    }
}

} // verus!
