//! Decimal notation: what a sequence of characters denotes as an integer, and
//! the canonical text of an integer.

use vstd::arithmetic::power::pow;
use vstd::prelude::*;

verus! {

/// `c` is one of the ten decimal digits.
pub open spec fn is_digit(c: char) -> bool {
    '0' <= c && c <= '9'
}

/// The number that the digit `c` stands for.
pub open spec fn digit_value(c: char) -> nat
    recommends
        is_digit(c),
{
    (c as int - '0' as int) as nat
}

/// The digit that stands for `d`.
pub open spec fn digit_char(d: nat) -> char
    recommends
        d < 10,
{
    (d + '0' as nat) as char
}

/// Every character of `s` is a decimal digit.
pub open spec fn all_digits(s: Seq<char>) -> bool {
    forall|i: int| 0 <= i < s.len() ==> is_digit(#[trigger] s[i])
}

/// The number written by the digits of `s`, most significant first. An
/// underscore is a separator and adds nothing; the empty sequence denotes 0.
pub open spec fn numeral_value(s: Seq<char>) -> nat
    decreases s.len(),
{
    if s.len() == 0 {
        0
    } else if s.last() == '_' {
        numeral_value(s.drop_last())
    } else {
        numeral_value(s.drop_last()) * 10 + digit_value(s.last())
    }
}

/// The digits of `n`, most significant first, with no leading zero; `0` is
/// written as the single digit `0`.
pub open spec fn natural_text(n: nat) -> Seq<char>
    decreases n,
{
    if n < 10 {
        seq![digit_char(n)]
    } else {
        natural_text(n / 10).push(digit_char(n % 10))
    }
}

/// `n` zero digits.
pub open spec fn zeros(n: nat) -> Seq<char> {
    Seq::new(n, |i: int| '0')
}

/// The canonical decimal text of `v`: a minus sign for a negative value, then
/// the digits of its magnitude.
pub open spec fn integer_text(v: int) -> Seq<char> {
    if v < 0 {
        seq!['-'] + natural_text((-v) as nat)
    } else {
        natural_text(v as nat)
    }
}

/// `s` is an unsigned numeral: it is not empty, does not begin with a
/// separator, and holds digits and separators only.
pub open spec fn is_numeral(s: Seq<char>) -> bool {
    &&& s.len() > 0
    &&& s[0] != '_'
    &&& forall|i: int| 0 <= i < s.len() ==> is_digit(#[trigger] s[i]) || s[i] == '_'
}

/// What is left of `s` once a leading minus sign is taken off. The sign stays
/// where a plus sign follows it, so that `-+1` is no numeral.
pub open spec fn after_minus(s: Seq<char>) -> Seq<char> {
    if s.len() > 0 && s[0] == '-' && !(s.len() > 1 && s[1] == '+') {
        s.skip(1)
    } else {
        s
    }
}

/// What is left of `s` once a leading plus sign is taken off. The sign stays
/// where a second plus sign follows it.
pub open spec fn after_plus(s: Seq<char>) -> Seq<char> {
    if s.len() > 0 && s[0] == '+' && !(s.len() > 1 && s[1] == '+') {
        s.skip(1)
    } else {
        s
    }
}

/// The integer that `s` denotes as signed decimal text, if it denotes one: an
/// optional minus sign, an optional plus sign, then an unsigned numeral.
pub open spec fn parsed_integer(s: Seq<char>) -> Option<int> {
    let negative = s.len() > 0 && s[0] == '-';
    let body = after_plus(after_minus(s));
    if is_numeral(body) {
        let magnitude = numeral_value(body) as int;
        Some(
            if negative {
                -magnitude
            } else {
                magnitude
            },
        )
    } else {
        None
    }
}

/// The text of a natural number is made of digits and is not empty.
pub proof fn lemma_natural_text_digits(n: nat)
    ensures
        natural_text(n).len() >= 1,
        all_digits(natural_text(n)),
    decreases n,
{
    if n < 10 {
        assert(is_digit(digit_char(n)));
    } else {
        lemma_natural_text_digits(n / 10);
        assert(is_digit(digit_char(n % 10)));
    }
}

/// The text of an integer begins with a minus sign exactly when the integer
/// is negative, and the rest is the text of its magnitude.
pub proof fn lemma_integer_text_shape(v: int)
    ensures
        integer_text(v).len() >= 1,
        (integer_text(v)[0] == '-') == (v < 0),
        v < 0 ==> integer_text(v).skip(1) == natural_text((-v) as nat),
        v >= 0 ==> integer_text(v) == natural_text(v as nat),
{
    if v < 0 {
        lemma_natural_text_digits((-v) as nat);
        assert(integer_text(v).skip(1) =~= natural_text((-v) as nat));
    } else {
        lemma_natural_text_digits(v as nat);
        assert(is_digit(natural_text(v as nat)[0]));
    }
}

/// A digit stands for a number below ten, and that number's digit is the
/// digit itself.
pub proof fn lemma_digit_round_trip(c: char)
    requires
        is_digit(c),
    ensures
        digit_value(c) < 10,
        digit_char(digit_value(c)) == c,
{
}

/// Digits write the number that they are the text of, but for zeros in
/// front: `x` is the canonical text of its value behind as many zeros as make
/// up the length.
pub proof fn lemma_digits_are_padded_text(x: Seq<char>)
    requires
        x.len() >= 1,
        all_digits(x),
    ensures
        natural_text(numeral_value(x)).len() <= x.len(),
        x == zeros((x.len() - natural_text(numeral_value(x)).len()) as nat) + natural_text(
            numeral_value(x),
        ),
    decreases x.len(),
{
    let c = x.last();
    let y = x.drop_last();
    let d = digit_value(c);
    assert(is_digit(c));
    lemma_digit_round_trip(c);
    assert(numeral_value(x) == numeral_value(y) * 10 + d);
    if y.len() == 0 {
        assert(numeral_value(y) == 0);
        assert(natural_text(d) =~= seq![c]);
        assert(x =~= zeros(0) + seq![c]);
    } else {
        assert(all_digits(y)) by {
            assert forall|i: int| 0 <= i < y.len() implies is_digit(#[trigger] y[i]) by {
                assert(y[i] == x[i]);
            }
        }
        lemma_digits_are_padded_text(y);
        let vy = numeral_value(y);
        let ty = natural_text(vy);
        let k = (y.len() - ty.len()) as nat;
        if vy == 0 {
            assert(ty =~= seq!['0']);
            assert(y =~= zeros(y.len()));
            assert(natural_text(d) =~= seq![c]);
            assert(x =~= zeros(y.len()) + seq![c]);
        } else {
            let v = vy * 10 + d;
            assert(v >= 10);
            assert(v / 10 == vy && v % 10 == d);
            assert(natural_text(v) == ty.push(c));
            assert(x =~= y.push(c));
            assert((zeros(k) + ty).push(c) =~= zeros(k) + ty.push(c));
        }
    }
}

/// Digits with no needless zero in front are the canonical text of their
/// value.
pub proof fn lemma_canonical_digits_are_text(x: Seq<char>)
    requires
        x.len() >= 1,
        all_digits(x),
        x.len() == 1 || x[0] != '0',
    ensures
        natural_text(numeral_value(x)) == x,
{
    lemma_digits_are_padded_text(x);
    let t = natural_text(numeral_value(x));
    let k = (x.len() - t.len()) as nat;
    lemma_natural_text_digits(numeral_value(x));
    if k > 0 {
        assert((zeros(k) + t)[0] == '0');
    }
    assert(x =~= t);
}

/// The canonical text of a number denotes that number.
pub proof fn lemma_value_of_natural_text(n: nat)
    ensures
        numeral_value(natural_text(n)) == n,
    decreases n,
{
    if n < 10 {
        let t = natural_text(n);
        assert(t.drop_last() =~= Seq::<char>::empty());
        assert(numeral_value(t.drop_last()) == 0);
        assert(digit_value(digit_char(n)) == n);
    } else {
        let t = natural_text(n);
        lemma_value_of_natural_text(n / 10);
        assert(t.drop_last() =~= natural_text(n / 10));
        assert(digit_value(digit_char(n % 10)) == n % 10);
    }
}

/// Zeros in front of digits do not change what they denote.
pub proof fn lemma_value_behind_zeros(k: nat, x: Seq<char>)
    ensures
        numeral_value(zeros(k) + x) == numeral_value(x),
    decreases x.len(), k,
{
    let s = zeros(k) + x;
    if x.len() == 0 {
        assert(s =~= zeros(k));
        if k > 0 {
            assert(zeros(k).drop_last() =~= zeros((k - 1) as nat) + x);
            lemma_value_behind_zeros((k - 1) as nat, x);
            assert(zeros(k).last() == '0');
        }
    } else {
        assert(s.last() == x.last());
        assert(s.drop_last() =~= zeros(k) + x.drop_last());
        lemma_value_behind_zeros(k, x.drop_last());
    }
}

/// Ten times a number is written as the number with a zero behind it.
pub proof fn lemma_natural_text_times_ten(n: nat)
    requires
        n > 0,
    ensures
        natural_text(n * 10) == natural_text(n).push('0'),
{
    assert((n * 10) / 10 == n);
    assert((n * 10) % 10 == 0);
}

/// A power of ten times a number is written as the number with as many zeros
/// behind it as the power counts.
pub proof fn lemma_natural_text_times_power(n: nat, k: nat)
    requires
        n > 0,
    ensures
        n * pow(10, k) > 0,
        natural_text((n * pow(10, k)) as nat) == natural_text(n) + zeros(k),
    decreases k,
{
    reveal(pow);
    if k == 0 {
        assert(pow(10, 0) == 1);
        assert(natural_text(n) + zeros(0) =~= natural_text(n));
    } else {
        lemma_natural_text_times_power(n, (k - 1) as nat);
        let lower = n * pow(10, (k - 1) as nat);
        assert(pow(10, k) == 10 * pow(10, (k - 1) as nat));
        assert(n * pow(10, k) == lower * 10) by (nonlinear_arith)
            requires
                pow(10, k) == 10 * pow(10, (k - 1) as nat),
                lower == n * pow(10, (k - 1) as nat),
        ;
        lemma_natural_text_times_ten(lower as nat);
        assert((natural_text(n) + zeros((k - 1) as nat)).push('0') =~= natural_text(n) + zeros(
            k,
        ));
    }
}

} // verus!
