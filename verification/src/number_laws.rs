//! What number literals mean by their parts.

use vstd::prelude::*;
use crate::decimal;
use crate::number;
use crate::text;

verus! {

/// Text of decimal digits.
pub open spec fn digits(chars: Seq<char>) -> bool {
    forall|k: int| 0 <= k < chars.len() ==> text::ascii_digit(#[trigger] chars[k])
}

/// The parts of a decimal literal: its sign, its whole digits, those behind the
/// point, and those of the exponent. An exponent of no digits is none.
pub struct Parts {
    pub negative: bool,
    pub whole: Seq<char>,
    pub fraction: Seq<char>,
    pub exponent: Seq<char>,
}

pub open spec fn sign(negative: bool) -> Seq<char> {
    if negative {
        seq!['_']
    } else {
        Seq::empty()
    }
}

/// A literal from its parts.
pub open spec fn literal(p: Parts) -> Seq<char> {
    let point = if p.fraction.len() > 0 {
        seq!['.'] + p.fraction
    } else {
        Seq::empty()
    };
    let power = if p.exponent.len() > 0 {
        seq!['e'] + p.exponent
    } else {
        Seq::empty()
    };
    sign(p.negative) + p.whole + point + power
}

pub open spec fn proper(p: Parts) -> bool {
    &&& p.whole.len() > 0
    &&& digits(p.whole)
    &&& digits(p.fraction)
    &&& digits(p.exponent)
    &&& p.exponent.len() <= number::MAX_EXPONENT_DIGITS
}

pub open spec fn signed(negative: bool, magnitude: nat) -> int {
    if negative {
        -(magnitude as int)
    } else {
        magnitude as int
    }
}

proof fn digits_run(chars: Seq<char>, at: int, end: int)
    requires
        0 <= at <= end <= chars.len(),
        forall|k: int| at <= k < end ==> text::ascii_digit(#[trigger] chars[k]),
        end < chars.len() ==> !text::ascii_digit(chars[end]),
    ensures
        number::digits_end(chars, at) == end,
    decreases end - at,
{
    if at < end {
        digits_run(chars, at + 1, end);
        assert(text::ascii_digit(chars[at]));
    }
}

/// A decimal literal means the digits before and behind its point, scaled by
/// the exponent less the digits behind the point.
pub proof fn decimal_literals_mean_their_parts(p: Parts)
    requires
        proper(p),
    ensures
        number::number_literal(literal(p)),
        number::mantissa(literal(p)) == signed(
            p.negative,
            number::spelled(p.whole + p.fraction, 10),
        ),
        number::scale(literal(p)) == number::spelled(p.exponent, 10) - p.fraction.len(),
{
    let chars = literal(p);
    let at = sign(p.negative).len() as int;
    let w = at + p.whole.len();
    let point = if p.fraction.len() > 0 {
        seq!['.'] + p.fraction
    } else {
        Seq::empty()
    };
    let f = w + point.len();
    assert forall|k: int| at <= k < w implies text::ascii_digit(#[trigger] chars[k]) by {
        assert(chars[k] == p.whole[k - at]);
    }
    assert(text::ascii_digit(chars[at]));
    assert(number::sign_end(chars) == at) by {
        if !p.negative {
            assert(chars[0] == p.whole[0]);
        }
    }
    if w < chars.len() {
        assert(chars[w] == '.' || chars[w] == 'e');
    }
    digits_run(chars, at, w);
    if p.fraction.len() > 0 {
        assert(chars[w] == '.');
        assert forall|k: int| w + 1 <= k < f implies text::ascii_digit(#[trigger] chars[k]) by {
            assert(chars[k] == p.fraction[k - w - 1]);
        }
        if f < chars.len() {
            assert(chars[f] == 'e');
        }
        digits_run(chars, w + 1, f);
    }
    if p.exponent.len() > 0 {
        assert(chars[f] == 'e');
        assert forall|k: int| f + 1 <= k < chars.len() implies text::ascii_digit(
            #[trigger] chars[k],
        ) by {
            assert(chars[k] == p.exponent[k - f - 1]);
        }
        digits_run(chars, f + 1, chars.len() as int);
        assert(chars.skip(f + 1) =~= p.exponent);
    } else {
        assert(p.exponent.map_values(|c: char| number::digit_value(c)) =~= Seq::<nat>::empty());
        assert(number::spelled(p.exponent, 10) == 0);
    }
    assert(number::fraction_end(chars) == f);
    assert(chars.subrange(at, w) =~= p.whole);
    if p.fraction.len() > 0 {
        assert(chars.subrange(w + 1, f) =~= p.fraction);
    } else {
        assert(p.whole + p.fraction =~= p.whole);
    }
    if at + 1 < chars.len() {
        if at + 1 < w {
            assert(text::ascii_digit(chars[at + 1]));
        } else {
            assert(chars[at + 1] == '.' || chars[at + 1] == 'e');
        }
    }
    assert(!number::prefixed(chars, at, 'x', 'X'));
    assert(!number::prefixed(chars, at, 'b', 'B'));
}

/// A power of a base.
pub open spec fn power(base: nat, k: nat) -> nat
    decreases k,
{
    if k == 0 {
        1
    } else {
        power(base, (k - 1) as nat) * base
    }
}

/// Digits in a row: those in front count by their place.
pub proof fn digits_count_by_place(a: Seq<char>, b: Seq<char>, base: nat)
    ensures
        number::spelled(a + b, base) == number::spelled(a, base) * power(base, b.len())
            + number::spelled(b, base),
    decreases b.len(),
{
    let f = |c: char| number::digit_value(c);
    if b.len() == 0 {
        assert(a + b =~= a);
        assert(b.map_values(f) =~= Seq::<nat>::empty());
        assert(number::spelled(b, base) == 0);
        assert(power(base, 0) == 1);
        assert(number::spelled(a, base) * 1 == number::spelled(a, base));
    } else {
        let front = b.drop_last();
        let d = number::digit_value(b.last());
        digits_count_by_place(a, front, base);
        one_more_digit(a + front, b.last(), base);
        one_more_digit(front, b.last(), base);
        assert((a + front).push(b.last()) =~= a + b);
        assert(front.push(b.last()) =~= b);
        let x = number::spelled(a, base);
        let y = number::spelled(front, base);
        let q = power(base, front.len());
        assert((x * q + y) * base + d == x * (q * base) + (y * base + d)) by (nonlinear_arith);
    }
}

pub proof fn one_more_digit(a: Seq<char>, c: char, base: nat)
    ensures
        number::spelled(a.push(c), base) == number::spelled(a, base) * base + number::digit_value(
            c,
        ),
{
    let all = a.push(c).map_values(|c: char| number::digit_value(c));
    assert(all.drop_last() =~= a.map_values(|c: char| number::digit_value(c)));
}

/// A zero at the end of the digits behind the point does not change a number.
pub proof fn zeros_behind_the_point_do_not_matter(p: Parts)
    requires
        proper(p),
    ensures
        number::same_number(
            literal(p),
            literal(Parts { fraction: p.fraction.push('0'), ..p }),
        ),
{
    let q = Parts { fraction: p.fraction.push('0'), ..p };
    assert(proper(q)) by {
        assert forall|k: int| 0 <= k < q.fraction.len() implies text::ascii_digit(
            #[trigger] q.fraction[k],
        ) by {
            if k < p.fraction.len() {
                assert(q.fraction[k] == p.fraction[k]);
            }
        }
    }
    decimal_literals_mean_their_parts(p);
    decimal_literals_mean_their_parts(q);
    assert(p.whole + q.fraction =~= (p.whole + p.fraction).push('0'));
    one_more_digit(p.whole + p.fraction, '0', 10);
    let m = number::mantissa(literal(p));
    let n = number::mantissa(literal(q));
    assert(n == m * 10);
    reveal_with_fuel(decimal::ten_to, 2);
    assert(decimal::ten_to(1) == 10);
}

/// A zero in front of the digits of a number does not change it.
pub proof fn zeros_in_front_do_not_matter(p: Parts)
    requires
        proper(p),
    ensures
        number::same_number(literal(p), literal(Parts { whole: seq!['0'] + p.whole, ..p })),
{
    let q = Parts { whole: seq!['0'] + p.whole, ..p };
    assert(proper(q)) by {
        assert forall|k: int| 0 <= k < q.whole.len() implies text::ascii_digit(
            #[trigger] q.whole[k],
        ) by {
            if k > 0 {
                assert(q.whole[k] == p.whole[k - 1]);
            }
        }
    }
    decimal_literals_mean_their_parts(p);
    decimal_literals_mean_their_parts(q);
    let rest = p.whole + p.fraction;
    assert(q.whole + q.fraction =~= seq!['0'] + rest);
    digits_count_by_place(seq!['0'], rest, 10);
    one_more_digit(Seq::empty(), '0', 10);
    assert(Seq::<char>::empty().push('0') =~= seq!['0']);
    assert(Seq::<char>::empty().map_values(|c: char| number::digit_value(c)) =~= Seq::<
        nat,
    >::empty());
    assert(number::spelled(seq!['0'], 10) == 0);
    assert(0 * power(10, rest.len()) == 0) by (nonlinear_arith);
    assert(decimal::ten_to(0) == 1);
    let m = number::mantissa(literal(p));
    assert(m * 1 == m);
}

/// A literal in another base.
pub open spec fn based(negative: bool, letter: char, rest: Seq<char>) -> Seq<char> {
    sign(negative) + seq!['0', letter] + rest
}

/// The digits behind `0x` and `0b` count in base sixteen and two.
pub proof fn based_literals_mean_their_digits(negative: bool, letter: char, rest: Seq<char>)
    requires
        letter == 'x' || letter == 'X' || letter == 'b' || letter == 'B',
    ensures
        number::mantissa(based(negative, letter, rest)) == signed(
            negative,
            number::spelled(
                rest,
                if letter == 'x' || letter == 'X' {
                    16
                } else {
                    2
                },
            ),
        ),
        number::scale(based(negative, letter, rest)) == 0,
{
    let chars = based(negative, letter, rest);
    let at = sign(negative).len() as int;
    assert(chars[at] == '0');
    assert(chars[at + 1] == letter);
    assert(number::sign_end(chars) == at);
    assert(chars.skip(at + 2) =~= rest);
}

} // verus!
