//! Number literals.

use vstd::prelude::*;
use crate::decimal;
use crate::decimal::{decimal_of, same_decimal, Decimal};
use crate::text::{chars_of, is_ascii_digit, same_text};

verus! {

/// A number, kept as the literal that spells it. Two literals that spell the
/// same number are the same number.
///
/// A leading underscore is the sign of a negative literal. Decimal literals
/// have an optional fraction and an optional exponent of at most nine digits;
/// `0x` and `0b` introduce hexadecimal and binary integers.
#[derive(Debug, Clone, Eq)]
pub struct Number {
    pub literal: String,
}

pub open spec fn hex_digit(c: char) -> bool {
    ||| crate::text::ascii_digit(c)
    ||| 'a' <= c <= 'f'
    ||| 'A' <= c <= 'F'
}

pub open spec fn bit_digit(c: char) -> bool {
    c == '0' || c == '1'
}

/// The end of the run of scalars from `at` that satisfy `accept`.
pub open spec fn run_end(chars: Seq<char>, at: int, accept: spec_fn(char) -> bool) -> int
    decreases chars.len() - at,
{
    if 0 <= at < chars.len() && accept(chars[at]) {
        run_end(chars, at + 1, accept)
    } else {
        at
    }
}

/// The end of the run of decimal digits from `at`.
pub open spec fn digits_end(chars: Seq<char>, at: int) -> int {
    run_end(chars, at, |c: char| crate::text::ascii_digit(c))
}

/// The longest exponent that a literal may spell.
pub const MAX_EXPONENT_DIGITS: usize = 9;

/// `true` when the unsigned literal from `at` spells a decimal number.
pub open spec fn decimal_literal(chars: Seq<char>, at: int) -> bool {
    let whole = digits_end(chars, at);
    let fraction = if whole < chars.len() && chars[whole] == '.' {
        digits_end(chars, whole + 1)
    } else {
        whole
    };
    &&& whole > at
    &&& fraction != whole ==> fraction > whole + 1
    &&& fraction < chars.len() ==> {
        let end = digits_end(chars, fraction + 1);
        &&& chars[fraction] == 'e' || chars[fraction] == 'E'
        &&& end == chars.len()
        &&& 1 <= end - (fraction + 1) <= MAX_EXPONENT_DIGITS
    }
}

/// `true` when the unsigned literal from `at` has a base prefix.
pub open spec fn prefixed(chars: Seq<char>, at: int, lower: char, upper: char) -> bool {
    &&& at + 1 < chars.len()
    &&& chars[at] == '0'
    &&& chars[at + 1] == lower || chars[at + 1] == upper
}

/// `true` when a spelling is a number literal.
pub open spec fn number_literal(chars: Seq<char>) -> bool {
    let at: int = if chars.len() > 0 && chars[0] == '_' {
        1
    } else {
        0
    };
    if prefixed(chars, at, 'x', 'X') {
        run_end(chars, at + 2, |c: char| hex_digit(c)) == chars.len() && chars.len() > at + 2
    } else if prefixed(chars, at, 'b', 'B') {
        run_end(chars, at + 2, |c: char| bit_digit(c)) == chars.len() && chars.len() > at + 2
    } else {
        decimal_literal(chars, at)
    }
}

/// Where the digits of a literal begin: behind the sign.
pub open spec fn sign_end(chars: Seq<char>) -> int {
    if chars.len() > 0 && chars[0] == '_' {
        1
    } else {
        0
    }
}

/// The value of a digit, in any base up to sixteen.
pub open spec fn digit_value(c: char) -> nat {
    if crate::text::ascii_digit(c) {
        (c as int - '0' as int) as nat
    } else if 'a' <= c <= 'f' {
        (c as int - 'a' as int + 10) as nat
    } else if 'A' <= c <= 'F' {
        (c as int - 'A' as int + 10) as nat
    } else {
        0
    }
}

/// What digits spell in a base.
pub open spec fn spelled(chars: Seq<char>, base: nat) -> nat {
    decimal::digits_value(chars.map_values(|c: char| digit_value(c)), base)
}

/// The end of the whole digits of a decimal literal.
pub open spec fn whole_end(chars: Seq<char>) -> int {
    digits_end(chars, sign_end(chars))
}

/// The end of the fraction of a decimal literal.
pub open spec fn fraction_end(chars: Seq<char>) -> int {
    let whole = whole_end(chars);
    if whole < chars.len() && chars[whole] == '.' {
        digits_end(chars, whole + 1)
    } else {
        whole
    }
}

/// The digits of a decimal literal, without the point.
pub open spec fn decimal_digits(chars: Seq<char>) -> Seq<char> {
    let at = sign_end(chars);
    let whole = whole_end(chars);
    let fraction = fraction_end(chars);
    if fraction > whole {
        chars.subrange(at, whole) + chars.subrange(whole + 1, fraction)
    } else {
        chars.subrange(at, whole)
    }
}

/// The digits of a literal as a whole number with its sign.
pub open spec fn mantissa(chars: Seq<char>) -> int {
    let at = sign_end(chars);
    let magnitude = if prefixed(chars, at, 'x', 'X') {
        spelled(chars.skip(at + 2), 16)
    } else if prefixed(chars, at, 'b', 'B') {
        spelled(chars.skip(at + 2), 2)
    } else {
        spelled(decimal_digits(chars), 10)
    };
    if at > 0 {
        -(magnitude as int)
    } else {
        magnitude as int
    }
}

/// The power of ten that scales the digits of a literal.
pub open spec fn scale(chars: Seq<char>) -> int {
    let at = sign_end(chars);
    let whole = whole_end(chars);
    let fraction = fraction_end(chars);
    if prefixed(chars, at, 'x', 'X') || prefixed(chars, at, 'b', 'B') {
        0
    } else {
        let exponent = if fraction < chars.len() {
            spelled(chars.skip(fraction + 1), 10) as int
        } else {
            0
        };
        if fraction > whole {
            exponent - (fraction - whole - 1)
        } else {
            exponent
        }
    }
}

/// Whether two literals spell the same number.
pub open spec fn same_number(a: Seq<char>, b: Seq<char>) -> bool {
    if number_literal(a) && number_literal(b) {
        decimal::same_scaled(mantissa(a), scale(a), mantissa(b), scale(b))
    } else {
        a == b
    }
}

/// A literal spells the same number as itself.
pub proof fn same_number_reflexive(a: Seq<char>)
    ensures
        same_number(a, a),
{
    assert(decimal::ten_to(0) == 1);
    assert(mantissa(a) * 1 == mantissa(a));
}

proof fn run_accepts(chars: Seq<char>, at: int, accept: spec_fn(char) -> bool)
    requires
        0 <= at <= chars.len(),
    ensures
        at <= run_end(chars, at, accept) <= chars.len(),
        forall|k: int|
            at <= k < run_end(chars, at, accept) ==> accept(#[trigger] chars[k]),
    decreases chars.len() - at,
{
    if at < chars.len() && accept(chars[at]) {
        run_accepts(chars, at + 1, accept);
    }
}

/// The values of digits.
fn digits_between(chars: &Vec<char>, lo: usize, hi: usize) -> (digits: Vec<u8>)
    requires
        lo <= hi <= chars.len(),
        forall|k: int| lo <= k < hi ==> hex_digit(#[trigger] chars@[k]),
    ensures
        decimal::digit_values(digits@) == chars@.subrange(lo as int, hi as int).map_values(
            |c: char| digit_value(c),
        ),
        digits.len() == hi - lo,
        forall|k: int|
            0 <= k < digits.len() ==> #[trigger] digits@[k] == digit_value(chars@[lo + k]),
{
    let mut digits: Vec<u8> = Vec::new();
    let mut k: usize = lo;
    while k < hi
        invariant
            lo <= k <= hi <= chars.len(),
            digits.len() == k - lo,
            forall|k: int| lo <= k < hi ==> hex_digit(#[trigger] chars@[k]),
            forall|j: int|
                0 <= j < digits.len() ==> #[trigger] digits@[j] == digit_value(chars@[lo + j]),
        decreases hi - k,
    {
        let c = chars[k];
        assert(hex_digit(chars@[k as int]));
        let digit: u8 = if is_ascii_digit(c) {
            (c as u32 - 48) as u8
        } else if 'a' <= c && c <= 'f' {
            (c as u32 - 87) as u8
        } else {
            (c as u32 - 55) as u8
        };
        digits.push(digit);
        k = k + 1;
    }
    assert(decimal::digit_values(digits@) =~= chars@.subrange(lo as int, hi as int).map_values(
        |c: char| digit_value(c),
    ));
    digits
}

/// What at most nine decimal digits spell.
fn small_number(digits: &Vec<u8>) -> (value: i128)
    requires
        digits.len() <= MAX_EXPONENT_DIGITS,
        forall|k: int| 0 <= k < digits.len() ==> #[trigger] digits@[k] < 10,
    ensures
        value == decimal::digits_value(decimal::digit_values(digits@), 10),
        0 <= value < 0x1_0000_0000_0000_0000,
{
    let ghost all = decimal::digit_values(digits@);
    let mut value: i128 = 0;
    let mut bound: i128 = 1;
    let mut k: usize = 0;
    assert(all.take(0) =~= Seq::empty());
    while k < digits.len()
        invariant
            digits.len() <= MAX_EXPONENT_DIGITS,
            forall|k: int| 0 <= k < digits.len() ==> #[trigger] digits@[k] < 10,
            all == decimal::digit_values(digits@),
            k <= digits.len(),
            value == decimal::digits_value(all.take(k as int), 10),
            0 <= value < bound,
            bound <= 1 || k > 0,
            k == 0 ==> bound == 1,
            k == 1 ==> bound == 10,
            k == 2 ==> bound == 100,
            k == 3 ==> bound == 1000,
            k == 4 ==> bound == 10000,
            k == 5 ==> bound == 100000,
            k == 6 ==> bound == 1000000,
            k == 7 ==> bound == 10000000,
            k == 8 ==> bound == 100000000,
            k == 9 ==> bound == 1000000000,
        decreases digits.len() - k,
    {
        proof {
            assert(all.take(k + 1).drop_last() =~= all.take(k as int));
            assert(all.take(k + 1).last() == digits@[k as int] as nat);
        }
        value = value * 10 + digits[k] as i128;
        bound = bound * 10;
        k = k + 1;
    }
    assert(all.take(k as int) =~= all);
    value
}

fn skip_digits(chars: &Vec<char>, at: usize) -> (end: usize)
    requires
        at <= chars.len(),
    ensures
        end == digits_end(chars@, at as int),
        at <= end <= chars.len(),
{
    let mut i: usize = at;
    let ghost accept = |c: char| crate::text::ascii_digit(c);
    while i < chars.len() && is_ascii_digit(chars[i])
        invariant
            at <= i <= chars.len(),
            accept == |c: char| crate::text::ascii_digit(c),
            run_end(chars@, at as int, accept) == run_end(chars@, i as int, accept),
        decreases chars.len() - i,
    {
        i = i + 1;
    }
    i
}

fn skip_base(chars: &Vec<char>, at: usize, hex: bool) -> (end: usize)
    requires
        at <= chars.len(),
    ensures
        hex ==> end == run_end(chars@, at as int, |c: char| hex_digit(c)),
        !hex ==> end == run_end(chars@, at as int, |c: char| bit_digit(c)),
{
    let mut i: usize = at;
    let ghost accept = if hex {
        |c: char| hex_digit(c)
    } else {
        |c: char| bit_digit(c)
    };
    loop
        invariant
            at <= i <= chars.len(),
            accept == if hex { |c: char| hex_digit(c) } else { |c: char| bit_digit(c) },
            run_end(chars@, at as int, accept) == run_end(chars@, i as int, accept),
        ensures
            i == run_end(chars@, at as int, accept),
        decreases chars.len() - i,
    {
        if i >= chars.len() {
            break;
        }
        let c = chars[i];
        let accepted = if hex {
            is_ascii_digit(c) || ('a' <= c && c <= 'f') || ('A' <= c && c <= 'F')
        } else {
            c == '0' || c == '1'
        };
        if !accepted {
            break;
        }
        i = i + 1;
    }
    i
}

/// A decimal is the number that a literal spells.
#[verifier::opaque]
pub open spec fn spells(chars: Seq<char>, decimal: Decimal) -> bool {
    decimal.canonical() && forall|n: int, f: int|
        #[trigger] decimal::same_scaled(decimal.mantissa(), decimal.exponent as int, n, f)
            == decimal::same_scaled(mantissa(chars), scale(chars), n, f)
}

/// The number of a literal with a base prefix.
fn based_decimal(chars: &Vec<char>, at: usize, hex: bool) -> (decimal: Decimal)
    requires
        number_literal(chars@),
        at == sign_end(chars@),
        hex ==> prefixed(chars@, at as int, 'x', 'X'),
        !hex ==> prefixed(chars@, at as int, 'b', 'B'),
    ensures
        spells(chars@, decimal),
{
    proof {
        reveal(spells);
        run_accepts(chars@, at + 2, |c: char| hex_digit(c));
        run_accepts(chars@, at + 2, |c: char| bit_digit(c));
        assert(chars@.subrange(at + 2, chars@.len() as int) =~= chars@.skip(at + 2));
    }
    let digits = digits_between(chars, at + 2, chars.len());
    let base: u8 = if hex {
        16
    } else {
        2
    };
    decimal_of(at > 0, &digits, base, 0)
}

/// The number of a decimal literal.
fn plain_decimal(chars: &Vec<char>, at: usize) -> (decimal: Decimal)
    requires
        number_literal(chars@),
        at == sign_end(chars@),
        !prefixed(chars@, at as int, 'x', 'X'),
        !prefixed(chars@, at as int, 'b', 'B'),
    ensures
        spells(chars@, decimal),
{
    let whole = skip_digits(chars, at);
    proof {
        run_accepts(chars@, at as int, |c: char| crate::text::ascii_digit(c));
    }
    let mut digits = digits_between(chars, at, whole);
    let mut fraction: usize = whole;
    let mut exponent: i128 = 0;
    let ghost first = digits@;
    if whole < chars.len() && chars[whole] == '.' {
        fraction = skip_digits(chars, whole + 1);
        proof {
            run_accepts(chars@, whole + 1, |c: char| crate::text::ascii_digit(c));
        }
        let mut more = digits_between(chars, whole + 1, fraction);
        let ghost second = more@;
        digits.append(&mut more);
        exponent = -((fraction - whole - 1) as i128);
        assert(digits@ =~= first + second);
    }
    assert(whole == whole_end(chars@));
    assert(fraction == fraction_end(chars@));
    assert(decimal::digit_values(digits@) =~= decimal_digits(chars@).map_values(
        |c: char| digit_value(c),
    ));
    if fraction < chars.len() {
        proof {
            run_accepts(chars@, fraction + 1, |c: char| crate::text::ascii_digit(c));
            assert(chars@.subrange(fraction + 1, chars@.len() as int) =~= chars@.skip(
                fraction + 1,
            ));
        }
        let spelled = digits_between(chars, fraction + 1, chars.len());
        exponent = exponent + small_number(&spelled);
    }
    assert(exponent == scale(chars@));
    proof {
        reveal(spells);
    }
    decimal_of(at > 0, &digits, 10, exponent)
}

/// Whether all that is wrong with a decimal literal is that its exponent is too
/// long.
pub open spec fn overlong(chars: Seq<char>) -> bool {
    let at = sign_end(chars);
    let whole = whole_end(chars);
    let fraction = fraction_end(chars);
    let end = digits_end(chars, fraction + 1);
    &&& !prefixed(chars, at, 'x', 'X')
    &&& !prefixed(chars, at, 'b', 'B')
    &&& whole > at
    &&& fraction != whole ==> fraction > whole + 1
    &&& fraction < chars.len()
    &&& chars[fraction] == 'e' || chars[fraction] == 'E'
    &&& end == chars.len()
    &&& end - (fraction + 1) > MAX_EXPONENT_DIGITS
}

/// What is reported of a spelling that is no number literal.
pub open spec fn refusal(chars: Seq<char>) -> Seq<char> {
    "invalid number literal `"@ + chars + "`: "@ + if overlong(chars) {
        "exponent is out of range"@
    } else {
        "digits are missing or misplaced"@
    }
}

/// Whether all that is wrong with a decimal literal is that its exponent is too
/// long.
fn is_overlong(chars: &Vec<char>) -> (b: bool)
    ensures
        b == overlong(chars@),
{
    let at: usize = if chars.len() > 0 && chars[0] == '_' {
        1
    } else {
        0
    };
    if at + 1 < chars.len() && chars[at] == '0' && (chars[at + 1] == 'x' || chars[at + 1] == 'X'
        || chars[at + 1] == 'b' || chars[at + 1] == 'B') {
        return false;
    }
    let whole = skip_digits(chars, at);
    if whole == at {
        return false;
    }
    let mut fraction: usize = whole;
    if whole < chars.len() && chars[whole] == '.' {
        fraction = skip_digits(chars, whole + 1);
        if fraction == whole + 1 {
            return false;
        }
    }
    if fraction >= chars.len() || (chars[fraction] != 'e' && chars[fraction] != 'E') {
        return false;
    }
    let end = skip_digits(chars, fraction + 1);
    end == chars.len() && end - (fraction + 1) > MAX_EXPONENT_DIGITS
}

/// What is reported of a spelling that is no number literal.
pub fn number_refusal(text: &str) -> (message: String)
    ensures
        message@ == refusal(text@),
{
    let chars = chars_of(text);
    let mut message = "invalid number literal `".to_owned();
    message.append(text);
    message.append("`: ");
    if is_overlong(&chars) {
        message.append("exponent is out of range");
    } else {
        message.append("digits are missing or misplaced");
    }
    message
}

impl Number {
    /// Reads a number literal.
    pub fn parse(text: &str) -> (result: Option<Number>)
        ensures
            match result {
                Some(number) => number_literal(text@) && number.literal@ == text@,
                None => !number_literal(text@),
            },
    {
        let chars = chars_of(text);
        let at: usize = if chars.len() > 0 && chars[0] == '_' {
            1
        } else {
            0
        };
        let based = at + 1 < chars.len() && chars[at] == '0';
        if based && (chars[at + 1] == 'x' || chars[at + 1] == 'X') {
            let end = skip_base(&chars, at + 2, true);
            return if end == chars.len() && chars.len() > at + 2 {
                Some(Number { literal: text.to_owned() })
            } else {
                None
            };
        }
        if based && (chars[at + 1] == 'b' || chars[at + 1] == 'B') {
            let end = skip_base(&chars, at + 2, false);
            return if end == chars.len() && chars.len() > at + 2 {
                Some(Number { literal: text.to_owned() })
            } else {
                None
            };
        }
        let whole = skip_digits(&chars, at);
        if whole == at {
            return None;
        }
        let mut fraction: usize = whole;
        if whole < chars.len() && chars[whole] == '.' {
            fraction = skip_digits(&chars, whole + 1);
            if fraction == whole + 1 {
                return None;
            }
        }
        if fraction < chars.len() {
            if chars[fraction] != 'e' && chars[fraction] != 'E' {
                return None;
            }
            let end = skip_digits(&chars, fraction + 1);
            if end != chars.len() || end == fraction + 1 || end - (fraction + 1)
                > MAX_EXPONENT_DIGITS {
                return None;
            }
        }
        Some(Number { literal: text.to_owned() })
    }

    /// The exact number, where the literal is one.
    fn decimal(&self) -> (found: Option<Decimal>)
        ensures
            found is Some == number_literal(self.literal@),
            found matches Some(decimal) ==> spells(self.literal@, decimal),
    {
        if Number::parse(self.literal.as_str()).is_none() {
            return None;
        }
        let chars = chars_of(self.literal.as_str());
        let at: usize = if chars.len() > 0 && chars[0] == '_' {
            1
        } else {
            0
        };
        let based = at + 1 < chars.len() && chars[at] == '0';
        if based && (chars[at + 1] == 'x' || chars[at + 1] == 'X') {
            Some(based_decimal(&chars, at, true))
        } else if based && (chars[at + 1] == 'b' || chars[at + 1] == 'B') {
            Some(based_decimal(&chars, at, false))
        } else {
            Some(plain_decimal(&chars, at))
        }
    }

    /// Whether two literals spell the same number.
    pub fn same(&self, other: &Number) -> (b: bool)
        ensures
            b == same_number(self.literal@, other.literal@),
    {
        match (self.decimal(), other.decimal()) {
            (Some(a), Some(b)) => {
                proof {
                    reveal(spells);
                    let x = self.literal@;
                    let y = other.literal@;
                    let (m, e) = (a.mantissa(), a.exponent as int);
                    let (n, f) = (b.mantissa(), b.exponent as int);
                    assert(decimal::same_scaled(m, e, n, f) == decimal::same_scaled(
                        mantissa(x),
                        scale(x),
                        n,
                        f,
                    ));
                    decimal::scaled_symmetric(mantissa(x), scale(x), n, f);
                    assert(decimal::same_scaled(n, f, mantissa(x), scale(x))
                        == decimal::same_scaled(mantissa(y), scale(y), mantissa(x), scale(x)));
                    decimal::scaled_symmetric(mantissa(x), scale(x), mantissa(y), scale(y));
                }
                same_decimal(&a, &b)
            },
            _ => same_text(self.literal.as_str(), other.literal.as_str()),
        }
    }
}

impl PartialEq for Number {
    fn eq(&self, other: &Self) -> (same: bool) {
        self.same(other)
    }
}

impl vstd::std_specs::cmp::PartialEqSpecImpl for Number {
    open spec fn obeys_eq_spec() -> bool {
        true
    }

    open spec fn eq_spec(&self, other: &Self) -> bool {
        same_number(self.literal@, other.literal@)
    }
}

} // verus!
