//! Exact decimal numbers: how number literals are compared.

use vstd::prelude::*;

verus! {

/// The number that digits spell in a base, the most significant first.
pub open spec fn digits_value(digits: Seq<nat>, base: nat) -> nat
    decreases digits.len(),
{
    if digits.len() == 0 {
        0
    } else {
        digits_value(digits.drop_last(), base) * base + digits.last()
    }
}

/// A power of ten.
pub open spec fn ten_to(k: nat) -> nat
    decreases k,
{
    if k == 0 {
        1
    } else {
        10 * ten_to((k - 1) as nat)
    }
}

/// Two numbers `m * 10^e` are the same.
pub open spec fn same_scaled(m: int, e: int, n: int, f: int) -> bool {
    if e >= f {
        m * ten_to((e - f) as nat) == n
    } else {
        m == n * ten_to((f - e) as nat)
    }
}

/// A decimal number: its sign, its digits from the least significant, and the
/// power of ten that scales them.
#[derive(Debug, Clone, PartialEq, Eq)]
pub struct Decimal {
    pub negative: bool,
    pub digits: Vec<u8>,
    pub exponent: i128,
}

/// What decimal digits spell, the least significant first.
pub open spec fn low_value(digits: Seq<u8>) -> nat
    decreases digits.len(),
{
    if digits.len() == 0 {
        0
    } else {
        low_value(digits.drop_last()) + digits.last() as nat * ten_to((digits.len() - 1) as nat)
    }
}

pub open spec fn are_digits(digits: Seq<u8>) -> bool {
    forall|k: int| 0 <= k < digits.len() ==> #[trigger] digits[k] < 10
}

impl Decimal {
    /// The digits with their sign.
    pub open spec fn mantissa(&self) -> int {
        if self.negative {
            -(low_value(self.digits@) as int)
        } else {
            low_value(self.digits@) as int
        }
    }

    /// The first and the last digit are not zero, and zero has one spelling.
    pub open spec fn canonical(&self) -> bool {
        &&& are_digits(self.digits@)
        &&& self.digits@.len() > 0 ==> self.digits@[0] != 0 && self.digits@.last() != 0
        &&& self.digits@.len() == 0 ==> !self.negative && self.exponent == 0
    }
}

proof fn ten_to_positive(k: nat)
    ensures
        ten_to(k) > 0,
    decreases k,
{
    if k > 0 {
        ten_to_positive((k - 1) as nat);
    }
}

proof fn ten_to_sum(a: nat, b: nat)
    ensures
        ten_to(a + b) == ten_to(a) * ten_to(b),
    decreases b,
{
    if b > 0 {
        ten_to_sum(a, (b - 1) as nat);
        let x = ten_to(a);
        let y = ten_to((b - 1) as nat);
        assert(10 * (x * y) == x * (10 * y)) by (nonlinear_arith);
        assert((a + b - 1) as nat == a + (b - 1) as nat);
    } else {
        assert(ten_to(a) * 1 == ten_to(a));
    }
}

/// The least significant digit stands for itself.
proof fn low_value_first(digits: Seq<u8>)
    requires
        digits.len() > 0,
    ensures
        low_value(digits) == digits[0] as nat + 10 * low_value(digits.skip(1)),
    decreases digits.len(),
{
    let rest = digits.skip(1);
    if digits.len() == 1 {
        assert(digits.drop_last() =~= Seq::empty());
        assert(rest =~= Seq::empty());
        assert(low_value(digits.drop_last()) == 0);
        assert(low_value(rest) == 0);
        assert(ten_to(0) == 1);
        assert(digits.last() as nat * ten_to(0) == digits[0] as nat) by (nonlinear_arith)
            requires
                ten_to(0) == 1,
                digits.last() == digits[0],
        ;
    } else {
        low_value_first(digits.drop_last());
        assert(digits.drop_last().skip(1) =~= rest.drop_last());
        let p = ten_to((rest.len() - 1) as nat);
        let d = digits.last() as nat;
        assert(ten_to((digits.len() - 1) as nat) == 10 * p);
        assert(d * (10 * p) == 10 * (d * p)) by (nonlinear_arith);
        assert(low_value(rest) == low_value(rest.drop_last()) + d * p);
    }
}

/// Digits whose most significant one is not zero spell a positive number.
proof fn low_value_positive(digits: Seq<u8>)
    requires
        digits.len() > 0,
        digits.last() != 0,
    ensures
        low_value(digits) > 0,
{
    let p = ten_to((digits.len() - 1) as nat);
    ten_to_positive((digits.len() - 1) as nat);
    assert(digits.last() as nat * p > 0) by (nonlinear_arith)
        requires
            digits.last() != 0,
            p > 0,
    ;
}

/// Digits are determined by what they spell.
proof fn low_value_unique(a: Seq<u8>, b: Seq<u8>)
    requires
        are_digits(a),
        are_digits(b),
        a.len() > 0 ==> a.last() != 0,
        b.len() > 0 ==> b.last() != 0,
        low_value(a) == low_value(b),
    ensures
        a == b,
    decreases a.len(),
{
    if a.len() == 0 {
        if b.len() > 0 {
            low_value_positive(b);
        }
        assert(a =~= b);
    } else {
        low_value_positive(a);
        if b.len() == 0 {
            assert(low_value(b) == 0);
        } else {
            low_value_first(a);
            low_value_first(b);
            let x = a.skip(1);
            let y = b.skip(1);
            assert(a[0] < 10 && b[0] < 10);
            assert(a[0] == b[0] && low_value(x) == low_value(y));
            assert forall|k: int| 0 <= k < x.len() implies #[trigger] x[k] < 10 by {
                assert(a[k + 1] < 10);
            }
            assert forall|k: int| 0 <= k < y.len() implies #[trigger] y[k] < 10 by {
                assert(b[k + 1] < 10);
            }
            low_value_unique(x, y);
            assert(a =~= seq![a[0]] + x);
            assert(b =~= seq![b[0]] + y);
        }
    }
}

/// Two canonical decimals are the same number when they are spelled alike.
proof fn canonical_unique(a: Decimal, b: Decimal)
    requires
        a.canonical(),
        b.canonical(),
        a.exponent >= b.exponent,
    ensures
        same_scaled(a.mantissa(), a.exponent as int, b.mantissa(), b.exponent as int) == (
        a.negative == b.negative && a.digits@ == b.digits@ && a.exponent == b.exponent),
{
    let k = (a.exponent - b.exponent) as nat;
    let p = ten_to(k);
    ten_to_positive(k);
    let m = a.mantissa();
    let n = b.mantissa();
    assert(k == 0 ==> m * p == m) by (nonlinear_arith)
        requires
            k == 0 ==> p == 1,
    ;
    if m * p == n {
        if a.digits@.len() == 0 {
            assert(m == 0);
            assert(m * p == 0) by (nonlinear_arith)
                requires
                    m == 0,
            ;
            if b.digits@.len() > 0 {
                low_value_positive(b.digits@);
            }
            assert(a.digits@ =~= b.digits@);
        } else {
            low_value_positive(a.digits@);
            assert(a.negative ==> m * p < 0) by (nonlinear_arith)
                requires
                    a.negative ==> m < 0,
                    p > 0,
            ;
            assert(!a.negative ==> m * p > 0) by (nonlinear_arith)
                requires
                    !a.negative ==> m > 0,
                    p > 0,
            ;
            assert(b.digits@.len() > 0);
            low_value_positive(b.digits@);
            assert(a.negative == b.negative);
            let x = low_value(a.digits@);
            let y = low_value(b.digits@);
            assert(x * p == y) by (nonlinear_arith)
                requires
                    m * p == n,
                    a.negative == b.negative,
                    a.negative ==> m == -x && n == -y,
                    !a.negative ==> m == x && n == y,
            ;
            if k > 0 {
                let q = ten_to((k - 1) as nat);
                assert(x * p == 10 * (x * q)) by (nonlinear_arith)
                    requires
                        p == 10 * q,
                ;
                low_value_first(b.digits@);
                assert(b.digits@[0] < 10);
                assert(false);
            }
            assert(x * p == x) by (nonlinear_arith)
                requires
                    p == 1,
            ;
            low_value_unique(a.digits@, b.digits@);
        }
    }
}

fn same_digits(a: &Vec<u8>, b: &Vec<u8>) -> (same: bool)
    ensures
        same == (a@ == b@),
{
    if a.len() != b.len() {
        return false;
    }
    let mut k: usize = 0;
    while k < a.len()
        invariant
            a.len() == b.len(),
            k <= a.len(),
            forall|j: int| 0 <= j < k ==> a@[j] == b@[j],
        decreases a.len() - k,
    {
        if a[k] != b[k] {
            return false;
        }
        k = k + 1;
    }
    assert(a@ =~= b@);
    true
}

/// It does not matter which of two numbers comes first.
pub proof fn scaled_symmetric(m: int, e: int, n: int, f: int)
    ensures
        same_scaled(m, e, n, f) == same_scaled(n, f, m, e),
{
    if e == f {
        assert(ten_to(0) == 1);
        assert(m * 1 == m && n * 1 == n);
    }
}

/// Whether two decimals are the same number.
pub fn same_decimal(a: &Decimal, b: &Decimal) -> (same: bool)
    requires
        a.canonical(),
        b.canonical(),
    ensures
        same == same_scaled(a.mantissa(), a.exponent as int, b.mantissa(), b.exponent as int),
{
    proof {
        if a.exponent >= b.exponent {
            canonical_unique(*a, *b);
        } else {
            canonical_unique(*b, *a);
            scaled_symmetric(
                a.mantissa(),
                a.exponent as int,
                b.mantissa(),
                b.exponent as int,
            );
        }
    }
    a.negative == b.negative && a.exponent == b.exponent && same_digits(&a.digits, &b.digits)
}

/// The digits of `digits * base + digit`.
fn shifted(digits: &Vec<u8>, base: u8, digit: u8) -> (result: Vec<u8>)
    requires
        are_digits(digits@),
        2 <= base <= 16,
        digit < base,
    ensures
        are_digits(result@),
        low_value(result@) == low_value(digits@) * base as nat + digit as nat,
{
    let mut result: Vec<u8> = Vec::new();
    let mut carry: u8 = digit;
    let mut k: usize = 0;
    proof {
        assert(digits@.take(0) =~= Seq::<u8>::empty());
        assert(low_value(digits@.take(0)) == 0);
        assert(ten_to(0) == 1);
        assert(carry as nat * ten_to(0) == carry as nat) by (nonlinear_arith)
            requires
                ten_to(0) == 1,
        ;
        assert(low_value(digits@.take(0)) * base as nat == 0) by (nonlinear_arith)
            requires
                low_value(digits@.take(0)) == 0,
        ;
    }
    while k < digits.len()
        invariant
            are_digits(digits@),
            2 <= base <= 16,
            carry < 16,
            k <= digits.len(),
            result.len() == k,
            are_digits(result@),
            low_value(result@) + carry as nat * ten_to(k as nat) == low_value(
                digits@.take(k as int),
            ) * base as nat + digit as nat,
        decreases digits.len() - k,
    {
        assert(digits@[k as int] < 10);
        assert(digits[k as int] * base <= 144) by (nonlinear_arith)
            requires
                digits[k as int] < 10,
                base <= 16,
        ;
        let sum: u8 = digits[k] * base + carry;
        let ghost before = result@;
        let ghost p = ten_to(k as nat);
        let ghost was = carry;
        result.push(sum % 10);
        carry = sum / 10;
        proof {
            assert(result@.drop_last() =~= before);
            assert(digits@.take(k + 1).drop_last() =~= digits@.take(k as int));
            let d = digits@[k as int] as nat;
            let v = low_value(digits@.take(k as int));
            assert(low_value(digits@.take(k + 1)) == v + d * p);
            assert(low_value(result@) == low_value(before) + (sum % 10) as nat * p);
            assert(ten_to((k + 1) as nat) == 10 * p);
            assert(low_value(before) + (sum % 10) as nat * p + carry as nat * (10 * p) == (v + d
                * p) * base as nat + digit as nat) by (nonlinear_arith)
                requires
                    low_value(before) + was as nat * p == v * base as nat + digit as nat,
                    sum == d * base + was,
                    sum == 10 * carry + sum % 10,
            ;
        }
        k = k + 1;
    }
    assert(digits@.take(k as int) =~= digits@);
    let ghost total = low_value(digits@) * base as nat + digit as nat;
    while carry > 0
        invariant
            are_digits(result@),
            low_value(result@) + carry as nat * ten_to(result.len() as nat) == total,
        decreases carry,
    {
        let ghost before = result@;
        let ghost p = ten_to(result.len() as nat);
        let ghost was = carry;
        result.push(carry % 10);
        carry = carry / 10;
        proof {
            assert(result@.drop_last() =~= before);
            assert(low_value(result@) == low_value(before) + (was % 10) as nat * p);
            assert(ten_to(result.len() as nat) == 10 * p);
            assert((was % 10) as nat * p + carry as nat * (10 * p) == was as nat * p)
                by (nonlinear_arith)
                requires
                    was == 10 * carry + was % 10,
            ;
        }
    }
    assert(carry as nat * ten_to(result.len() as nat) == 0) by (nonlinear_arith)
        requires
            carry == 0,
    ;
    result
}

/// Digit values as numbers.
pub open spec fn digit_values(digits: Seq<u8>) -> Seq<nat> {
    digits.map_values(|d: u8| d as nat)
}

/// The decimal digits of what digits spell in a base.
fn converted(digits: &Vec<u8>, base: u8) -> (result: Vec<u8>)
    requires
        2 <= base <= 16,
        forall|k: int| 0 <= k < digits.len() ==> #[trigger] digits@[k] < base,
    ensures
        are_digits(result@),
        low_value(result@) == digits_value(digit_values(digits@), base as nat),
{
    let ghost all = digit_values(digits@);
    let mut result: Vec<u8> = Vec::new();
    let mut k: usize = 0;
    assert(all.take(0) =~= Seq::empty());
    while k < digits.len()
        invariant
            2 <= base <= 16,
            forall|k: int| 0 <= k < digits.len() ==> #[trigger] digits@[k] < base,
            all == digit_values(digits@),
            k <= digits.len(),
            are_digits(result@),
            low_value(result@) == digits_value(all.take(k as int), base as nat),
        decreases digits.len() - k,
    {
        result = shifted(&result, base, digits[k]);
        proof {
            assert(all.take(k + 1).drop_last() =~= all.take(k as int));
            assert(all.take(k + 1).last() == digits@[k as int] as nat);
        }
        k = k + 1;
    }
    assert(all.take(k as int) =~= all);
    result
}

/// The canonical decimal of what digits spell in a base, scaled by a power of
/// ten.
pub fn decimal_of(negative: bool, digits: &Vec<u8>, base: u8, exponent: i128) -> (result: Decimal)
    requires
        -0x4000_0000_0000_0000_0000 <= exponent <= 0x4000_0000_0000_0000_0000,
        2 <= base <= 16,
        forall|k: int| 0 <= k < digits.len() ==> #[trigger] digits@[k] < base,
    ensures
        result.canonical(),
        ({
            let value = digits_value(digit_values(digits@), base as nat) as int;
            let m = if negative {
                -value
            } else {
                value
            };
            forall|n: int, f: int|
                #[trigger] same_scaled(result.mantissa(), result.exponent as int, n, f)
                    == same_scaled(m, exponent as int, n, f)
        }),
{
    let ghost value = digits_value(digit_values(digits@), base as nat);
    let mut low = converted(digits, base);
    while low.len() > 0 && low[low.len() - 1] == 0
        invariant
            are_digits(low@),
            low_value(low@) == value,
        decreases low.len(),
    {
        let ghost before = low@;
        low.pop();
        proof {
            assert(low@ =~= before.drop_last());
            let p = ten_to((before.len() - 1) as nat);
            assert(before.last() as nat * p == 0) by (nonlinear_arith)
                requires
                    before.last() == 0,
            ;
        }
    }
    if low.len() == 0 {
        let result = Decimal { negative: false, digits: low, exponent: 0 };
        proof {
            assert(value == 0);
            assert forall|n: int, f: int| #[trigger]
                same_scaled(result.mantissa(), result.exponent as int, n, f) == same_scaled(
                0,
                exponent as int,
                n,
                f,
            ) by {
                zero_scaled(0, n, f);
                zero_scaled(exponent as int, n, f);
            }
        }
        return result;
    }
    let ghost full = low@;
    let ghost e0 = exponent as int;
    let rest = low;
    let mut k: usize = 0;
    assert(full.skip(0) =~= full);
    assert(ten_to(0) == 1);
    assert(low_value(full.skip(0)) * ten_to(0) == value) by (nonlinear_arith)
        requires
            low_value(full.skip(0)) == value,
            ten_to(0) == 1,
    ;
    while rest[k] == 0
        invariant
            rest@ == full,
            are_digits(full),
            full.len() > 0,
            full.last() != 0,
            k < rest.len(),
            low_value(full.skip(k as int)) * ten_to(k as nat) == value,
        decreases rest.len() - k,
    {
        proof {
            let x = full.skip(k as int);
            low_value_first(x);
            assert(x.skip(1) =~= full.skip(k + 1));
            let q = ten_to(k as nat);
            let y = low_value(full.skip(k + 1));
            assert(y * (10 * q) == (10 * y) * q) by (nonlinear_arith);
        }
        k = k + 1;
    }
    let mut kept: Vec<u8> = Vec::new();
    let mut j: usize = k;
    while j < rest.len()
        invariant
            rest@ == full,
            k <= j <= rest.len(),
            kept@ == full.subrange(k as int, j as int),
        decreases rest.len() - j,
    {
        kept.push(rest[j]);
        j = j + 1;
        assert(kept@ =~= full.subrange(k as int, j as int));
    }
    assert(kept@ =~= full.skip(k as int));
    let result = Decimal { negative, digits: kept, exponent: exponent + k as i128 };
    proof {
        assert forall|i: int| 0 <= i < result.digits@.len() implies #[trigger] result.digits@[i]
            < 10 by {
            assert(full[i + k] < 10);
        }
        let m = if negative {
            -(value as int)
        } else {
            value as int
        };
        let p = ten_to(k as nat);
        let r = result.mantissa();
        let v = low_value(result.digits@);
        assert(r * p == m) by (nonlinear_arith)
            requires
                v * p == value,
                negative ==> r == -v && m == -value,
                !negative ==> r == v && m == value,
        ;
        assert forall|n: int, f: int| #[trigger]
            same_scaled(result.mantissa(), result.exponent as int, n, f) == same_scaled(
            m,
            e0,
            n,
            f,
        ) by {
            rescaled(r, k as nat, e0, n, f);
        }
    }
    result
}

proof fn zero_scaled(e: int, n: int, f: int)
    ensures
        same_scaled(0, e, n, f) == (n == 0),
{
    if e >= f {
    } else {
        let p = ten_to((f - e) as nat);
        ten_to_positive((f - e) as nat);
        assert((n * p == 0) == (n == 0)) by (nonlinear_arith)
            requires
                p > 0,
        ;
    }
}

/// Moving a power of ten from the digits to the scale keeps the number.
proof fn rescaled(m: int, k: nat, e: int, n: int, f: int)
    ensures
        same_scaled(m, e + k, n, f) == same_scaled(m * ten_to(k), e, n, f),
{
    let p = ten_to(k);
    ten_to_positive(k);
    if e >= f {
        let q = ten_to((e - f) as nat);
        ten_to_sum((e - f) as nat, k);
        assert(ten_to((e + k - f) as nat) == q * p);
        assert(m * (q * p) == (m * p) * q) by (nonlinear_arith);
    } else if e + k >= f {
        let q = ten_to((e + k - f) as nat);
        let r = ten_to((f - e) as nat);
        ten_to_sum((e + k - f) as nat, (f - e) as nat);
        ten_to_positive((f - e) as nat);
        assert(p == q * r);
        assert((m * q == n) == (m * p == n * r)) by (nonlinear_arith)
            requires
                p == q * r,
                r > 0,
        ;
    } else {
        let q = ten_to((f - e - k) as nat);
        let r = ten_to((f - e) as nat);
        ten_to_sum((f - e - k) as nat, k);
        assert(r == q * p);
        assert((m == n * q) == (m * p == n * r)) by (nonlinear_arith)
            requires
                r == q * p,
                p > 0,
        ;
    }
}

} // verus!
