//! Arithmetic on 64-bit floating-point numbers, exact to the last digit: sums,
//! products and quotients, each rounded to the nearest number that there is.

use crate::float_bits::{exponent_bits, is_finite, is_negative, scaled_size};
use vstd::arithmetic::power2::{
    lemma2_to64, lemma2_to64_rest, lemma_pow2_adds, lemma_pow2_pos, pow2,
};
use vstd::prelude::*;

verus! {

/// A quotient to the nearest whole number; the even one where two are as near.
pub open spec fn nearest_even(num: nat, den: nat) -> nat {
    let q = num / den;
    let r = num % den;
    if 2 * r < den || (2 * r == den && q % 2 == 0) {
        q
    } else {
        q + 1
    }
}

/// How many binary digits a number has.
pub open spec fn digits(n: nat) -> nat
    decreases n,
{
    if n == 0 {
        0
    } else {
        1 + digits(n / 2)
    }
}

/// How many of the last binary digits of a number a floating-point number cannot
/// hold: all but the first 53.
pub open spec fn spare_digits(n: nat) -> nat {
    if digits(n) > 53 {
        (digits(n) - 53) as nat
    } else {
        0
    }
}

/// The floating-point number nearest to a quotient, the even one where two are as
/// near. Both are given times two to the power 1074, which makes a floating-point
/// number whole.
pub open spec fn nearest_double(num: nat, den: nat) -> nat {
    let unit = pow2(spare_digits(num / den));
    nearest_even(num, den * unit) * unit
}

/// The product of two floating-point numbers.
pub open spec fn double_product(a: nat, b: nat) -> nat {
    nearest_double(a * b, pow2(1074))
}

/// The quotient of two floating-point numbers.
pub open spec fn double_quotient(a: nat, b: nat) -> nat {
    nearest_double(a * pow2(1074), b)
}

/// A floating-point number without its sign: `mantissa` times two to the power
/// `exponent`, over two to the power 1074.
#[derive(Debug, Clone, Copy, PartialEq, Eq, Structural)]
pub struct Double {
    pub mantissa: u64,
    pub exponent: u32,
}

impl Double {
    /// The number times two to the power 1074.
    pub open spec fn scaled(self) -> nat {
        self.mantissa as nat * pow2(self.exponent as nat)
    }

    /// Whether the mantissa is one that a floating-point number can hold.
    pub open spec fn wf(self) -> bool {
        self.mantissa < 0x20_0000_0000_0000
    }
}

/// Where a common factor goes, the nearest number stays.
proof fn lemma_nearest_even_cancels(num: nat, den: nat, f: nat)
    requires
        den > 0,
        f > 0,
    ensures
        nearest_even(num * f, den * f) == nearest_even(num, den),
{
    let q = num / den;
    let r = num % den;
    vstd::arithmetic::div_mod::lemma_fundamental_div_mod(num as int, den as int);
    assert(num * f == q * (den * f) + r * f) by (nonlinear_arith)
        requires
            num == den * q + r,
    ;
    assert(0 <= r * f < den * f) by (nonlinear_arith)
        requires
            0 <= r < den,
            f > 0,
    ;
    vstd::arithmetic::div_mod::lemma_fundamental_div_mod_converse(
        (num * f) as int,
        (den * f) as int,
        q as int,
        (r * f) as int,
    );
    assert((2 * (r * f) < den * f) == (2 * r < den)) by (nonlinear_arith)
        requires
            f > 0,
    ;
    assert((2 * (r * f) == den * f) == (2 * r == den)) by (nonlinear_arith)
        requires
            f > 0,
    ;
}

/// A quotient that is whole is its own nearest number.
pub proof fn whole_quotients_are_exact(n: nat, den: nat)
    requires
        den > 0,
    ensures
        nearest_even(n * den, den) == n,
{
    vstd::arithmetic::div_mod::lemma_fundamental_div_mod_converse(
        (n * den) as int,
        den as int,
        n as int,
        0,
    );
}

/// Doubling adds a digit.
proof fn lemma_digits_shift(num: nat, den: nat, e: nat)
    requires
        den > 0,
        num / den >= 1,
    ensures
        digits(num * pow2(e) / den) == digits(num / den) + e,
        num * pow2(e) / den >= 1,
    decreases e,
{
    if e == 0 {
        lemma2_to64();
        assert(num * pow2(0) == num);
    } else {
        let less = (e - 1) as nat;
        lemma_digits_shift(num, den, less);
        lemma_pow2_adds(1, less);
        lemma2_to64();
        let half = num * pow2(less);
        assert(num * pow2(e) == half * 2) by (nonlinear_arith)
            requires
                pow2(e) == 2 * pow2(less),
                half == num * pow2(less),
        ;
        lemma_halves(half, den);
    }
}

/// Half of a doubled quotient is the quotient.
proof fn lemma_halves(n: nat, den: nat)
    requires
        den > 0,
        n / den >= 1,
    ensures
        (n * 2) / den / 2 == n / den,
        (n * 2) / den >= 1,
        digits((n * 2) / den) == digits(n / den) + 1,
{
    let q = n / den;
    let r = n % den;
    vstd::arithmetic::div_mod::lemma_fundamental_div_mod(n as int, den as int);
    if 2 * r < den {
        assert(n * 2 == (2 * q) * den + 2 * r) by (nonlinear_arith)
            requires
                n == den * q + r,
        ;
        vstd::arithmetic::div_mod::lemma_fundamental_div_mod_converse(
            (n * 2) as int,
            den as int,
            (2 * q) as int,
            (2 * r) as int,
        );
    } else {
        assert(n * 2 == (2 * q + 1) * den + (2 * r - den)) by (nonlinear_arith)
            requires
                n == den * q + r,
        ;
        vstd::arithmetic::div_mod::lemma_fundamental_div_mod_converse(
            (n * 2) as int,
            den as int,
            (2 * q + 1) as int,
            2 * r - den,
        );
    }
}

/// How many binary digits a number has.
fn count_digits(n: u128) -> (r: u32)
    ensures
        r == digits(n as nat),
        r <= 128,
{
    let mut left: u128 = n;
    let mut count: u32 = 0;
    proof {
        lemma2_to64_rest();
        lemma_pow2_adds(64, 64);
        lemma_digits_bound(n as nat, 128);
    }
    while left > 0
        invariant
            digits(n as nat) == count + digits(left as nat),
            digits(n as nat) <= 128,
        decreases left,
    {
        left = left / 2;
        count = count + 1;
    }
    count
}

/// A number below a power of two has no more digits than the power.
proof fn lemma_digits_bound(n: nat, k: nat)
    requires
        n < pow2(k),
    ensures
        digits(n) <= k,
    decreases k,
{
    if n > 0 {
        lemma2_to64();
        assert(k > 0);
        lemma_pow2_adds(1, (k - 1) as nat);
        lemma_digits_bound(n / 2, (k - 1) as nat);
    }
}

/// A number lies below the power of two that its digits make, and, unless it is
/// zero, not below half of it.
pub proof fn digits_bound_numbers(n: nat)
    ensures
        n < pow2(digits(n)),
        n > 0 ==> pow2((digits(n) - 1) as nat) <= n,
    decreases n,
{
    lemma2_to64();
    if n > 0 {
        digits_bound_numbers(n / 2);
        lemma_pow2_adds(1, digits(n / 2));
        if n / 2 > 0 {
            lemma_pow2_adds(1, (digits(n / 2) - 1) as nat);
        }
    }
}

/// A power of two.
fn power_of_two(k: u32) -> (r: u128)
    requires
        k < 128,
    ensures
        r == pow2(k as nat),
{
    let mut i: u32 = 0;
    let mut r: u128 = 1;
    proof {
        lemma2_to64();
    }
    while i < k
        invariant
            i <= k < 128,
            r == pow2(i as nat),
        decreases k - i,
    {
        proof {
            lemma2_to64();
            lemma2_to64_rest();
            lemma_pow2_adds(1, i as nat);
            lemma_pow2_adds(64, 63);
            powers_grow(i as nat + 1, 127);
        }
        r = r * 2;
        i = i + 1;
    }
    r
}

/// Powers of two grow.
pub proof fn powers_grow(a: nat, b: nat)
    requires
        a <= b,
    ensures
        pow2(a) <= pow2(b),
{
    let gap = (b - a) as nat;
    lemma_pow2_adds(a, gap);
    lemma_pow2_pos(a);
    lemma_pow2_pos(gap);
    assert(pow2(a) <= pow2(a) * pow2(gap)) by (nonlinear_arith)
        requires
            pow2(a) > 0,
            pow2(gap) >= 1,
    ;
}

/// The nearest floating-point number to a quotient is found among the first 53
/// digits of the quotient, wherever its point stands.
proof fn lemma_nearest_shifts(num: nat, den: nat, e: nat)
    requires
        den > 0,
        den == 1 || e == 0 || digits(num / den) > 53,
    ensures
        nearest_double(num * pow2(e), den) == nearest_even(
            num,
            den * pow2(spare_digits(num / den)),
        ) * pow2(spare_digits(num / den) + e),
{
    let k = spare_digits(num / den);
    lemma_pow2_pos(e);
    if e == 0 {
        lemma2_to64();
        assert(num * pow2(0) == num);
    } else if num / den == 0 {
        assert(num == 0);
        assert(num * pow2(e) == 0) by (nonlinear_arith)
            requires
                num == 0,
        ;
        lemma2_to64();
        assert(spare_digits(0) == 0);
        assert(nearest_even(0, 1) == 0);
    } else {
        lemma_digits_shift(num, den, e);
        let shifted = num * pow2(e);
        if digits(num / den) > 53 {
            assert(spare_digits(shifted / den) == k + e);
            lemma_pow2_adds(k, e);
            lemma_pow2_pos(k);
            assert(den * (pow2(k) * pow2(e)) == (den * pow2(k)) * pow2(e)) by (nonlinear_arith);
            assert(den * pow2(k) > 0) by (nonlinear_arith)
                requires
                    den > 0,
                    pow2(k) > 0,
            ;
            lemma_nearest_even_cancels(num, den * pow2(k), pow2(e));
        } else {
            lemma2_to64();
            assert(num / 1 == num);
            assert(shifted / 1 == shifted);
            let j = spare_digits(shifted);
            assert(j <= e);
            lemma_pow2_adds(j, (e - j) as nat);
            lemma_pow2_pos(j);
            let rest = pow2((e - j) as nat);
            assert(num * (pow2(j) * rest) == (num * rest) * pow2(j)) by (nonlinear_arith);
            whole_quotients_are_exact(num * rest, pow2(j));
            whole_quotients_are_exact(num, 1);
            assert(num * 1 == num);
        }
    }
}

/// The floating-point number nearest to a quotient times a power of two.
fn nearest(num: u128, den: u128, exponent: u32) -> (r: Double)
    requires
        den > 0,
        den == 1 || exponent == 0 || num / den >= 0x20_0000_0000_0000,
        exponent <= 100_000,
        den <= 0x7FFF_FFFF_FFFF_FFFF_FFFF_FFFF_FFFF_FFFF,
    ensures
        r.scaled() == nearest_double(num as nat * pow2(exponent as nat), den as nat),
        r.wf(),
        exponent <= r.exponent <= exponent + 76,
        forall|b: nat|
            b >= 53 && (num / den) < #[trigger] pow2(b) ==> r.exponent <= exponent + b - 52,
{
    let quotient: u128 = num / den;
    let count: u32 = count_digits(quotient);
    let spare: u32 = if count > 53 {
        count - 53
    } else {
        0
    };
    proof {
        lemma2_to64();
        lemma2_to64_rest();
        digits_bound_numbers(quotient as nat);
        if den != 1 && exponent != 0 && count <= 53 {
            powers_grow(count as nat, 53);
        }
        lemma_nearest_shifts(num as nat, den as nat, exponent as nat);
        assert forall|b: nat| b >= 53 && quotient < #[trigger] pow2(b) implies count <= b by {
            lemma_digits_bound(quotient as nat, b);
        }
    }
    let unit: u128 = power_of_two(spare);
    proof {
        lemma_unit_fits(num as nat, den as nat);
        assert(den as nat * unit as nat == den * unit);
        if spare == 0 {
            assert(den * unit == den) by (nonlinear_arith)
                requires
                    unit == 1,
            ;
        }
    }
    let divisor: u128 = den * unit;
    let q: u128 = num / divisor;
    let r: u128 = num % divisor;
    let rounded: u128 = if r < divisor - r || (r == divisor - r && q % 2 == 0) {
        q
    } else {
        q + 1
    };
    assert(rounded == nearest_even(num as nat, (den * unit) as nat));
    let top: u32 = exponent + spare;
    if rounded == 0x20_0000_0000_0000 {
        proof {
            lemma_pow2_adds(1, top as nat);
            lemma_carry(top as nat);
        }
        Double { mantissa: 0x10_0000_0000_0000, exponent: top + 1 }
    } else {
        Double { mantissa: rounded as u64, exponent: top }
    }
}

/// A mantissa that rounding filled up is half of it, one power of two higher.
proof fn lemma_carry(e: nat)
    ensures
        0x10_0000_0000_0000nat * pow2(e + 1) == 0x20_0000_0000_0000nat * pow2(e),
{
    lemma_pow2_adds(1, e);
    lemma2_to64();
    assert(0x10_0000_0000_0000nat * (2 * pow2(e)) == 0x20_0000_0000_0000nat * pow2(e))
        by (nonlinear_arith);
}

/// What a quotient is divided by to leave 53 digits is not larger than what it
/// was made from, and leaves 53 digits.
proof fn lemma_unit_fits(num: nat, den: nat)
    requires
        den > 0,
    ensures
        ({
            let unit = pow2(spare_digits(num / den));
            &&& den * unit > 0
            &&& spare_digits(num / den) > 0 ==> den * unit <= num
            &&& spare_digits(num / den) == 0 ==> unit == 1
            &&& num / (den * unit) < 0x20_0000_0000_0000
        }),
{
    let q = num / den;
    let k = spare_digits(q);
    let unit = pow2(k);
    lemma2_to64();
    lemma2_to64_rest();
    digits_bound_numbers(q);
    lemma_pow2_pos(k);
    assert(den * unit > 0) by (nonlinear_arith)
        requires
            den > 0,
            unit > 0,
    ;
    vstd::arithmetic::div_mod::lemma_fundamental_div_mod(num as int, den as int);
    vstd::arithmetic::div_mod::lemma_div_denominator(num as int, den as int, unit as int);
    if k > 0 {
        powers_grow(k, (digits(q) - 1) as nat);
        assert(den * unit <= num) by (nonlinear_arith)
            requires
                unit <= q,
                num >= den * q,
                den > 0,
        ;
        lemma_pow2_adds(53, k);
        assert(q < 0x20_0000_0000_0000 * unit);
        vstd::arithmetic::div_mod::lemma_div_by_multiple_is_strongly_ordered(
            q as int,
            (0x20_0000_0000_0000 * unit) as int,
            0x20_0000_0000_0000,
            unit as int,
        );
        vstd::arithmetic::div_mod::lemma_div_by_multiple(0x20_0000_0000_0000, unit as int);
    } else {
        powers_grow(digits(q), 53);
        assert(q / 1 == q);
    }
}

/// Where a common factor goes, the nearest floating-point number stays.
proof fn lemma_nearest_double_cancels(num: nat, den: nat, f: nat)
    requires
        den > 0,
        f > 0,
    ensures
        nearest_double(num * f, den * f) == nearest_double(num, den),
{
    vstd::arithmetic::div_mod::lemma_div_multiples_vanish_quotient(
        f as int,
        num as int,
        den as int,
    );
    assert(f * num == num * f && f * den == den * f) by (nonlinear_arith);
    let unit = pow2(spare_digits(num / den));
    lemma_pow2_pos(spare_digits(num / den));
    assert(den * f * unit == den * unit * f) by (nonlinear_arith);
    assert(den * unit > 0) by (nonlinear_arith)
        requires
            den > 0,
            unit > 0,
    ;
    lemma_nearest_even_cancels(num, den * unit, f);
}

impl Double {
    /// A whole number.
    pub fn whole(n: u32) -> (r: Self)
        ensures
            r.wf(),
            r.scaled() == n as nat * pow2(1074),
            r.mantissa == n,
            r.exponent == 1074,
    {
        Double { mantissa: n as u64, exponent: 1074 }
    }

    /// The number nearest to a whole one.
    pub fn nearest_whole(n: u64) -> (r: Self)
        ensures
            r.wf(),
            r.scaled() == nearest_double(n as nat * pow2(1074), 1),
            1074 <= r.exponent <= 1086,
            n > 0 ==> r.mantissa > 0,
    {
        proof {
            lemma2_to64_rest();
            assert(n as u128 / 1 == n);
        }
        let r: Double = nearest(n as u128, 1, 1074);
        proof {
            if n > 0 {
                lemma_pow2_pos(1074);
                lemma_nearest_is_something(n as nat, 1074);
                if r.mantissa == 0 {
                    assert(0 * pow2(r.exponent as nat) == 0);
                }
            }
        }
        r
    }

    /// A number by its bits, without its sign.
    pub fn from_bits(bits: u64) -> (r: Self)
        requires
            is_finite(bits),
        ensures
            r.wf(),
            r.scaled() == scaled_size(bits),
            r.exponent <= 2045,
            r.exponent == if exponent_bits(bits) == 0 {
                0
            } else {
                exponent_bits(bits) - 1
            },
            exponent_bits(bits) > 0 ==> r.mantissa >= 0x10_0000_0000_0000,
    {
        let unsigned: u64 = bits % 0x8000_0000_0000_0000;
        let exponent: u64 = unsigned / 0x10_0000_0000_0000;
        let fraction: u64 = unsigned % 0x10_0000_0000_0000;
        proof {
            lemma2_to64();
            assert(fraction * pow2(0) == fraction);
        }
        if exponent == 0 {
            Double { mantissa: fraction, exponent: 0 }
        } else {
            Double { mantissa: 0x10_0000_0000_0000 + fraction, exponent: (exponent - 1) as u32 }
        }
    }

    /// The same number with as large a mantissa as there is, but no exponent below
    /// `lowest`.
    fn widened(self, lowest: u32) -> (r: Self)
        requires
            self.wf(),
            lowest <= self.exponent,
        ensures
            r.wf(),
            r.scaled() == self.scaled(),
            lowest <= r.exponent <= self.exponent,
            r.exponent == lowest || r.mantissa >= 0x10_0000_0000_0000,
            self.mantissa > 0 ==> r.mantissa > 0,
    {
        let mut r: Double = self;
        while r.mantissa < 0x10_0000_0000_0000 && r.exponent > lowest
            invariant
                r.wf(),
                r.scaled() == self.scaled(),
                lowest <= r.exponent <= self.exponent,
                self.mantissa > 0 ==> r.mantissa > 0,
            decreases r.exponent,
        {
            proof {
                let e = (r.exponent - 1) as nat;
                lemma_pow2_adds(1, e);
                lemma2_to64();
                assert(r.mantissa as nat * (2 * pow2(e)) == (2 * r.mantissa) as nat * pow2(e))
                    by (nonlinear_arith);
            }
            r = Double { mantissa: 2 * r.mantissa, exponent: r.exponent - 1 };
        }
        r
    }

    /// The product of two numbers, rounded.
    pub fn times(self, other: Double) -> (r: Self)
        requires
            self.wf(),
            other.wf(),
            self.exponent <= 20_000,
            other.exponent <= 20_000,
        ensures
            r.wf(),
            r.scaled() == double_product(self.scaled(), other.scaled()),
            forall|b: nat|
                b >= 53 && self.exponent + other.exponent >= 1074 && self.mantissa * other.mantissa
                    < #[trigger] pow2(b) ==> r.exponent <= self.exponent + other.exponent - 1074 + b
                    - 52,
            self.exponent + other.exponent >= 1074 ==> self.exponent + other.exponent - 1074
                <= r.exponent,
            self.exponent + other.exponent < 1074 ==> r.exponent <= 76,
    {
        assert(self.mantissa * other.mantissa < 0x20_0000_0000_0000 * 0x20_0000_0000_0000)
            by (nonlinear_arith)
            requires
                self.mantissa < 0x20_0000_0000_0000,
                other.mantissa < 0x20_0000_0000_0000,
        ;
        let num: u128 = self.mantissa as u128 * other.mantissa as u128;
        let sum: u32 = self.exponent + other.exponent;
        proof {
            lemma_pow2_adds(self.exponent as nat, other.exponent as nat);
            lemma_pow2_pos(1074);
            lemma_pow2_pos(sum as nat);
            let a = pow2(self.exponent as nat);
            let b = pow2(other.exponent as nat);
            assert(self.scaled() * other.scaled() == num as nat * pow2(sum as nat))
                by (nonlinear_arith)
                requires
                    self.scaled() == self.mantissa as nat * a,
                    other.scaled() == other.mantissa as nat * b,
                    num == self.mantissa * other.mantissa,
                    pow2(sum as nat) == a * b,
            ;
        }
        if sum >= 1074 {
            let exponent: u32 = sum - 1074;
            proof {
                lemma_pow2_adds(exponent as nat, 1074);
                assert(num as nat * pow2(sum as nat) == num as nat * pow2(exponent as nat) * pow2(
                    1074,
                )) by (nonlinear_arith)
                    requires
                        pow2(sum as nat) == pow2(exponent as nat) * pow2(1074),
                ;
                lemma_nearest_double_cancels(num as nat * pow2(exponent as nat), 1, pow2(1074));
                assert(num / 1 == num);
            }
            return nearest(num, 1, exponent);
        }
        let gap: u32 = 1074 - sum;
        proof {
            lemma_pow2_adds(gap as nat, sum as nat);
            lemma_pow2_pos(gap as nat);
            lemma_nearest_double_cancels(num as nat, pow2(gap as nat), pow2(sum as nat));
        }
        if gap >= 110 {
            proof {
                lemma2_to64();
                lemma2_to64_rest();
                lemma_pow2_adds(64, 46);
                powers_grow(110, gap as nat);
                lemma_tiny_is_nothing(num as nat, pow2(gap as nat));
                assert(0 * pow2(0) == 0);
            }
            return Double { mantissa: 0, exponent: 0 };
        }
        let den: u128 = power_of_two(gap);
        proof {
            lemma2_to64();
            lemma2_to64_rest();
            lemma_pow2_adds(64, 46);
            powers_grow(gap as nat, 110);
            assert(num as nat * pow2(0) == num as nat);
        }
        nearest(num, den, 0)
    }

    /// The quotient of two numbers, rounded.
    pub fn over(self, other: Double) -> (r: Self)
        requires
            self.wf(),
            other.wf(),
            other.mantissa > 0,
            self.mantissa == 0 || other.exponent <= self.exponent + 948,
            self.exponent <= 20_000,
        ensures
            r.wf(),
            r.scaled() == double_quotient(self.scaled(), other.scaled()),
            self.mantissa > 0 ==> r.exponent + other.exponent <= self.exponent + 1075,
            self.mantissa > 0 && other.mantissa >= 0x8_0000 ==> r.exponent + other.exponent
                <= self.exponent + 1056,
            self.mantissa > 0 && other.mantissa >= 0x10_0000_0000_0000 ==> r.exponent
                + other.exponent <= self.exponent + 1023,
            self.mantissa == 0 ==> r.exponent == 0,
    {
        proof {
            lemma_pow2_pos(1074);
            lemma_pow2_pos(other.exponent as nat);
            assert(other.scaled() > 0) by (nonlinear_arith)
                requires
                    other.scaled() == other.mantissa as nat * pow2(other.exponent as nat),
                    other.mantissa > 0,
                    pow2(other.exponent as nat) > 0,
            ;
        }
        if self.mantissa == 0 {
            proof {
                lemma_nothing_is_exact(other.scaled());
                assert(self.scaled() == 0 && self.scaled() * pow2(1074) == 0) by (nonlinear_arith)
                    requires
                        self.scaled() == self.mantissa as nat * pow2(self.exponent as nat),
                        self.mantissa == 0,
                ;
            }
            return Double { mantissa: 0, exponent: 0 };
        }
        let count: u32 = count_digits(self.mantissa as u128);
        proof {
            lemma2_to64();
            lemma2_to64_rest();
            lemma_digits_bound(self.mantissa as nat, 53);
            digits_bound_numbers(self.mantissa as nat);
        }
        let shift: u32 = 127 - count;
        let factor: u128 = power_of_two(shift);
        proof {
            lemma_pow2_pos(shift as nat);
            lemma_pow2_adds(count as nat, shift as nat);
            lemma_pow2_adds((count - 1) as nat, shift as nat);
            lemma_pow2_adds(64, 63);
            lemma_pow2_adds(64, 62);
            let m = self.mantissa as nat;
            assert(pow2((count - 1) as nat) * factor <= m * factor < pow2(count as nat) * factor)
                by (nonlinear_arith)
                requires
                    pow2((count - 1) as nat) <= m < pow2(count as nat),
                    factor > 0,
            ;
        }
        let num: u128 = self.mantissa as u128 * factor;
        let den: u128 = other.mantissa as u128;
        assert(pow2(126) <= num < pow2(127));
        assert(num / den >= 0x20_0000_0000_0000) by (nonlinear_arith)
            requires
                num >= 0x4000_0000_0000_0000_0000_0000_0000_0000u128,
                0 < den < 0x20_0000_0000_0000,
        ;
        assert(num / den <= num) by (nonlinear_arith)
            requires
                den > 0,
        ;
        let exponent: u32 = self.exponent + 1074 - shift - other.exponent;
        proof {
            lemma_pow2_adds(shift as nat, exponent as nat);
            lemma_pow2_adds((shift + exponent) as nat, other.exponent as nat);
            lemma_pow2_adds(self.exponent as nat, 1074);
            let x = pow2(exponent as nat);
            let y = pow2(other.exponent as nat);
            assert(num as nat * x * y == self.scaled() * pow2(1074)) by (nonlinear_arith)
                requires
                    num == self.mantissa * factor,
                    self.scaled() == self.mantissa as nat * pow2(self.exponent as nat),
                    pow2(self.exponent as nat) * pow2(1074) == (factor as nat * x) * y,
            ;
            assert(other.scaled() == den as nat * y);
            lemma_nearest_double_cancels(num as nat * x, den as nat, y);
            if other.mantissa >= 0x8_0000 {
                lemma_pow2_adds(64, 44);
                assert(num / den < 0x1_0000_0000_0000_0000 * 0x1000_0000_0000) by (nonlinear_arith)
                    requires
                        num < 0x8000_0000_0000_0000_0000_0000_0000_0000u128,
                        den >= 0x8_0000,
                ;
            }
            if other.mantissa >= 0x10_0000_0000_0000 {
                lemma_pow2_adds(64, 11);
                assert(num / den < 0x1_0000_0000_0000_0000 * 0x800) by (nonlinear_arith)
                    requires
                        num < 0x8000_0000_0000_0000_0000_0000_0000_0000u128,
                        den >= 0x10_0000_0000_0000,
                ;
            }
        }
        nearest(num, den, exponent)
    }
}

/// What is less than half of the least number there is is nothing.
proof fn lemma_tiny_is_nothing(num: nat, den: nat)
    requires
        2 * num < den,
    ensures
        nearest_double(num, den) == 0,
{
    lemma2_to64();
    vstd::arithmetic::div_mod::lemma_basic_div(num as int, den as int);
    vstd::arithmetic::div_mod::lemma_small_mod(num, den);
    assert(den * pow2(0) == den);
    assert(spare_digits(num / den) == 0);
    assert(nearest_even(num, den) == 0);
    assert(0 * pow2(0) == 0);
}

/// A whole number that is not zero does not round to zero.
proof fn lemma_nearest_is_something(n: nat, e: nat)
    requires
        n > 0,
    ensures
        nearest_double(n * pow2(e), 1) > 0,
{
    lemma_nearest_shifts(n, 1, e);
    assert(n / 1 == n);
    digits_bound_numbers(n);
    let k = spare_digits(n);
    lemma_pow2_pos(k);
    lemma_pow2_pos(k + e);
    lemma2_to64();
    if k > 0 {
        powers_grow(k, (digits(n) - 1) as nat);
        assert(1 * pow2(k) == pow2(k));
        assert(n / pow2(k) >= 1) by {
            vstd::arithmetic::div_mod::lemma_div_is_ordered(
                pow2(k) as int,
                n as int,
                pow2(k) as int,
            );
            vstd::arithmetic::div_mod::lemma_div_by_self(pow2(k) as int);
        }
    } else {
        assert(1 * pow2(0) == 1);
    }
    let q = nearest_even(n, 1 * pow2(k));
    assert(q >= 1);
    assert(q * pow2(k + e) > 0) by (nonlinear_arith)
        requires
            q >= 1,
            pow2(k + e) > 0,
    ;
}

/// Nothing, divided by anything, is nothing.
proof fn lemma_nothing_is_exact(den: nat)
    requires
        den > 0,
    ensures
        nearest_double(0, den) == 0,
{
    lemma2_to64();
    assert(0nat / den == 0) by (nonlinear_arith)
        requires
            den > 0,
    ;
    assert(0nat % den == 0) by (nonlinear_arith)
        requires
            den > 0,
    ;
    assert(den * pow2(0) == den);
    assert(spare_digits(0nat / den) == 0);
    assert(nearest_even(0, den) == 0);
    assert(0 * pow2(0) == 0);
}

impl Double {
    /// The whole part of a number below two to the power 64.
    pub fn whole_part(self) -> (r: u64)
        requires
            self.wf(),
            self.scaled() < pow2(1138),
        ensures
            r == self.scaled() / pow2(1074),
    {
        if self.mantissa == 0 {
            proof {
                lemma_pow2_pos(1074);
                assert(self.scaled() == 0) by (nonlinear_arith)
                    requires
                        self.scaled() == self.mantissa as nat * pow2(self.exponent as nat),
                        self.mantissa == 0,
                ;
                vstd::arithmetic::div_mod::lemma_basic_div(0, pow2(1074) as int);
            }
            return 0;
        }
        if self.exponent > 1074 {
            let ghost e = pow2(self.exponent as nat);
            proof {
                if self.exponent >= 1138 {
                    powers_grow(1138, self.exponent as nat);
                    assert(self.mantissa * e >= e) by (nonlinear_arith)
                        requires
                            self.mantissa >= 1,
                    ;
                }
            }
            let gap: u32 = self.exponent - 1074;
            let unit: u128 = power_of_two(gap);
            proof {
                lemma2_to64_rest();
                lemma_pow2_adds(gap as nat, 1074);
                lemma_pow2_adds(64, 1074);
                lemma_pow2_pos(1074);
                let whole = (self.mantissa * unit) as nat;
                assert(self.scaled() == whole * pow2(1074)) by (nonlinear_arith)
                    requires
                        self.scaled() == self.mantissa as nat * e,
                        e == unit as nat * pow2(1074),
                        whole == self.mantissa * unit,
                ;
                assert(whole < 0x1_0000_0000_0000_0000) by (nonlinear_arith)
                    requires
                        whole * pow2(1074) < 0x1_0000_0000_0000_0000 * pow2(1074),
                        pow2(1074) > 0,
                ;
                vstd::arithmetic::div_mod::lemma_div_by_multiple(whole as int, pow2(1074) as int);
            }
            return (self.mantissa as u128 * unit) as u64;
        }
        let gap: u32 = 1074 - self.exponent;
        proof {
            lemma_pow2_adds(gap as nat, self.exponent as nat);
            lemma_pow2_pos(gap as nat);
            lemma_pow2_pos(self.exponent as nat);
            let e = pow2(self.exponent as nat);
            vstd::arithmetic::div_mod::lemma_div_multiples_vanish_quotient(
                e as int,
                self.mantissa as int,
                pow2(gap as nat) as int,
            );
            assert(e * self.mantissa == self.mantissa * e) by (nonlinear_arith);
            assert(e * pow2(gap as nat) == pow2(gap as nat) * e) by (nonlinear_arith);
        }
        if gap >= 64 {
            proof {
                lemma2_to64_rest();
                powers_grow(64, gap as nat);
                vstd::arithmetic::div_mod::lemma_basic_div(
                    self.mantissa as int,
                    pow2(gap as nat) as int,
                );
            }
            return 0;
        }
        let unit: u128 = power_of_two(gap);
        assert(self.mantissa as u128 / unit <= self.mantissa) by (nonlinear_arith)
            requires
                unit > 0,
        ;
        (self.mantissa as u128 / unit) as u64
    }

    /// A number in tenths or hundredths, as `parts` says, to the nearest; the even
    /// one where two are as near.
    pub fn in_parts(self, parts: u32) -> (r: u128)
        requires
            self.wf(),
            self.exponent <= 1134,
            parts <= 100,
        ensures
            r == nearest_even(self.scaled() * parts as nat, pow2(1074)),
    {
        assert(self.mantissa * parts <= 0x20_0000_0000_0000 * 100) by (nonlinear_arith)
            requires
                self.mantissa < 0x20_0000_0000_0000,
                parts <= 100,
        ;
        let n: u128 = self.mantissa as u128 * parts as u128;
        if self.exponent >= 1074 {
            let gap: u32 = self.exponent - 1074;
            let unit: u128 = power_of_two(gap);
            proof {
                lemma2_to64();
                lemma2_to64_rest();
                powers_grow(gap as nat, 60);
                lemma_pow2_adds(gap as nat, 1074);
                lemma_pow2_pos(1074);
                let whole = (n * unit) as nat;
                assert(self.scaled() * parts as nat == whole * pow2(1074)) by (nonlinear_arith)
                    requires
                        self.scaled() == self.mantissa as nat * pow2(self.exponent as nat),
                        pow2(self.exponent as nat) == pow2(gap as nat) * pow2(1074),
                        unit == pow2(gap as nat),
                        n == self.mantissa * parts,
                        whole == n * unit,
                ;
                whole_quotients_are_exact(whole, pow2(1074));
                assert(n * unit <= 0x20_0000_0000_0000 * 100 * 0x1000_0000_0000_0000)
                    by (nonlinear_arith)
                    requires
                        n <= 0x20_0000_0000_0000 * 100,
                        unit <= 0x1000_0000_0000_0000,
                ;
            }
            return n * unit;
        }
        let gap: u32 = 1074 - self.exponent;
        proof {
            lemma_pow2_adds(gap as nat, self.exponent as nat);
            lemma_pow2_pos(gap as nat);
            lemma_pow2_pos(self.exponent as nat);
            assert(self.scaled() * parts as nat == n as nat * pow2(self.exponent as nat))
                by (nonlinear_arith)
                requires
                    self.scaled() == self.mantissa as nat * pow2(self.exponent as nat),
                    n == self.mantissa * parts,
            ;
            lemma_nearest_even_cancels(
                n as nat,
                pow2(gap as nat),
                pow2(self.exponent as nat),
            );
        }
        if gap >= 64 {
            proof {
                lemma2_to64_rest();
                powers_grow(64, gap as nat);
                vstd::arithmetic::div_mod::lemma_basic_div(n as int, pow2(gap as nat) as int);
                vstd::arithmetic::div_mod::lemma_small_mod(n as nat, pow2(gap as nat));
            }
            return 0;
        }
        let unit: u128 = power_of_two(gap);
        let q: u128 = n / unit;
        let r: u128 = n % unit;
        assert(q <= n) by (nonlinear_arith)
            requires
                q == n / unit,
                unit > 0,
        ;
        if r < unit - r || (r == unit - r && q % 2 == 0) {
            q
        } else {
            q + 1
        }
    }
}

impl Double {
    /// The whole number nearest to a number; the larger one where two are as near.
    pub fn rounded(self) -> (r: u64)
        requires
            self.wf(),
            self.exponent < 1074,
        ensures
            r == (2 * self.scaled() + pow2(1074)) / pow2(1075),
    {
        let gap: u32 = 1074 - self.exponent;
        let ghost e1 = pow2((self.exponent + 1) as nat);
        let ghost m = self.mantissa as nat;
        let ghost half = pow2((gap - 1) as nat);
        let ghost unit = pow2(gap as nat);
        proof {
            lemma2_to64();
            lemma_pow2_adds(1, self.exponent as nat);
            lemma_pow2_adds((gap - 1) as nat, (self.exponent + 1) as nat);
            lemma_pow2_adds(gap as nat, (self.exponent + 1) as nat);
            lemma_pow2_adds(1, (gap - 1) as nat);
            lemma_pow2_pos((self.exponent + 1) as nat);
            lemma_pow2_pos((gap - 1) as nat);
            assert(2 * self.scaled() + pow2(1074) == e1 * (m + half)) by (nonlinear_arith)
                requires
                    self.scaled() == m * pow2(self.exponent as nat),
                    e1 == 2 * pow2(self.exponent as nat),
                    pow2(1074) == half * e1,
            ;
            assert(pow2(1075) == e1 * unit) by (nonlinear_arith)
                requires
                    pow2(1075) == unit * e1,
            ;
            vstd::arithmetic::div_mod::lemma_div_multiples_vanish_quotient(
                e1 as int,
                (m + half) as int,
                unit as int,
            );
        }
        if gap >= 64 {
            proof {
                lemma2_to64_rest();
                powers_grow(63, (gap - 1) as nat);
                vstd::arithmetic::div_mod::lemma_basic_div((m + half) as int, unit as int);
            }
            return 0;
        }
        let half_unit: u128 = power_of_two(gap - 1);
        proof {
            lemma2_to64_rest();
            powers_grow((gap - 1) as nat, 63);
        }
        let n: u128 = self.mantissa as u128 + half_unit;
        let whole: u128 = 2 * half_unit;
        assert(n / whole <= n) by (nonlinear_arith)
            requires
                whole > 0,
        ;
        (n / whole) as u64
    }
}

// ---------------------------------------------------------------------------
// Sums
// ---------------------------------------------------------------------------

/// The sum of two floating-point numbers.
pub open spec fn double_sum(a: int, b: int) -> int {
    if a + b >= 0 {
        nearest_double((a + b) as nat, 1) as int
    } else {
        -(nearest_double((-(a + b)) as nat, 1) as int)
    }
}

/// A floating-point number with its sign.
#[derive(Debug, Clone, Copy, PartialEq, Eq, Structural)]
pub struct SignedDouble {
    pub negative: bool,
    pub size: Double,
}

/// A number by its bits, times two to the power 1074.
pub open spec fn scaled_value(bits: u64) -> int {
    if is_negative(bits) {
        -(scaled_size(bits) as int)
    } else {
        scaled_size(bits) as int
    }
}

/// What is too small to reach the last digit of a number is lost when it is added
/// to it or taken from it.
proof fn lemma_small_part_is_lost(m: nat, gap: nat, t: nat, e: nat)
    requires
        0x10_0000_0000_0000 <= m < 0x20_0000_0000_0000,
        t < 0x20_0000_0000_0000,
        gap > 70,
    ensures
        m * pow2(gap) >= t,
        nearest_double((m * pow2(gap) + t) * pow2(e), 1) == m * pow2(gap + e),
        nearest_double((m * pow2(gap) - t) as nat * pow2(e), 1) == m * pow2(gap + e),
{
    let unit = pow2(gap);
    lemma2_to64();
    lemma2_to64_rest();
    lemma_pow2_adds(64, 7);
    powers_grow(71, gap);
    assert(unit >= 0x80_0000_0000_0000_0000);
    lemma_pow2_adds(1, (gap - 1) as nat);
    lemma_pow2_adds(52, gap);
    lemma_pow2_adds(53, gap);
    assert(0x10_0000_0000_0000 * unit <= m * unit <= 0x20_0000_0000_0000 * unit - unit)
        by (nonlinear_arith)
        requires
            0x10_0000_0000_0000 <= m <= 0x20_0000_0000_0000 - 1,
            unit > 0,
    ;
    let more = m * unit + t;
    lemma_digits_exact(more, 53 + gap);
    lemma_nearest_shifts(more, 1, e);
    assert(more / 1 == more);
    assert(1 * unit == unit);
    vstd::arithmetic::div_mod::lemma_fundamental_div_mod_converse(
        more as int,
        unit as int,
        m as int,
        t as int,
    );
    if t > 0 {
        let less = (m * unit - t) as nat;
        lemma_nearest_shifts(less, 1, e);
        assert(less / 1 == less);
        if m > 0x10_0000_0000_0000 {
            assert(m * unit >= 0x10_0000_0000_0000 * unit + unit) by (nonlinear_arith)
                requires
                    m >= 0x10_0000_0000_0000 + 1,
                    unit > 0,
            ;
            lemma_digits_exact(less, 53 + gap);
            assert((m - 1) * unit + (unit - t) == m * unit - t) by (nonlinear_arith);
            vstd::arithmetic::div_mod::lemma_fundamental_div_mod_converse(
                less as int,
                unit as int,
                m - 1,
                unit - t,
            );
        } else {
            let half = pow2((gap - 1) as nat);
            assert(1 * half == half);
            lemma_pow2_adds(52, (gap - 1) as nat);
            lemma_pow2_adds(53, (gap - 1) as nat);
            lemma_digits_exact(less, (52 + gap) as nat);
            assert(less == (0x20_0000_0000_0000 - 1) * half + (half - t));
            vstd::arithmetic::div_mod::lemma_fundamental_div_mod_converse(
                less as int,
                half as int,
                0x20_0000_0000_0000 - 1,
                half - t,
            );
            lemma_carry((gap - 1 + e) as nat);
        }
    }
}

/// A number between two neighbouring powers of two has as many digits as the
/// higher one says.
proof fn lemma_digits_exact(n: nat, d: nat)
    requires
        d > 0,
        pow2((d - 1) as nat) <= n < pow2(d),
    ensures
        digits(n) == d,
{
    lemma_digits_bound(n, d);
    digits_bound_numbers(n);
    if digits(n) < d {
        powers_grow(digits(n), (d - 1) as nat);
    }
}

/// A sum has the sign of what it is rounded from.
proof fn lemma_sign_of_sum(total: nat, negative: bool, a: int, b: int)
    requires
        a + b == if negative {
            -(total as int)
        } else {
            total as int
        },
    ensures
        double_sum(a, b) == if negative {
            -(nearest_double(total, 1) as int)
        } else {
            nearest_double(total, 1) as int
        },
{
    if total == 0 {
        lemma_nothing_is_exact(1);
    }
}

impl SignedDouble {
    /// The number times two to the power 1074.
    pub open spec fn value(self) -> int {
        if self.negative {
            -(self.size.scaled() as int)
        } else {
            self.size.scaled() as int
        }
    }

    /// A number by its bits.
    pub fn from_bits(bits: u64) -> (r: Self)
        requires
            is_finite(bits),
        ensures
            r.size.wf(),
            r.value() == scaled_value(bits),
            r.size.scaled() == scaled_size(bits),
            r.negative == is_negative(bits),
            r.size.exponent <= 2045,
            r.size.exponent == if exponent_bits(bits) == 0 {
                0
            } else {
                exponent_bits(bits) - 1
            },
            exponent_bits(bits) > 0 ==> r.size.mantissa >= 0x10_0000_0000_0000,
    {
        SignedDouble { negative: bits >= 0x8000_0000_0000_0000, size: Double::from_bits(bits) }
    }

    /// The sum of two numbers, rounded.
    pub fn plus(self, other: SignedDouble) -> (r: Self)
        requires
            self.size.wf(),
            other.size.wf(),
            self.size.exponent <= 20_000,
            other.size.exponent <= 20_000,
        ensures
            r.size.wf(),
            r.value() == double_sum(self.value(), other.value()),
            r.size.exponent <= self.size.exponent + 76 || r.size.exponent <= other.size.exponent
                + 76,
            r.size.exponent >= self.size.exponent || r.size.exponent >= other.size.exponent,
    {
        if self.size.exponent >= other.size.exponent {
            Self::add_smaller(self, other)
        } else {
            Self::add_smaller(other, self)
        }
    }

    /// The sum of a number and one with no larger exponent.
    fn add_smaller(high: SignedDouble, low: SignedDouble) -> (r: Self)
        requires
            high.size.wf(),
            low.size.wf(),
            low.size.exponent <= high.size.exponent <= 20_000,
        ensures
            r.size.wf(),
            r.value() == double_sum(high.value(), low.value()),
            low.size.exponent <= r.size.exponent <= high.size.exponent + 76,
    {
        let wide: Double = high.size.widened(low.size.exponent);
        let gap: u32 = wide.exponent - low.size.exponent;
        let ghost unit = pow2(gap as nat);
        let ghost e = pow2(low.size.exponent as nat);
        let ghost a = wide.mantissa as nat * unit;
        let ghost b = low.size.mantissa as nat;
        proof {
            lemma_pow2_adds(gap as nat, low.size.exponent as nat);
            lemma_pow2_pos(low.size.exponent as nat);
            assert(wide.scaled() == a * e) by (nonlinear_arith)
                requires
                    wide.scaled() == wide.mantissa as nat * pow2(wide.exponent as nat),
                    pow2(wide.exponent as nat) == unit * e,
                    a == wide.mantissa as nat * unit,
            ;
            assert(a * e + b * e == (a + b) * e) by (nonlinear_arith);
            assert(a * e - b * e == (a - b) * e) by (nonlinear_arith);
            assert(b * e - a * e == (b - a) * e) by (nonlinear_arith);
            assert(a >= b ==> (a - b) * e >= 0) by (nonlinear_arith)
                requires
                    e > 0,
            ;
            assert(a < b ==> (b - a) * e > 0) by (nonlinear_arith)
                requires
                    e > 0,
            ;
            assert((a + b) * e >= 0);
        }
        if gap > 70 {
            proof {
                lemma_small_part_is_lost(
                    wide.mantissa as nat,
                    gap as nat,
                    b,
                    low.size.exponent as nat,
                );
                let total: nat = if high.negative == low.negative {
                    ((a + b) * e) as nat
                } else {
                    ((a - b) * e) as nat
                };
                lemma_sign_of_sum(total, high.negative, high.value(), low.value());
            }
            return SignedDouble { negative: high.negative, size: wide };
        }
        let factor: u128 = power_of_two(gap);
        proof {
            lemma2_to64();
            lemma2_to64_rest();
            lemma_pow2_adds(64, 6);
            powers_grow(gap as nat, 70);
            assert(wide.mantissa * factor <= 0x20_0000_0000_0000 * 0x40_0000_0000_0000_0000)
                by (nonlinear_arith)
                requires
                    wide.mantissa < 0x20_0000_0000_0000,
                    factor <= 0x40_0000_0000_0000_0000,
            ;
        }
        let x: u128 = wide.mantissa as u128 * factor;
        let y: u128 = low.size.mantissa as u128;
        proof {
            if high.negative == low.negative {
                let total = ((a + b) * e) as nat;
                lemma_sign_of_sum(total, high.negative, high.value(), low.value());
            } else if x >= y {
                let total = ((a - b) * e) as nat;
                lemma_sign_of_sum(total, high.negative, high.value(), low.value());
            } else {
                let total = ((b - a) * e) as nat;
                lemma_sign_of_sum(total, low.negative, high.value(), low.value());
            }
        }
        if high.negative == low.negative {
            return SignedDouble {
                negative: high.negative,
                size: nearest(x + y, 1, low.size.exponent),
            };
        }
        if x >= y {
            SignedDouble {
                negative: high.negative,
                size: nearest(x - y, 1, low.size.exponent),
            }
        } else {
            SignedDouble { negative: low.negative, size: nearest(y - x, 1, low.size.exponent) }
        }
    }
}

impl SignedDouble {
    /// The bits of a number.
    pub fn to_bits(self) -> (r: u64)
        requires
            self.size.wf(),
            self.size.scaled() < pow2(2098),
        ensures
            is_finite(r),
            is_negative(r) == self.negative,
            scaled_size(r) == self.size.scaled(),
            scaled_value(r) == self.value(),
    {
        let wide: Double = self.size.widened(0);
        proof {
            lemma2_to64();
            lemma2_to64_rest();
            if wide.mantissa >= 0x10_0000_0000_0000 && wide.exponent >= 2046 {
                powers_grow(2046, wide.exponent as nat);
                lemma_pow2_adds(52, 2046);
                let e = pow2(wide.exponent as nat);
                assert(wide.mantissa * e >= 0x10_0000_0000_0000 * pow2(2046)) by (nonlinear_arith)
                    requires
                        wide.mantissa >= 0x10_0000_0000_0000,
                        e >= pow2(2046),
                ;
            }
            assert(wide.mantissa as nat * pow2(0) == wide.mantissa);
        }
        let unsigned: u64 = if wide.mantissa < 0x10_0000_0000_0000 {
            wide.mantissa
        } else {
            (wide.exponent as u64 + 1) * 0x10_0000_0000_0000 + (wide.mantissa - 0x10_0000_0000_0000)
        };
        if self.negative {
            0x8000_0000_0000_0000 + unsigned
        } else {
            unsigned
        }
    }
}

// ---------------------------------------------------------------------------
// Bounds
// ---------------------------------------------------------------------------

/// A quotient between two whole numbers is rounded to one between them.
proof fn lemma_nearest_even_between(num: nat, den: nat, low: nat, high: nat)
    requires
        den > 0,
        low * den <= num <= high * den,
    ensures
        low <= nearest_even(num, den) <= high,
{
    let q = num / den;
    let r = num % den;
    vstd::arithmetic::div_mod::lemma_fundamental_div_mod(num as int, den as int);
    assert(low <= q) by (nonlinear_arith)
        requires
            low * den <= den * q + r,
            r < den,
            den > 0,
    ;
    assert(q <= high && (q == high ==> r == 0)) by (nonlinear_arith)
        requires
            den * q + r <= high * den,
            0 <= r < den,
            den > 0,
    ;
}

/// What lies below a floating-point number is not rounded to one above it.
pub proof fn rounding_keeps_upper_bounds(num: nat, den: nat, n: nat, j: nat)
    requires
        den > 0,
        n < 0x20_0000_0000_0000,
        num <= n * pow2(j) * den,
    ensures
        nearest_double(num, den) <= n * pow2(j),
{
    let q = num / den;
    let k = spare_digits(q);
    let unit = pow2(k);
    lemma2_to64_rest();
    lemma_pow2_pos(j);
    lemma_pow2_pos(k);
    digits_bound_numbers(q);
    let bound = n * pow2(j);
    assert(q <= bound) by {
        vstd::arithmetic::div_mod::lemma_div_is_ordered(
            num as int,
            (bound * den) as int,
            den as int,
        );
        vstd::arithmetic::div_mod::lemma_div_by_multiple(bound as int, den as int);
    }
    if k > j {
        powers_grow((53 + j) as nat, (digits(q) - 1) as nat);
        lemma_pow2_adds(53, j);
        assert(n * pow2(j) < 0x20_0000_0000_0000 * pow2(j)) by (nonlinear_arith)
            requires
                n < 0x20_0000_0000_0000,
                pow2(j) > 0,
        ;
    } else {
        let c = n * pow2((j - k) as nat);
        lemma_pow2_adds((j - k) as nat, k);
        assert(bound == c * unit && bound * den == c * (den * unit)) by (nonlinear_arith)
            requires
                bound == n * pow2(j),
                pow2(j) == pow2((j - k) as nat) * unit,
                c == n * pow2((j - k) as nat),
        ;
        assert(den * unit > 0) by (nonlinear_arith)
            requires
                den > 0,
                unit > 0,
        ;
        assert(0 * (den * unit) == 0);
        lemma_nearest_even_between(num, den * unit, 0, c);
        let r = nearest_even(num, den * unit);
        assert(r * unit <= c * unit) by (nonlinear_arith)
            requires
                r <= c,
        ;
    }
}

/// What lies above a floating-point number is not rounded to one below it.
pub proof fn rounding_keeps_lower_bounds(num: nat, den: nat, n: nat, j: nat)
    requires
        den > 0,
        n < 0x20_0000_0000_0000,
        n * pow2(j) * den <= num,
    ensures
        n * pow2(j) <= nearest_double(num, den),
{
    let q = num / den;
    let r = num % den;
    let k = spare_digits(q);
    let unit = pow2(k);
    let bound = n * pow2(j);
    lemma2_to64();
    lemma2_to64_rest();
    lemma_pow2_pos(j);
    lemma_pow2_pos(k);
    digits_bound_numbers(q);
    assert(den * unit > 0) by (nonlinear_arith)
        requires
            den > 0,
            unit > 0,
    ;
    vstd::arithmetic::div_mod::lemma_fundamental_div_mod(num as int, den as int);
    let c: nat = if k > j {
        0x10_0000_0000_0000
    } else {
        n * pow2((j - k) as nat)
    };
    if k > j {
        lemma_pow2_adds(52, k);
        lemma_pow2_adds(1, (k - 1) as nat);
        powers_grow(j, (k - 1) as nat);
        assert(digits(q) - 1 == 52 + k);
        assert(c * (den * unit) <= num) by (nonlinear_arith)
            requires
                c * unit <= q,
                num == den * q + r,
                r >= 0,
                den > 0,
        ;
        assert(bound <= c * unit) by (nonlinear_arith)
            requires
                bound == n * pow2(j),
                n < 0x20_0000_0000_0000,
                2 * pow2(j) <= unit,
                c == 0x10_0000_0000_0000,
        ;
    } else {
        lemma_pow2_adds((j - k) as nat, k);
        assert(bound == c * unit && bound * den == c * (den * unit)) by (nonlinear_arith)
            requires
                bound == n * pow2(j),
                pow2(j) == pow2((j - k) as nat) * unit,
                c == n * pow2((j - k) as nat),
        ;
    }
    let top = num + 1;
    assert(num <= top * (den * unit)) by (nonlinear_arith)
        requires
            den * unit >= 1,
            top == num + 1,
    ;
    lemma_nearest_even_between(num, den * unit, c, top);
    let rounded = nearest_even(num, den * unit);
    assert(c * unit <= rounded * unit) by (nonlinear_arith)
        requires
            c <= rounded,
    ;
}

/// A floating-point number is the nearest to itself.
pub proof fn numbers_round_to_themselves(n: nat, j: nat)
    requires
        n < 0x20_0000_0000_0000,
    ensures
        nearest_double(n * pow2(j), 1) == n * pow2(j),
{
    assert(n * pow2(j) * 1 == n * pow2(j));
    rounding_keeps_upper_bounds(n * pow2(j), 1, n, j);
    rounding_keeps_lower_bounds(n * pow2(j), 1, n, j);
}

/// A rounded number has no more than 53 digits, but for zeros at their end.
pub proof fn rounded_numbers_are_short(num: nat, den: nat)
    requires
        den > 0,
    ensures
        nearest_double(num, den) == nearest_even(num, den * pow2(spare_digits(num / den))) * pow2(
            spare_digits(num / den),
        ),
        nearest_even(num, den * pow2(spare_digits(num / den))) <= 0x20_0000_0000_0000,
{
    lemma_unit_fits(num, den);
}

impl Double {
    /// Whether a number is less than another.
    pub fn is_below(self, other: Double) -> (r: bool)
        requires
            self.wf(),
            other.wf(),
        ensures
            r == (self.scaled() < other.scaled()),
    {
        if self.exponent >= other.exponent {
            let gap: u32 = self.exponent - other.exponent;
            proof {
                lemma_common_exponent(self.mantissa as nat, gap as nat, other);
            }
            match shifted(self.mantissa, gap) {
                Some(n) => n < other.mantissa as u128,
                None => false,
            }
        } else {
            let gap: u32 = other.exponent - self.exponent;
            proof {
                lemma_common_exponent(other.mantissa as nat, gap as nat, self);
            }
            match shifted(other.mantissa, gap) {
                Some(n) => (self.mantissa as u128) < n,
                None => true,
            }
        }
    }
}

/// A mantissa times a power of two; `None` where that is more than any mantissa.
fn shifted(mantissa: u64, gap: u32) -> (r: Option<u128>)
    ensures
        match r {
            Some(n) => n == mantissa as nat * pow2(gap as nat),
            None => mantissa as nat * pow2(gap as nat) >= 0x1_0000_0000_0000_0000,
        },
{
    if mantissa == 0 {
        assert(0 * pow2(gap as nat) == 0);
        return Some(0);
    }
    if gap >= 64 {
        proof {
            lemma2_to64_rest();
            powers_grow(64, gap as nat);
            assert(mantissa * pow2(gap as nat) >= pow2(gap as nat)) by (nonlinear_arith)
                requires
                    mantissa >= 1,
            ;
        }
        return None;
    }
    let unit: u128 = power_of_two(gap);
    proof {
        lemma2_to64_rest();
        powers_grow(gap as nat, 63);
        assert(mantissa * unit <= 0xFFFF_FFFF_FFFF_FFFF * 0x8000_0000_0000_0000)
            by (nonlinear_arith)
            requires
                mantissa <= 0xFFFF_FFFF_FFFF_FFFF,
                unit <= 0x8000_0000_0000_0000,
        ;
    }
    Some(mantissa as u128 * unit)
}

/// Two numbers over one exponent are as their mantissas are.
proof fn lemma_common_exponent(mantissa: nat, gap: nat, other: Double)
    ensures
        (mantissa * pow2(gap + other.exponent as nat) < other.scaled()) == (mantissa * pow2(gap)
            < other.mantissa),
        (other.scaled() < mantissa * pow2(gap + other.exponent as nat)) == (other.mantissa
            < mantissa * pow2(gap)),
{
    let e = pow2(other.exponent as nat);
    lemma_pow2_adds(gap, other.exponent as nat);
    lemma_pow2_pos(other.exponent as nat);
    let a = mantissa * pow2(gap);
    let b = other.mantissa as nat;
    assert(mantissa * (pow2(gap) * e) == a * e) by (nonlinear_arith)
        requires
            a == mantissa * pow2(gap),
    ;
    assert((a * e < b * e) == (a < b)) by (nonlinear_arith)
        requires
            e > 0,
    ;
    assert((b * e < a * e) == (b < a)) by (nonlinear_arith)
        requires
            e > 0,
    ;
}

/// Rounding goes to the nearest whole number: it is never off by more than a half, and where
/// it is off by just a half the result is even.
pub proof fn rounding_goes_to_the_nearest(num: nat, den: nat)
    requires
        den > 0,
    ensures
        2 * num - den <= 2 * (nearest_even(num, den) * den) <= 2 * num + den,
        2 * (nearest_even(num, den) * den) == 2 * num - den || 2 * (nearest_even(num, den) * den)
            == 2 * num + den ==> nearest_even(num, den) % 2 == 0,
{
    let q = num / den;
    let r = num % den;
    vstd::arithmetic::div_mod::lemma_fundamental_div_mod(num as int, den as int);
    vstd::arithmetic::div_mod::lemma_mod_bound(num as int, den as int);
    assert(2 * (q * den) == 2 * num - 2 * r) by (nonlinear_arith)
        requires
            num == den * q + r,
    ;
    assert((q + 1) * den == q * den + den) by (nonlinear_arith);
}

/// A floating-point number is as near to what it stands for as 53 digits allow: it is off by
/// at most one part in two to the power 53, or by half of the smallest number there is.
pub proof fn rounding_loses_less_than_a_digit(num: nat, den: nat)
    requires
        den > 0,
    ensures
        ({
            let off = nearest_double(num, den) * den - num;
            ||| -(den as int) <= 2 * off <= den
            ||| -(num as int) <= 0x20_0000_0000_0000 * off <= num
        }),
{
    let q = num / den;
    let k = spare_digits(q);
    let unit = pow2(k);
    let n = nearest_even(num, den * unit);
    lemma_pow2_pos(k);
    assert(den * unit > 0) by (nonlinear_arith)
        requires
            den > 0,
            unit > 0,
    ;
    rounding_goes_to_the_nearest(num, den * unit);
    let off = nearest_double(num, den) * den - num;
    assert(n * unit * den == n * (den * unit)) by (nonlinear_arith);
    if k == 0 {
        lemma2_to64();
        assert(den * unit == den) by (nonlinear_arith)
            requires
                unit == 1,
        ;
    } else {
        digits_bound_numbers(q);
        lemma2_to64_rest();
        lemma_pow2_adds(52, k);
        assert(q >= 0x10_0000_0000_0000 * unit);
        vstd::arithmetic::div_mod::lemma_fundamental_div_mod(num as int, den as int);
        assert(num >= 0x10_0000_0000_0000 * (den * unit)) by (nonlinear_arith)
            requires
                num >= den * q,
                q >= 0x10_0000_0000_0000 * unit,
        ;
    }
}

} // verus!
