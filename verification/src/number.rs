//! Sums and shares of 64-bit floating-point numbers, with those that are infinite and
//! those that are none.

use crate::double::{
    double_quotient, double_sum, powers_grow, rounding_keeps_upper_bounds, scaled_value, Double,
    SignedDouble,
};
use crate::float_bits::{
    exceeds, exponent_bits, fraction_bits, is_finite, is_nan, is_negative,
    larger_bits_are_larger_numbers, means_nothing, scaled_size, smaller_numbers_have_smaller_bits,
    unsigned_bits,
};
use crate::text::{decimal, digit, digit_char};
use vstd::arithmetic::power2::{
    lemma2_to64, lemma2_to64_rest, lemma_pow2_adds, lemma_pow2_pos, pow2,
};
use vstd::prelude::*;

verus! {

/// What a floating-point number is.
pub enum Number {
    /// No number at all.
    Nothing,
    Infinite { negative: bool },
    /// A finite number, times two to the power 1074, which makes it whole.
    Finite(int),
}

/// The number that some bits mean. The two zeros are one.
pub open spec fn number_of(bits: u64) -> Number {
    if is_nan(bits) {
        Number::Nothing
    } else if !is_finite(bits) {
        Number::Infinite { negative: is_negative(bits) }
    } else {
        Number::Finite(scaled_value(bits))
    }
}

/// A rounded number: infinite where no exponent is large enough for it.
pub open spec fn in_range(value: int) -> Number {
    if value >= pow2(2098) {
        Number::Infinite { negative: false }
    } else if value <= -(pow2(2098) as int) {
        Number::Infinite { negative: true }
    } else {
        Number::Finite(value)
    }
}

/// The sum of two numbers.
pub open spec fn number_sum(a: Number, b: Number) -> Number {
    match (a, b) {
        (Number::Finite(x), Number::Finite(y)) => in_range(double_sum(x, y)),
        (Number::Nothing, _) => Number::Nothing,
        (_, Number::Nothing) => Number::Nothing,
        (Number::Infinite { negative: x }, Number::Infinite { negative: y }) => if x == y {
            a
        } else {
            Number::Nothing
        },
        (Number::Infinite { .. }, _) => a,
        (_, Number::Infinite { .. }) => b,
    }
}

/// A number divided by a count.
pub open spec fn number_share(a: Number, count: nat) -> Number {
    match a {
        Number::Finite(x) => if x < 0 {
            Number::Finite(-(double_quotient((-x) as nat, count * pow2(1074)) as int))
        } else {
            Number::Finite(double_quotient(x as nat, count * pow2(1074)) as int)
        },
        _ => a,
    }
}

/// A number with the opposite sign.
pub open spec fn number_negated(a: Number) -> Number {
    match a {
        Number::Nothing => a,
        Number::Infinite { negative } => Number::Infinite { negative: !negative },
        Number::Finite(x) => Number::Finite(-x),
    }
}

/// Whether a number is below a finite one that is given times two to the power 1074.
pub open spec fn number_is_below(a: Number, bound: int) -> bool {
    match a {
        Number::Nothing => false,
        Number::Infinite { negative } => negative,
        Number::Finite(x) => x < bound,
    }
}

/// The whole part of a number, towards zero, as far as 32 bits with a sign reach; 0
/// where there is no number.
pub open spec fn whole_part_of(a: Number) -> int {
    match a {
        Number::Nothing => 0,
        Number::Infinite { negative } => if negative {
            i32::MIN as int
        } else {
            i32::MAX as int
        },
        Number::Finite(x) => if x < 0 {
            let whole = (-x) / pow2(1074) as int;
            if whole > 0x8000_0000 {
                i32::MIN as int
            } else {
                -whole
            }
        } else {
            let whole = x / pow2(1074) as int;
            if whole > i32::MAX {
                i32::MAX as int
            } else {
                whole
            }
        },
    }
}

/// The bits of infinity.
const INFINITY_BITS: u64 = 0x7FF0_0000_0000_0000;

/// Bits that mean no number.
const NOTHING_BITS: u64 = 0x7FF8_0000_0000_0000;

/// The bits of two to the power 31.
const WHOLE_LIMIT_BITS: u64 = 0x41E0_0000_0000_0000;

/// Whether bits mean a finite number.
fn means_finite(bits: u64) -> (r: bool)
    ensures
        r == is_finite(bits),
{
    bits % 0x8000_0000_0000_0000 < INFINITY_BITS
}

/// The bits of infinity.
fn infinity(negative: bool) -> (r: u64)
    ensures
        number_of(r) == (Number::Infinite { negative }),
{
    assert(exponent_bits(INFINITY_BITS) == 0x7FF);
    assert(fraction_bits(INFINITY_BITS) == 0);
    if negative {
        assert(unsigned_bits(0xFFF0_0000_0000_0000) == INFINITY_BITS);
        0xFFF0_0000_0000_0000
    } else {
        INFINITY_BITS
    }
}

/// The sum of two numbers, by their bits.
pub fn sum_of_bits(a: u64, b: u64) -> (r: u64)
    ensures
        number_of(r) == number_sum(number_of(a), number_of(b)),
{
    if means_nothing(a) || means_nothing(b) {
        assert(exponent_bits(NOTHING_BITS) == 0x7FF);
        return NOTHING_BITS;
    }
    let a_negative: bool = a >= 0x8000_0000_0000_0000;
    let b_negative: bool = b >= 0x8000_0000_0000_0000;
    if !means_finite(a) {
        return if means_finite(b) || a_negative == b_negative {
            a
        } else {
            assert(exponent_bits(NOTHING_BITS) == 0x7FF);
            NOTHING_BITS
        };
    }
    if !means_finite(b) {
        return b;
    }
    let sum: SignedDouble = SignedDouble::from_bits(a).plus(SignedDouble::from_bits(b));
    let limit: Double = Double { mantissa: 1, exponent: 2098 };
    proof {
        lemma_pow2_pos(2098);
        assert(limit.scaled() == pow2(2098));
    }
    if sum.size.is_below(limit) {
        sum.to_bits()
    } else {
        infinity(sum.negative)
    }
}

/// The bits of a whole number.
pub fn bits_of_whole(n: i64) -> (r: u64)
    requires
        -(u32::MAX as int) <= n <= u32::MAX,
    ensures
        number_of(r) == Number::Finite(n * pow2(1074)),
{
    let negative: bool = n < 0;
    let size: u32 = if n < 0 {
        (-n) as u32
    } else {
        n as u32
    };
    let whole = SignedDouble { negative, size: Double::whole(size) };
    proof {
        let one = pow2(1074);
        lemma2_to64();
        lemma_pow2_pos(1074);
        lemma_pow2_adds(32, 1074);
        powers_grow(1106, 2098);
        assert(size as nat * one < 0x1_0000_0000 * one) by (nonlinear_arith)
            requires
                size < 0x1_0000_0000,
                one > 0,
        ;
        assert(-(size as nat * one) == (-(size as int)) * one) by (nonlinear_arith);
    }
    whole.to_bits()
}

/// The bits of two to the power 31 mean that.
proof fn lemma_whole_limit()
    ensures
        scaled_size(WHOLE_LIMIT_BITS) == 0x8000_0000 * pow2(1074),
        exponent_bits(WHOLE_LIMIT_BITS) == 0x41E,
{
    lemma2_to64();
    lemma2_to64_rest();
    assert(exponent_bits(WHOLE_LIMIT_BITS) == 0x41E);
    assert(fraction_bits(WHOLE_LIMIT_BITS) == 0);
    lemma_pow2_adds(52, 1053);
    lemma_pow2_adds(31, 1074);
}

/// The whole part of a number, by its bits.
pub fn whole_part_of_bits(bits: u64) -> (r: i32)
    ensures
        r == whole_part_of(number_of(bits)),
{
    if means_nothing(bits) {
        return 0;
    }
    let negative: bool = bits >= 0x8000_0000_0000_0000;
    let ghost size = scaled_size(bits);
    let ghost one = pow2(1074);
    proof {
        lemma_whole_limit();
        lemma_pow2_pos(1074);
        vstd::arithmetic::div_mod::lemma_fundamental_div_mod(size as int, one as int);
    }
    let ghost whole = size / one;
    let ghost rest = size % one;
    if exceeds(bits, WHOLE_LIMIT_BITS) {
        proof {
            assert(whole >= 0x8000_0000) by (nonlinear_arith)
                requires
                    one * whole + rest > 0x8000_0000 * one,
                    0 <= rest < one,
            ;
        }
        return if negative {
            i32::MIN
        } else {
            i32::MAX
        };
    }
    proof {
        smaller_numbers_have_smaller_bits(bits, WHOLE_LIMIT_BITS);
        assert(whole <= 0x8000_0000) by (nonlinear_arith)
            requires
                one * whole + rest <= 0x8000_0000 * one,
                0 <= rest < one,
                one > 0,
        ;
        lemma2_to64_rest();
        lemma_pow2_adds(64, 1074);
        assert(0x8000_0000 * one < 0x1_0000_0000_0000_0000 * one) by (nonlinear_arith)
            requires
                one > 0,
        ;
    }
    let n: u64 = Double::from_bits(bits).whole_part();
    if negative {
        (-(n as i64)) as i32
    } else if n > 0x7FFF_FFFF {
        i32::MAX
    } else {
        n as i32
    }
}

/// A number divided by a count is not larger than the number itself.
proof fn lemma_share_is_smaller(size: Double, count: nat)
    requires
        size.wf(),
        count > 0,
    ensures
        double_quotient(size.scaled(), count * pow2(1074)) <= size.scaled(),
{
    let one = pow2(1074);
    let x = size.scaled();
    lemma_pow2_pos(1074);
    assert(count * one > 0) by (nonlinear_arith)
        requires
            count > 0,
            one > 0,
    ;
    assert(x * one <= x * (count * one)) by (nonlinear_arith)
        requires
            count >= 1,
    ;
    rounding_keeps_upper_bounds(x * one, count * one, size.mantissa as nat, size.exponent as nat);
}

/// A finite number is less than what no exponent is large enough for.
proof fn lemma_finite_is_in_range(bits: u64)
    requires
        is_finite(bits),
    ensures
        scaled_size(bits) < pow2(2098),
{
    lemma2_to64_rest();
    assert(exponent_bits(INFINITY_BITS) == 0x7FF);
    assert(fraction_bits(INFINITY_BITS) == 0);
    lemma_pow2_adds(52, 2046);
    larger_bits_are_larger_numbers(bits, INFINITY_BITS);
}

/// A number with the opposite sign, by its bits.
pub fn negated_bits(bits: u64) -> (r: u64)
    ensures
        number_of(r) == number_negated(number_of(bits)),
        unsigned_bits(r) == unsigned_bits(bits),
{
    if bits >= 0x8000_0000_0000_0000 {
        bits - 0x8000_0000_0000_0000
    } else {
        bits + 0x8000_0000_0000_0000
    }
}

/// A number divided by a count, by its bits.
pub fn share_of_bits(bits: u64, count: u32) -> (r: u64)
    requires
        count > 0,
        exponent_bits(bits) > 126,
    ensures
        number_of(r) == number_share(number_of(bits), count as nat),
{
    if !means_finite(bits) {
        return bits;
    }
    let size: Double = Double::from_bits(bits);
    let negative: bool = bits >= 0x8000_0000_0000_0000;
    let share: Double = size.over(Double::whole(count));
    proof {
        lemma_finite_is_in_range(bits);
        lemma_share_is_smaller(size, count as nat);
        lemma_pow2_pos(size.exponent as nat);
        assert(size.scaled() > 0) by (nonlinear_arith)
            requires
                size.scaled() == size.mantissa as nat * pow2(size.exponent as nat),
                size.mantissa > 0,
                pow2(size.exponent as nat) > 0,
        ;
    }
    SignedDouble { negative, size: share }.to_bits()
}

/// Whether a number divided by a count is below a positive one, by their bits.
pub fn share_is_below(bits: u64, count: u32, bound: u64) -> (r: bool)
    requires
        count > 0,
        is_finite(bound),
        scaled_size(bound) >= pow2(200),
    ensures
        r == number_is_below(
            number_share(number_of(bits), count as nat),
            scaled_size(bound) as int,
        ),
{
    if means_nothing(bits) {
        return false;
    }
    let negative: bool = bits >= 0x8000_0000_0000_0000;
    if !means_finite(bits) {
        return negative;
    }
    let size: Double = Double::from_bits(bits);
    let ghost x = size.scaled();
    proof {
        lemma_pow2_pos(200);
        lemma_share_is_smaller(size, count as nat);
    }
    if size.exponent < 126 {
        proof {
            let e = pow2(size.exponent as nat);
            lemma2_to64_rest();
            lemma_pow2_adds(53, 126);
            powers_grow(size.exponent as nat, 126);
            powers_grow(179, 200);
            assert(size.mantissa * e <= 0x20_0000_0000_0000 * pow2(126)) by (nonlinear_arith)
                requires
                    size.mantissa < 0x20_0000_0000_0000,
                    e <= pow2(126),
            ;
            assert(pow2(179) < pow2(200)) by {
                lemma_pow2_adds(179, 21);
                lemma2_to64();
                lemma_pow2_pos(179);
            }
        }
        return true;
    }
    if negative && size.mantissa > 0 {
        return true;
    }
    let share: Double = size.over(Double::whole(count));
    share.is_below(Double::from_bits(bound))
}

// ---------------------------------------------------------------------------
// Decimal notation
// ---------------------------------------------------------------------------

/// The number that decimal digits mean behind `high`.
spec fn digits_value(high: nat, digits: Seq<u8>) -> nat
    decreases digits.len(),
{
    if digits.len() == 0 {
        high
    } else {
        digits_value(high, digits.drop_last()) * 10 + digits.last() as nat
    }
}

/// Decimal digits without a needless zero in front.
spec fn are_digits(digits: Seq<u8>) -> bool {
    &&& digits.len() > 0
    &&& digits[0] > 0
    &&& forall|i: int| 0 <= i < digits.len() ==> #[trigger] digits[i] < 10
}

/// A digit in front may as well stand among the others.
proof fn lemma_digit_in_front(high: u8, digits: Seq<u8>)
    ensures
        digits_value(0, seq![high] + digits) == digits_value(high as nat, digits),
    decreases digits.len(),
{
    let all = seq![high] + digits;
    if digits.len() == 0 {
        assert(all.drop_last() =~= Seq::<u8>::empty());
        assert(digits_value(0, Seq::<u8>::empty()) == 0);
    } else {
        assert(all.drop_last() =~= seq![high] + digits.drop_last());
        lemma_digit_in_front(high, digits.drop_last());
    }
}

/// Digits are the decimal notation of what they mean.
proof fn lemma_digits_are_decimal(digits: Seq<u8>)
    requires
        are_digits(digits),
    ensures
        digits_value(0, digits) > 0,
        decimal(digits_value(0, digits)) == digits.map_values(|d: u8| digit_char(d as nat)),
    decreases digits.len(),
{
    let front = digits.drop_last();
    let n = digits_value(0, digits);
    let chars = digits.map_values(|d: u8| digit_char(d as nat));
    assert(digits.last() < 10);
    if front.len() == 0 {
        assert(digits_value(0, front) == 0);
        assert(chars =~= seq![digit_char(n)]);
    } else {
        lemma_digits_are_decimal(front);
        assert(n / 10 == digits_value(0, front) && n % 10 == digits.last());
        assert(chars =~= front.map_values(|d: u8| digit_char(d as nat)).push(digit_char(n % 10)));
    }
}

/// The digits of a number.
fn digits_of(n: u64) -> (r: Vec<u8>)
    requires
        n > 0,
    ensures
        are_digits(r@),
        digits_value(0, r@) == n,
    decreases n,
{
    if n < 10 {
        let mut r: Vec<u8> = Vec::new();
        r.push(n as u8);
        assert(r@.drop_last() =~= Seq::<u8>::empty());
        assert(digits_value(0, Seq::<u8>::empty()) == 0);
        r
    } else {
        let mut r: Vec<u8> = digits_of(n / 10);
        let ghost front = r@;
        r.push((n % 10) as u8);
        assert(r@.drop_last() =~= front);
        r
    }
}

/// Doubles the first `n` digits and adds a carry. Gives the carry that is left.
fn double_digits(digits: &mut Vec<u8>, n: usize, carry: u8) -> (r: u8)
    requires
        n <= old(digits)@.len(),
        carry <= 1,
        forall|i: int| 0 <= i < old(digits)@.len() ==> #[trigger] old(digits)@[i] < 10,
    ensures
        r <= 1,
        final(digits)@.len() == old(digits)@.len(),
        forall|i: int| 0 <= i < final(digits)@.len() ==> #[trigger] final(digits)@[i] < 10,
        final(digits)@.skip(n as int) == old(digits)@.skip(n as int),
        digits_value(r as nat, final(digits)@.take(n as int)) == 2 * digits_value(
            0,
            old(digits)@.take(n as int),
        ) + carry,
        n > 0 && old(digits)@[0] > 0 && r == 0 ==> final(digits)@[0] > 0,
    decreases n,
{
    let ghost before = digits@;
    if n == 0 {
        assert(before.take(0) =~= Seq::<u8>::empty());
        return carry;
    }
    let last: usize = n - 1;
    let d: u8 = digits[last];
    assert(d < 10);
    let twice: u8 = 2 * d + carry;
    digits.set(last, twice % 10);
    let ghost middle = digits@;
    assert(middle.take(last as int) =~= before.take(last as int));
    let r: u8 = double_digits(digits, last, twice / 10);
    proof {
        let after = digits@;
        assert(before.take(n as int).drop_last() =~= before.take(last as int));
        assert(after.take(n as int).drop_last() =~= after.take(last as int));
        assert(after.skip(last as int)[0] == middle.skip(last as int)[0]);
        assert(after[last as int] == twice % 10);
        assert forall|i: int| 0 <= i < after.len() - n implies after.skip(n as int)[i]
            == before.skip(n as int)[i] by {
            assert(after.skip(last as int)[i + 1] == middle.skip(last as int)[i + 1]);
        }
        assert(after.skip(n as int) =~= before.skip(n as int));
    }
    r
}

/// Appends `n` times two to the power `k` in decimal notation.
pub fn append_large_decimal(s: &mut String, n: u64, k: u32)
    requires
        n > 0,
    ensures
        final(s)@ == old(s)@ + decimal(n as nat * pow2(k as nat)),
{
    let mut digits: Vec<u8> = digits_of(n);
    let mut i: u32 = 0;
    proof {
        lemma2_to64();
    }
    while i < k
        invariant
            i <= k,
            are_digits(digits@),
            digits_value(0, digits@) == n as nat * pow2(i as nat),
        decreases k - i,
    {
        let ghost before = digits@;
        let len: usize = digits.len();
        let carry: u8 = double_digits(&mut digits, len, 0);
        proof {
            assert(before.take(len as int) =~= before);
            assert(digits@.take(len as int) =~= digits@);
            lemma_digit_in_front(carry, digits@);
            lemma_pow2_adds(1, i as nat);
            lemma2_to64();
            assert(2 * (n as nat * pow2(i as nat)) == n as nat * (2 * pow2(i as nat)))
                by (nonlinear_arith);
        }
        if carry > 0 {
            let ghost doubled = digits@;
            digits.insert(0, carry);
            assert(digits@ =~= seq![carry] + doubled);
        }
        i = i + 1;
    }
    proof {
        lemma_digits_are_decimal(digits@);
    }
    let ghost chars = digits@.map_values(|d: u8| digit_char(d as nat));
    let mut j: usize = 0;
    while j < digits.len()
        invariant
            j <= digits@.len(),
            are_digits(digits@),
            chars == digits@.map_values(|d: u8| digit_char(d as nat)),
            s@ == old(s)@ + chars.take(j as int),
        decreases digits.len() - j,
    {
        assert(digits@[j as int] < 10);
        s.push(digit(digits[j]));
        j = j + 1;
        assert(s@ =~= old(s)@ + chars.take(j as int));
    }
    assert(chars.take(digits@.len() as int) =~= chars);
}

} // verus!
