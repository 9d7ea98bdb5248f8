//! 64-bit floating-point numbers by their bits: one for the sign, eleven for the
//! exponent, fifty-two for the fraction.

use vstd::arithmetic::power2::{
    lemma2_to64, lemma2_to64_rest, lemma_pow2_adds, lemma_pow2_pos, pow2,
};
use vstd::prelude::*;

verus! {

/// The bound of relative motion and scrolling. Browsers never send more.
pub const MAX_INPUT_DELTA: u32 = 10_000;

/// The bits behind the sign.
pub open spec fn unsigned_bits(bits: u64) -> nat {
    (bits % 0x8000_0000_0000_0000) as nat
}

/// The exponent's bits.
pub open spec fn exponent_bits(bits: u64) -> nat {
    unsigned_bits(bits) / 0x10_0000_0000_0000
}

/// The fraction's bits.
pub open spec fn fraction_bits(bits: u64) -> nat {
    unsigned_bits(bits) % 0x10_0000_0000_0000
}

/// Whether a number has a minus sign.
pub open spec fn is_negative(bits: u64) -> bool {
    bits >= 0x8000_0000_0000_0000
}

/// Whether the bits mean no number at all.
pub open spec fn is_nan(bits: u64) -> bool {
    exponent_bits(bits) == 0x7FF && fraction_bits(bits) != 0
}

/// Whether a number is neither infinite nor none.
pub open spec fn is_finite(bits: u64) -> bool {
    exponent_bits(bits) != 0x7FF
}

/// The size of a finite number, without its sign, times two to the power 1074,
/// which makes it whole.
pub open spec fn scaled_size(bits: u64) -> nat {
    if exponent_bits(bits) == 0 {
        fraction_bits(bits)
    } else {
        (0x10_0000_0000_0000 + fraction_bits(bits)) as nat * pow2(
            (exponent_bits(bits) - 1) as nat,
        )
    }
}

/// Whether a number is finite and its size is at most `bound`.
pub open spec fn is_bounded(bits: u64, bound: nat) -> bool {
    is_finite(bits) && scaled_size(bits) <= bound * pow2(1074)
}

/// The bits of 10000.
const BOUND_BITS: u64 = 0x40C3_8800_0000_0000;

/// Whether a relative motion or a scroll is safe to inject: both deltas are
/// finite, and neither is larger than [`MAX_INPUT_DELTA`]. The deltas are given by
/// their bits.
pub fn is_finite_bounded_delta(dx: u64, dy: u64) -> (r: bool)
    ensures
        r == (is_bounded(dx, MAX_INPUT_DELTA as nat) && is_bounded(dy, MAX_INPUT_DELTA as nat)),
{
    bounded(dx) && bounded(dy)
}

fn bounded(bits: u64) -> (r: bool)
    ensures
        r == is_bounded(bits, MAX_INPUT_DELTA as nat),
{
    proof {
        lemma_bound_bits();
        if unsigned_bits(bits) < unsigned_bits(BOUND_BITS) {
            larger_bits_are_larger_numbers(bits, BOUND_BITS);
        } else if unsigned_bits(bits) > unsigned_bits(BOUND_BITS) {
            larger_bits_are_larger_numbers(BOUND_BITS, bits);
        } else {
            assert(scaled_size(bits) == scaled_size(BOUND_BITS));
        }
    }
    bits % 0x8000_0000_0000_0000 <= BOUND_BITS
}

/// The bits of 10000 do mean 10000.
proof fn lemma_bound_bits()
    ensures
        unsigned_bits(BOUND_BITS) == BOUND_BITS,
        exponent_bits(BOUND_BITS) == 0x40C,
        scaled_size(BOUND_BITS) == 10_000 * pow2(1074),
{
    assert(fraction_bits(BOUND_BITS) == 0x3_8800_0000_0000);
    assert(exponent_bits(BOUND_BITS) == 0x40C);
    lemma_pow2_adds(39, 1035);
    lemma2_to64_rest();
    assert(pow2(39) == 0x80_0000_0000);
    assert(0x10_0000_0000_0000 + 0x3_8800_0000_0000 == 10_000 * 0x80_0000_0000);
    assert((10_000 * 0x80_0000_0000) * pow2(1035) == 10_000 * (0x80_0000_0000 * pow2(1035)))
        by (nonlinear_arith);
}

/// Of two numbers without their signs, the one with the larger bits is the
/// larger one.
pub proof fn larger_bits_are_larger_numbers(a: u64, b: u64)
    requires
        unsigned_bits(a) < unsigned_bits(b),
    ensures
        scaled_size(a) < scaled_size(b),
{
    let one: nat = 0x10_0000_0000_0000;
    let ea = exponent_bits(a);
    let eb = exponent_bits(b);
    let fa = fraction_bits(a);
    let fb = fraction_bits(b);
    assert(unsigned_bits(a) == ea * one + fa);
    assert(unsigned_bits(b) == eb * one + fb);
    assert(ea <= eb);
    if eb > 0 {
        lemma_pow2_pos((eb - 1) as nat);
        let pb = pow2((eb - 1) as nat);
        assert((one + fb) * pb >= one * pb) by (nonlinear_arith)
            requires
                fb >= 0,
                pb > 0,
        ;
        if ea == eb {
            assert((one + fa) * pb < (one + fb) * pb) by (nonlinear_arith)
                requires
                    fa < fb,
                    pb > 0,
            ;
        } else if ea == 0 {
            assert(one * pb >= one) by (nonlinear_arith)
                requires
                    pb >= 1,
                    one >= 0,
            ;
        } else {
            let pa = pow2((ea - 1) as nat);
            let gap = (eb - ea) as nat;
            lemma_pow2_pos((ea - 1) as nat);
            lemma_pow2_adds((ea - 1) as nat, gap);
            lemma_at_least_two(gap);
            assert(pb == pa * pow2(gap));
            assert((one + fa) * pa < 2 * one * pa) by (nonlinear_arith)
                requires
                    fa < one,
                    pa > 0,
            ;
            assert(2 * one * pa <= one * (pa * pow2(gap))) by (nonlinear_arith)
                requires
                    pow2(gap) >= 2,
                    pa > 0,
                    one > 0,
            ;
        }
    }
}

/// A positive power of two is at least two.
proof fn lemma_at_least_two(e: nat)
    requires
        e > 0,
    ensures
        pow2(e) >= 2,
{
    lemma_pow2_adds(1, (e - 1) as nat);
    lemma2_to64();
    lemma_pow2_pos((e - 1) as nat);
    assert(2 * pow2((e - 1) as nat) >= 2);
}

/// Of two numbers without their signs, the one that is not larger has bits that
/// are not larger.
pub proof fn smaller_numbers_have_smaller_bits(a: u64, b: u64)
    requires
        scaled_size(a) <= scaled_size(b),
    ensures
        unsigned_bits(a) <= unsigned_bits(b),
        exponent_bits(a) <= exponent_bits(b),
{
    if unsigned_bits(a) > unsigned_bits(b) {
        larger_bits_are_larger_numbers(b, a);
    }
}

/// Whether the bits mean no number at all.
pub fn means_nothing(bits: u64) -> (r: bool)
    ensures
        r == is_nan(bits),
{
    bits % 0x8000_0000_0000_0000 > 0x7FF0_0000_0000_0000
}

/// Whether a number, without its sign, is larger than `bound`.
pub fn exceeds(bits: u64, bound: u64) -> (r: bool)
    ensures
        r == (!is_nan(bits) && scaled_size(bits) > scaled_size(bound)),
{
    proof {
        if unsigned_bits(bits) < unsigned_bits(bound) {
            larger_bits_are_larger_numbers(bits, bound);
        } else if unsigned_bits(bits) > unsigned_bits(bound) {
            larger_bits_are_larger_numbers(bound, bits);
        } else {
            assert(scaled_size(bits) == scaled_size(bound));
        }
    }
    !means_nothing(bits) && bits % 0x8000_0000_0000_0000 > bound % 0x8000_0000_0000_0000
}

} // verus!
