//! Building bit patterns from whole numbers.
//!
//! Nothing here rounds: each function returns the pattern of a value that
//! the format holds exactly, and says so in quanta.

use vstd::prelude::*;
use vstd::arithmetic::power2::{
    pow2, lemma2_to64, lemma_pow2_adds, lemma_pow2_pos, lemma_pow2_strictly_increases,
    lemma_pow2_unfold,
};
use vstd::arithmetic::mul::lemma_mul_is_associative;
use crate::precision::Precision;
use crate::value::lemma_fields;

verus! {

/// Adds a significand, leading bit included, onto an exponent field that is
/// one too low. The leading bit raises the field by one; a significand that
/// rounding pushed up to twice the scale raises it by two.
pub fn pack(prec: Precision, e: u32, sig: u64) -> (bits: u64)
    requires
        prec.scale() <= sig <= 2 * prec.scale(),
        e + 3 <= prec.exponent_limit(),
    ensures
        bits == e * prec.scale() + sig,
        bits < prec.pattern_limit(),
        !prec.is_negative(bits as int),
        prec.is_finite(bits as int),
        prec.value_of(bits as int) == sig * pow2(e as nat),
{
    proof {
        prec.lemma_packed(e as nat, sig as nat);
    }
    (e as u64) * prec.scale() + sig
}

/// Doubles `n` until its leading bit stands where a significand has it.
/// Returns the result and the number of doublings.
///
/// A number below the scale is doubled at least once, so it comes out even.
pub fn normalise(prec: Precision, n: u64) -> (r: (u64, u32))
    requires
        0 < n < 2 * prec.scale(),
    ensures
        prec.scale() <= r.0 < 2 * prec.scale(),
        r.0 == n * pow2(r.1 as nat),
        r.1 <= prec.mantissa_bits(),
        n < prec.scale() ==> r.0 <= 2 * prec.scale() - 2,
{
    let scale = prec.scale();
    let mut sig: u64 = n;
    let mut shift: u32 = 0;
    proof {
        lemma2_to64();
    }
    while sig < scale
        invariant
            scale == prec.scale(),
            0 < n,
            0 < sig < 2 * scale,
            sig == n * pow2(shift as nat),
            shift <= prec.mantissa_bits(),
            n < scale ==> sig <= 2 * scale - 2,
        decreases 2 * scale - sig,
    {
        proof {
            prec.lemma_constants();
            lemma_pow2_pos(shift as nat);
            assert(pow2(shift as nat) <= n * pow2(shift as nat)) by (nonlinear_arith)
                requires
                    0 < n,
                    0 < pow2(shift as nat),
            ;
            if shift >= prec.mantissa_bits() {
                if shift > prec.mantissa_bits() {
                    lemma_pow2_strictly_increases(prec.mantissa_bits() as nat, shift as nat);
                }
                assert(false);
            }
            lemma_pow2_unfold((shift + 1) as nat);
            assert(n * (2 * pow2(shift as nat)) == 2 * (n * pow2(shift as nat)))
                by (nonlinear_arith);
        }
        sig = sig * 2;
        shift = shift + 1;
    }
    (sig, shift)
}

/// The pattern of `n * 2^-s`, exactly.
///
/// `n` may use one bit more than the mantissa holds, which is all that a
/// significand has; `s` below the bias keeps the result clear of the
/// subnormal range.
pub fn from_dyadic(prec: Precision, n: u64, s: u32) -> (bits: u64)
    requires
        n < 2 * prec.scale(),
        s < prec.bias(),
    ensures
        bits < prec.pattern_limit(),
        !prec.is_negative(bits as int),
        prec.is_finite(bits as int),
        prec.value_of(bits as int) == n * prec.two_to_minus(s as nat),
{
    if n == 0 {
        proof {
            prec.lemma_zero();
        }
        return 0;
    }
    let (sig, shift) = normalise(prec, n);
    let e: u32 = (prec.bias() - 1 - s) + (prec.mantissa_bits() - shift);
    proof {
        lemma_pow2_adds(shift as nat, e as nat);
        lemma_mul_is_associative(n as int, pow2(shift as nat) as int, pow2(e as nat) as int);
    }
    pack(prec, e, sig)
}

/// The mantissa bits of a word: what is left of it below the scale.
pub fn mantissa_of(prec: Precision, word: u64) -> (mantissa: u64)
    ensures
        mantissa == word % prec.scale(),
        mantissa < prec.scale(),
{
    proof {
        match prec {
            Precision::Single => {
                assert(word & 0x7F_FFFFu64 == word % 0x80_0000u64) by (bit_vector);
            },
            Precision::Double => {
                assert(word & 0xF_FFFF_FFFF_FFFFu64 == word % 0x10_0000_0000_0000u64)
                    by (bit_vector);
            },
        }
    }
    word & prec.mantissa_mask()
}

/// The pattern of the value in `[1, 2)` whose mantissa is the low bits of
/// `word`: the fixed sign and exponent bits with the mantissa filled in.
///
/// Whatever the word, the result is a finite number, one plus a whole number
/// of epsilons, at least one and below two.
pub fn one_to_two(prec: Precision, word: u64) -> (bits: u64)
    ensures
        bits == prec.unit_pattern() + word % prec.scale(),
        bits < prec.pattern_limit(),
        !prec.is_negative(bits as int),
        prec.is_finite(bits as int),
        prec.exponent_of(bits as int) == prec.bias(),
        prec.fraction_of(bits as int) == word % prec.scale(),
        prec.value_of(bits as int) == prec.one() + (word % prec.scale()) * prec.epsilon(),
        prec.one() <= prec.value_of(bits as int) < 2 * prec.one(),
{
    let mantissa = mantissa_of(prec, word);
    let bits = prec.unit_pattern() | mantissa;
    proof {
        match prec {
            Precision::Single => {
                assert(0x3F80_0000u64 | mantissa == 0x3F80_0000u64 + mantissa) by (bit_vector)
                    requires
                        mantissa < 0x80_0000u64,
                ;
            },
            Precision::Double => {
                assert(0x3FF0_0000_0000_0000u64 | mantissa == 0x3FF0_0000_0000_0000u64
                    + mantissa) by (bit_vector)
                    requires
                        mantissa < 0x10_0000_0000_0000u64,
                ;
            },
        }
        let f = mantissa as int;
        let s = prec.scale() as int;
        let eps = prec.epsilon() as int;
        prec.lemma_constants();
        lemma_fields(s, prec.exponent_limit() + 1, prec.bias() as int, f);
        lemma_pow2_pos((prec.bias() - 1) as nat);
        assert((s + f) * eps == s * eps + f * eps && 0 <= f * eps < s * eps) by (nonlinear_arith)
            requires
                0 <= f < s,
                0 < eps,
        ;
    }
    bits
}

/// Takes one away from a value in `[1, 2)`. The difference is exact: it is
/// the mantissa, counted in epsilons.
pub fn minus_one(prec: Precision, bits: u64) -> (diff: u64)
    requires
        bits < prec.pattern_limit(),
        !prec.is_negative(bits as int),
        prec.exponent_of(bits as int) == prec.bias(),
    ensures
        diff < prec.pattern_limit(),
        !prec.is_negative(diff as int),
        prec.is_finite(diff as int),
        prec.value_of(diff as int) == prec.value_of(bits as int) - prec.one(),
        prec.value_of(diff as int) == prec.fraction_of(bits as int) * prec.epsilon(),
{
    let mantissa = mantissa_of(prec, bits);
    proof {
        let f = mantissa as int;
        let s = prec.scale() as int;
        let eps = prec.epsilon() as int;
        prec.lemma_constants();
        assert((s + f) * eps == s * eps + f * eps) by (nonlinear_arith);
    }
    from_dyadic(prec, mantissa, prec.mantissa_bits())
}

} // verus!
