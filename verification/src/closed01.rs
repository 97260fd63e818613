//! The closed unit interval `[0, 1]`.

use vstd::prelude::*;
use crate::precision::Precision;
use crate::binary::{Binary32, Binary64};
use crate::source::{BitSource, Draw};
use crate::encode::mantissa_of;
use crate::rounding::stretch;
use vstd::arithmetic::div_mod::lemma_mod_bound;

verus! {

/// Samples values from `[0, 1]`, both ends included.
///
/// The sample that [`crate::uniform::Uniform`] gives is at most one less
/// epsilon; multiplying it by `scale / (scale - 1)` carries that largest
/// sample onto one and leaves zero where it is. The product is the mantissa
/// divided by the largest mantissa, and the result is the value of the
/// format nearest to that quotient. Towards one the samples lie a little
/// closer together than towards zero.
#[derive(Clone, Copy, Debug)]
pub struct Closed01;

impl Closed01 {
    /// What `bits` must be for the random word `word`: the non-negative
    /// number nearest to the mantissa bits of the word divided by the
    /// largest mantissa.
    pub open spec fn yields(prec: Precision, word: int, bits: int) -> bool {
        &&& 0 <= bits < prec.pattern_limit()
        &&& !prec.is_negative(bits)
        &&& prec.is_nearest(bits, word % (prec.scale() as int), prec.scale() - 1)
    }

    /// The sample that one random word gives, in either format.
    pub fn transform(prec: Precision, word: u64) -> (bits: u64)
        ensures
            Self::yields(prec, word as int, bits as int),
            0 <= prec.value_of(bits as int) <= prec.one(),
    {
        let mantissa = mantissa_of(prec, word);
        let bits = stretch(prec, mantissa);
        proof {
            Self::lemma_closed(prec, word as int, bits as int);
        }
        bits
    }

    /// The binary32 sample that one random word gives.
    pub fn transform32(word: u32) -> (x: Binary32)
        ensures
            Self::yields(Precision::Single, word as int, x@),
            0 <= x.value() <= Precision::Single.one(),
    {
        let bits = Self::transform(Precision::Single, word as u64);
        Binary32::from_bits(bits as u32)
    }

    /// The binary64 sample that one random word gives.
    pub fn transform64(word: u64) -> (x: Binary64)
        ensures
            Self::yields(Precision::Double, word as int, x@),
            0 <= x.value() <= Precision::Double.one(),
    {
        Binary64::from_bits(Self::transform(Precision::Double, word))
    }

    /// Draws one 32-bit word and returns its binary32 sample. The source is asked
    /// once, for that word and no other.
    pub fn sample32<R: BitSource>(&self, rng: &mut R) -> (x: Binary32)
        ensures
            final(rng).drawn() == old(rng).drawn().push(final(rng).drawn().last()),
            final(rng).drawn().last() matches Draw::Narrow(word) && Self::yields(
                Precision::Single,
                word as int,
                x@,
            ),
            0 <= x.value() <= Precision::Single.one(),
    {
        let word = rng.next_u32();
        Self::transform32(word)
    }

    /// Draws one 64-bit word and returns its binary64 sample. The source is asked
    /// once, for that word and no other.
    pub fn sample64<R: BitSource>(&self, rng: &mut R) -> (x: Binary64)
        ensures
            final(rng).drawn() == old(rng).drawn().push(final(rng).drawn().last()),
            final(rng).drawn().last() matches Draw::Wide(word) && Self::yields(
                Precision::Double,
                word as int,
                x@,
            ),
            0 <= x.value() <= Precision::Double.one(),
    {
        let word = rng.next_u64();
        Self::transform64(word)
    }

    /// Every sample is at least zero and at most one.
    pub proof fn lemma_closed(prec: Precision, word: int, bits: int)
        requires
            Self::yields(prec, word, bits),
        ensures
            0 <= prec.value_of(bits) <= prec.one(),
    {
        let s = prec.scale() as int;
        let d = s - 1;
        let m = word % s;
        let v = prec.value_of(bits);
        let one = prec.one() as int;
        prec.lemma_magnitude_bounds(bits);
        prec.lemma_one();
        lemma_mod_bound(word, s);
        if v > one {
            assert(prec.is_finite(prec.unit_pattern() as int));
            assert(prec.gap(bits, m, d) > prec.gap(prec.unit_pattern() as int, m, d))
                by (nonlinear_arith)
                requires
                    prec.gap(bits, m, d) == (if v * d - m * one < 0 {
                        -(v * d - m * one)
                    } else {
                        v * d - m * one
                    }),
                    prec.gap(prec.unit_pattern() as int, m, d) == (if one * d - m * one < 0 {
                        -(one * d - m * one)
                    } else {
                        one * d - m * one
                    }),
                    v > one,
                    0 <= m <= d,
                    0 < d,
                    0 < one,
            ;
        }
    }

    /// The two ends are reached: mantissa zero gives zero, and the largest
    /// mantissa gives one.
    pub proof fn lemma_ends(prec: Precision, word: int, bits: int)
        requires
            Self::yields(prec, word, bits),
        ensures
            word % (prec.scale() as int) == 0 ==> prec.value_of(bits) == 0,
            word % (prec.scale() as int) == prec.scale() - 1 ==> prec.value_of(bits)
                == prec.one(),
    {
        let s = prec.scale() as int;
        let d = s - 1;
        let m = word % s;
        let v = prec.value_of(bits);
        let one = prec.one() as int;
        prec.lemma_one();
        prec.lemma_zero();
        if m == 0 && v != 0 {
            assert(prec.value_of(0) * d - m * one == 0) by (nonlinear_arith)
                requires
                    prec.value_of(0) == 0,
                    m == 0,
            ;
            assert(prec.gap(0, m, d) == 0);
        }
        if m == d && v != one {
            assert(prec.is_finite(prec.unit_pattern() as int));
            assert(prec.value_of(prec.unit_pattern() as int) * d - m * one == 0)
                by (nonlinear_arith)
                requires
                    prec.value_of(prec.unit_pattern() as int) == one,
                    m == d,
            ;
            assert(prec.gap(prec.unit_pattern() as int, m, d) == 0);
        }
    }

    /// A larger mantissa never gives a smaller sample.
    pub proof fn lemma_monotonic(prec: Precision, word1: int, bits1: int, word2: int, bits2: int)
        requires
            Self::yields(prec, word1, bits1),
            Self::yields(prec, word2, bits2),
            word1 % (prec.scale() as int) <= word2 % (prec.scale() as int),
        ensures
            prec.value_of(bits1) <= prec.value_of(bits2),
    {
        let s = prec.scale() as int;
        let d = s - 1;
        let m1 = word1 % s;
        let m2 = word2 % s;
        let v1 = prec.value_of(bits1);
        let v2 = prec.value_of(bits2);
        let one = prec.one() as int;
        if v1 > v2 {
            let t1 = m1 * one;
            let t2 = m2 * one;
            let a = v1 * d;
            let c = v2 * d;
            assert(prec.gap(bits1, m1, d) < prec.gap(bits2, m1, d));
            assert(prec.gap(bits2, m2, d) < prec.gap(bits1, m2, d));
            assert(a > c) by (nonlinear_arith)
                requires
                    a == v1 * d,
                    c == v2 * d,
                    v1 > v2,
                    d > 0,
            ;
            assert(t1 <= t2) by (nonlinear_arith)
                requires
                    t1 == m1 * one,
                    t2 == m2 * one,
                    m1 <= m2,
                    0 <= one,
            ;
            assert(false);
        }
    }
}

} // verus!
