//! The open unit interval `(0, 1)`.

use vstd::prelude::*;
use crate::precision::Precision;
use crate::binary::{Binary32, Binary64};
use crate::source::{BitSource, Draw};
use crate::encode::{from_dyadic, mantissa_of};
use crate::uniform::Uniform;

verus! {

/// Samples uniformly spaced values from `(0, 1)`, neither end included.
///
/// Each sample lies half an epsilon above the one that [`Uniform`] gives
/// for the same word. Half an epsilon is a value of the format and so is
/// the sum, so nothing is rounded: the smallest sample is half an epsilon
/// and the largest is one less half an epsilon.
#[derive(Clone, Copy, Debug)]
pub struct Open01;

impl Open01 {
    /// What `bits` must be for the random word `word`: the non-negative
    /// number worth as many epsilons as the mantissa bits of the word say,
    /// and half an epsilon more.
    pub open spec fn yields(prec: Precision, word: int, bits: int) -> bool {
        &&& 0 <= bits < prec.pattern_limit()
        &&& prec.is_finite(bits)
        &&& !prec.is_negative(bits)
        &&& prec.value_of(bits) == (word % (prec.scale() as int)) * prec.epsilon()
            + prec.half_epsilon()
    }

    /// The sample that one random word gives, in either format.
    pub fn transform(prec: Precision, word: u64) -> (bits: u64)
        ensures
            Self::yields(prec, word as int, bits as int),
            0 < prec.value_of(bits as int) < prec.one(),
    {
        let mantissa = mantissa_of(prec, word);
        let bits = from_dyadic(prec, 2 * mantissa + 1, prec.mantissa_bits() + 1);
        proof {
            let m = mantissa as int;
            let half = prec.half_epsilon() as int;
            prec.lemma_constants();
            assert((2 * m + 1) * half == m * (2 * half) + half) by (nonlinear_arith);
            Self::lemma_open(prec, word as int, bits as int);
        }
        bits
    }

    /// The binary32 sample that one random word gives.
    pub fn transform32(word: u32) -> (x: Binary32)
        ensures
            Self::yields(Precision::Single, word as int, x@),
            0 < x.value() < Precision::Single.one(),
    {
        let bits = Self::transform(Precision::Single, word as u64);
        Binary32::from_bits(bits as u32)
    }

    /// The binary64 sample that one random word gives.
    pub fn transform64(word: u64) -> (x: Binary64)
        ensures
            Self::yields(Precision::Double, word as int, x@),
            0 < x.value() < Precision::Double.one(),
    {
        Binary64::from_bits(Self::transform(Precision::Double, word))
    }

    /// Draws one 32-bit word and returns its binary32 sample. The source is asked
    /// once, for that word and no other.
    pub fn sample32<R: BitSource>(&self, rng: &mut R) -> (x: Binary32)
        ensures
            final(rng).drawn() == old(rng).drawn().push(final(rng).drawn().last()),
            final(rng).drawn().last() matches Draw::Narrow(word) && Self::yields(
                Precision::Single,
                word as int,
                x@,
            ),
            0 < x.value() < Precision::Single.one(),
    {
        let word = rng.next_u32();
        Self::transform32(word)
    }

    /// Draws one 64-bit word and returns its binary64 sample. The source is asked
    /// once, for that word and no other.
    pub fn sample64<R: BitSource>(&self, rng: &mut R) -> (x: Binary64)
        ensures
            final(rng).drawn() == old(rng).drawn().push(final(rng).drawn().last()),
            final(rng).drawn().last() matches Draw::Wide(word) && Self::yields(
                Precision::Double,
                word as int,
                x@,
            ),
            0 < x.value() < Precision::Double.one(),
    {
        let word = rng.next_u64();
        Self::transform64(word)
    }

    /// Every sample is more than zero and less than one.
    pub proof fn lemma_open(prec: Precision, word: int, bits: int)
        requires
            Self::yields(prec, word, bits),
        ensures
            0 < prec.value_of(bits) < prec.one(),
    {
        let m = word % (prec.scale() as int);
        let s = prec.scale() as int;
        let half = prec.half_epsilon() as int;
        prec.lemma_constants();
        assert(0 <= m * (2 * half) && m * (2 * half) + half < s * (2 * half)) by (nonlinear_arith)
            requires
                0 <= m < s,
                0 < half,
        ;
    }

    /// A larger mantissa never gives a smaller sample.
    pub proof fn lemma_monotonic(prec: Precision, word1: int, bits1: int, word2: int, bits2: int)
        requires
            Self::yields(prec, word1, bits1),
            Self::yields(prec, word2, bits2),
            word1 % (prec.scale() as int) <= word2 % (prec.scale() as int),
        ensures
            prec.value_of(bits1) <= prec.value_of(bits2),
    {
        prec.lemma_epsilons_ordered(word1 % (prec.scale() as int), word2 % (prec.scale() as int));
    }

    /// For one and the same word, the sample lies exactly half an epsilon
    /// above the sample of the half-open interval.
    pub proof fn lemma_above_uniform(prec: Precision, word: int, bits: int, uniform: int)
        requires
            Self::yields(prec, word, bits),
            Uniform::yields(prec, word, uniform),
        ensures
            prec.value_of(bits) == prec.value_of(uniform) + prec.half_epsilon(),
    {
    }
}

} // verus!
