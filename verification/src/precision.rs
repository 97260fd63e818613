//! The two interchange formats and the constants that derive from them.
//!
//! Everything else in the crate is written once, over a [`Precision`], so the
//! single and the double variant of each sampler cannot drift apart.

use vstd::prelude::*;
use vstd::arithmetic::power2::{
    pow2, lemma2_to64, lemma2_to64_rest, lemma_pow2_adds, lemma_pow2_pos, lemma_pow2_unfold,
};

verus! {

/// An IEEE-754 binary interchange format.
#[derive(Clone, Copy, Debug, PartialEq, Eq, Structural)]
pub enum Precision {
    /// binary32: one sign bit, 8 exponent bits, 23 mantissa bits.
    Single,
    /// binary64: one sign bit, 11 exponent bits, 52 mantissa bits.
    Double,
}

impl Precision {
    /// Width of a bit pattern of this format.
    #[verifier::allow_in_spec]
    pub fn total_bits(self) -> u32
        returns
            (match self {
                Precision::Single => 32u32,
                Precision::Double => 64u32,
            }),
    {
        match self {
            Precision::Single => 32,
            Precision::Double => 64,
        }
    }

    /// Number of stored mantissa bits.
    #[verifier::allow_in_spec]
    pub fn mantissa_bits(self) -> u32
        returns
            (match self {
                Precision::Single => 23u32,
                Precision::Double => 52u32,
            }),
    {
        match self {
            Precision::Single => 23,
            Precision::Double => 52,
        }
    }

    /// Number of bits of the exponent field.
    #[verifier::allow_in_spec]
    pub fn exponent_bits(self) -> u32
        returns
            (match self {
                Precision::Single => 8u32,
                Precision::Double => 11u32,
            }),
    {
        match self {
            Precision::Single => 8,
            Precision::Double => 11,
        }
    }

    /// The exponent field of every value in `[1, 2)`.
    #[verifier::allow_in_spec]
    pub fn bias(self) -> u32
        returns
            (match self {
                Precision::Single => 127u32,
                Precision::Double => 1023u32,
            }),
    {
        match self {
            Precision::Single => 127,
            Precision::Double => 1023,
        }
    }

    /// The all-ones exponent field, which marks infinities and NaNs.
    #[verifier::allow_in_spec]
    pub fn exponent_limit(self) -> u32
        returns
            (match self {
                Precision::Single => 255u32,
                Precision::Double => 2047u32,
            }),
    {
        match self {
            Precision::Single => 255,
            Precision::Double => 2047,
        }
    }

    /// Two to the power of `mantissa_bits`: how many values lie in `[1, 2)`.
    #[verifier::allow_in_spec]
    pub fn scale(self) -> u64
        returns
            (match self {
                Precision::Single => 0x80_0000u64,
                Precision::Double => 0x10_0000_0000_0000u64,
            }),
    {
        match self {
            Precision::Single => 0x80_0000,
            Precision::Double => 0x10_0000_0000_0000,
        }
    }

    /// The bits of a pattern that hold the mantissa.
    #[verifier::allow_in_spec]
    pub fn mantissa_mask(self) -> u64
        returns
            (match self {
                Precision::Single => 0x7F_FFFFu64,
                Precision::Double => 0xF_FFFF_FFFF_FFFFu64,
            }),
    {
        match self {
            Precision::Single => 0x7F_FFFF,
            Precision::Double => 0xF_FFFF_FFFF_FFFF,
        }
    }

    /// Sign and exponent bits shared by every value in `[1, 2)`; also the
    /// pattern of the value one.
    #[verifier::allow_in_spec]
    pub fn unit_pattern(self) -> u64
        returns
            (match self {
                Precision::Single => 0x3F80_0000u64,
                Precision::Double => 0x3FF0_0000_0000_0000u64,
            }),
    {
        match self {
            Precision::Single => 0x3F80_0000,
            Precision::Double => 0x3FF0_0000_0000_0000,
        }
    }

    /// The value two to the power of minus `s`, counted in quanta.
    ///
    /// A quantum is the smallest positive value of the format (`2^-149` for
    /// single, `2^-1074` for double); every finite value is a whole number
    /// of quanta. Meaningful for `s` up to `bias + mantissa_bits - 1`.
    pub open spec fn two_to_minus(self, s: nat) -> nat {
        pow2((self.bias() + self.mantissa_bits() - 1 - s) as nat)
    }

    /// The value one, counted in quanta.
    pub open spec fn one(self) -> nat {
        self.two_to_minus(0)
    }

    /// The gap between neighbouring values in `[1, 2)`, counted in quanta.
    pub open spec fn epsilon(self) -> nat {
        self.two_to_minus(self.mantissa_bits() as nat)
    }

    /// Half the gap between neighbouring values in `[1, 2)`, counted in
    /// quanta.
    pub open spec fn half_epsilon(self) -> nat {
        self.two_to_minus((self.mantissa_bits() + 1) as nat)
    }

    /// More epsilons are worth more.
    pub proof fn lemma_epsilons_ordered(self, m1: int, m2: int)
        requires
            m1 <= m2,
        ensures
            m1 * self.epsilon() <= m2 * self.epsilon(),
    {
        let eps = self.epsilon() as int;
        assert(m1 * eps <= m2 * eps) by (nonlinear_arith)
            requires
                m1 <= m2,
                0 <= eps,
        ;
    }

    /// The constants of a format all follow from its two field widths.
    pub proof fn lemma_constants(self)
        ensures
            self.total_bits() == 1 + self.exponent_bits() + self.mantissa_bits(),
            self.scale() == pow2(self.mantissa_bits() as nat),
            self.mantissa_mask() == self.scale() - 1,
            self.exponent_limit() == pow2(self.exponent_bits() as nat) - 1,
            self.bias() == pow2((self.exponent_bits() - 1) as nat) - 1,
            self.unit_pattern() == self.bias() * self.scale(),
            self.one() == self.scale() * self.epsilon(),
            self.epsilon() == 2 * self.half_epsilon(),
            self.half_epsilon() > 0,
    {
        lemma_pow2_unfold((self.bias() - 1) as nat);
        lemma_pow2_pos((self.bias() - 2) as nat);
        lemma2_to64();
        lemma2_to64_rest();
        lemma_pow2_adds(self.mantissa_bits() as nat, (self.bias() - 1) as nat);
    }
}

} // verus!
