//! Values of the two formats, each held as its bit pattern.

use vstd::prelude::*;
use crate::precision::Precision;

verus! {

/// A binary32 value. Two of them are equal when their patterns are, which
/// tells positive from negative zero and one NaN from another.
#[derive(Clone, Copy, Debug, PartialEq, Eq, Structural)]
pub struct Binary32 {
    pub bits: u32,
}

impl View for Binary32 {
    type V = int;

    /// The bit pattern, as a number.
    open spec fn view(&self) -> int {
        self.bits as int
    }
}

impl Binary32 {
    /// The value with the given pattern.
    pub fn from_bits(bits: u32) -> (x: Self)
        ensures
            x@ == bits,
    {
        Binary32 { bits }
    }

    /// The pattern of this value.
    #[verifier::allow_in_spec]
    pub fn to_bits(self) -> u32
        returns
            self.bits,
    {
        self.bits
    }

    /// Whether this is a number: neither an infinity nor a NaN.
    pub open spec fn is_finite(self) -> bool {
        Precision::Single.is_finite(self@)
    }

    /// Whether the sign bit is set.
    pub open spec fn is_negative(self) -> bool {
        Precision::Single.is_negative(self@)
    }

    /// The value in quanta of `2^-149`, where this is a number.
    pub open spec fn value(self) -> int {
        Precision::Single.value_of(self@)
    }
}

/// A binary64 value. Two of them are equal when their patterns are, which
/// tells positive from negative zero and one NaN from another.
#[derive(Clone, Copy, Debug, PartialEq, Eq, Structural)]
pub struct Binary64 {
    pub bits: u64,
}

impl View for Binary64 {
    type V = int;

    /// The bit pattern, as a number.
    open spec fn view(&self) -> int {
        self.bits as int
    }
}

impl Binary64 {
    /// The value with the given pattern.
    pub fn from_bits(bits: u64) -> (x: Self)
        ensures
            x@ == bits,
    {
        Binary64 { bits }
    }

    /// The pattern of this value.
    #[verifier::allow_in_spec]
    pub fn to_bits(self) -> u64
        returns
            self.bits,
    {
        self.bits
    }

    /// Whether this is a number: neither an infinity nor a NaN.
    pub open spec fn is_finite(self) -> bool {
        Precision::Double.is_finite(self@)
    }

    /// Whether the sign bit is set.
    pub open spec fn is_negative(self) -> bool {
        Precision::Double.is_negative(self@)
    }

    /// The value in quanta of `2^-1074`, where this is a number.
    pub open spec fn value(self) -> int {
        Precision::Double.value_of(self@)
    }
}

} // verus!
