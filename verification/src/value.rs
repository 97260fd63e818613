//! What a bit pattern means.
//!
//! A pattern splits into a sign bit, an exponent field and a mantissa field.
//! Every finite value of a format is a whole number of quanta, the quantum
//! being the smallest positive value, so the meaning of a finite pattern is
//! an integer and statements about values are statements about integers.

use vstd::prelude::*;
use vstd::arithmetic::power2::{
    pow2, lemma_pow2_adds, lemma_pow2_pos, lemma_pow2_strictly_increases, lemma_pow2_unfold,
};
use vstd::arithmetic::div_mod::{
    lemma_basic_div, lemma_fundamental_div_mod_converse, lemma_mod_bound, lemma_small_mod,
};
use crate::precision::Precision;

verus! {

impl Precision {
    /// One more than the largest pattern of this format.
    pub open spec fn pattern_limit(self) -> int {
        match self {
            Precision::Single => 0x1_0000_0000int,
            Precision::Double => 0x1_0000_0000_0000_0000int,
        }
    }

    /// The mantissa field of a pattern.
    pub open spec fn fraction_of(self, bits: int) -> int {
        bits % (self.scale() as int)
    }

    /// The exponent field of a pattern.
    pub open spec fn exponent_of(self, bits: int) -> int {
        (bits / (self.scale() as int)) % (self.exponent_limit() + 1)
    }

    /// Whether the sign bit of a pattern is set.
    pub open spec fn is_negative(self, bits: int) -> bool {
        (bits / (self.scale() * (self.exponent_limit() + 1))) % 2 == 1
    }

    /// Whether a pattern stands for a number: neither an infinity nor a NaN.
    pub open spec fn is_finite(self, bits: int) -> bool {
        self.exponent_of(bits) < self.exponent_limit()
    }

    /// The absolute value of a finite pattern, in quanta.
    ///
    /// With exponent field zero the mantissa counts quanta directly; above
    /// that, the mantissa gets its hidden leading bit and each step of the
    /// exponent doubles the result.
    pub open spec fn magnitude_of(self, bits: int) -> int {
        let e = self.exponent_of(bits);
        let f = self.fraction_of(bits);
        if e == 0 {
            f
        } else {
            (self.scale() + f) * pow2((e - 1) as nat)
        }
    }

    /// The value of a finite pattern, in quanta.
    pub open spec fn value_of(self, bits: int) -> int {
        if self.is_negative(bits) {
            -self.magnitude_of(bits)
        } else {
            self.magnitude_of(bits)
        }
    }

    /// How far the value of `bits` lies from the ratio `num / den`, counted
    /// in quanta and multiplied by `den` to stay among the integers.
    pub open spec fn gap(self, bits: int, num: int, den: int) -> int {
        let d = self.value_of(bits) * den - num * self.one();
        if d < 0 {
            -d
        } else {
            d
        }
    }

    /// Whether `bits` is a number and lies strictly nearer to the ratio
    /// `num / den` than every number of the format with another value.
    pub open spec fn is_nearest(self, bits: int, num: int, den: int) -> bool {
        &&& self.is_finite(bits)
        &&& forall|other: int| #[trigger]
            self.is_finite(other) && self.value_of(other) != self.value_of(bits) ==> self.gap(
                bits,
                num,
                den,
            ) < self.gap(other, num, den)
    }

    /// A significand with its leading bit in place, added onto an exponent
    /// field that is one too low, gives a finite non-negative pattern worth
    /// `sig * 2^e` quanta. A significand of exactly twice the scale carries
    /// into the exponent, as it should.
    pub proof fn lemma_packed(self, e: nat, sig: nat)
        requires
            self.scale() <= sig <= 2 * self.scale(),
            e + 3 <= self.exponent_limit(),
        ensures
            0 <= e * self.scale() + sig < self.pattern_limit(),
            !self.is_negative(e * self.scale() + sig),
            self.is_finite(e * self.scale() + sig),
            self.value_of(e * self.scale() + sig) == sig * pow2(e),
    {
        let s = self.scale() as int;
        let l = self.exponent_limit() + 1;
        if sig < 2 * s {
            assert(e * s + sig == (e + 1) * s + (sig - s)) by (nonlinear_arith);
            lemma_fields(s, l, (e + 1) as int, sig - s);
        } else {
            assert(e * s + sig == (e + 2) * s + 0) by (nonlinear_arith)
                requires
                    sig == 2 * s,
            ;
            lemma_fields(s, l, (e + 2) as int, 0);
            lemma_pow2_unfold(e + 1);
            assert(sig * pow2(e) == s * pow2(e + 1)) by (nonlinear_arith)
                requires
                    sig == 2 * s,
                    pow2(e + 1) == 2 * pow2(e),
            ;
        }
    }

    /// A pattern is its three fields laid side by side.
    pub proof fn lemma_fields_of(self, bits: int)
        requires
            0 <= bits < self.pattern_limit(),
        ensures
            0 <= self.fraction_of(bits) < self.scale(),
            0 <= self.exponent_of(bits) <= self.exponent_limit(),
            bits == (if self.is_negative(bits) {
                self.scale() * (self.exponent_limit() + 1)
            } else {
                0
            }) + self.exponent_of(bits) * self.scale() + self.fraction_of(bits),
    {
        match self {
            Precision::Single => {
                assert(bits == (bits / 0x8000_0000) * 0x8000_0000 + ((bits / 0x80_0000) % 256)
                    * 0x80_0000 + bits % 0x80_0000);
            },
            Precision::Double => {
                assert(bits == (bits / 0x8000_0000_0000_0000) * 0x8000_0000_0000_0000 + ((bits
                    / 0x10_0000_0000_0000) % 2048) * 0x10_0000_0000_0000 + bits
                    % 0x10_0000_0000_0000);
            },
        }
    }

    /// A magnitude is never negative, and the exponent field says between
    /// which two powers of two it lies.
    pub proof fn lemma_magnitude_bounds(self, bits: int)
        ensures
            0 <= self.magnitude_of(bits),
            self.exponent_of(bits) == 0 ==> self.magnitude_of(bits) < self.scale(),
            self.exponent_of(bits) > 0 ==> self.scale() * pow2((self.exponent_of(bits) - 1) as nat)
                <= self.magnitude_of(bits) < 2 * self.scale() * pow2(
                (self.exponent_of(bits) - 1) as nat,
            ),
    {
        let s = self.scale() as int;
        let e = self.exponent_of(bits);
        let f = self.fraction_of(bits);
        lemma_mod_bound(bits, s);
        lemma_mod_bound(bits / s, self.exponent_limit() + 1);
        if e > 0 {
            let low = pow2((e - 1) as nat) as int;
            lemma_pow2_pos((e - 1) as nat);
            assert(s * low <= (s + f) * low < 2 * s * low) by (nonlinear_arith)
                requires
                    0 <= f < s,
                    0 < low,
            ;
        }
    }

    /// A lower exponent field means a smaller magnitude.
    pub proof fn lemma_exponent_orders(self, a: int, b: int)
        requires
            self.exponent_of(a) < self.exponent_of(b),
        ensures
            self.magnitude_of(a) < self.magnitude_of(b),
    {
        let s = self.scale() as int;
        let ea = self.exponent_of(a);
        let eb = self.exponent_of(b);
        self.lemma_magnitude_bounds(a);
        self.lemma_magnitude_bounds(b);
        lemma_mod_bound(a / s, self.exponent_limit() + 1);
        let high = pow2((eb - 1) as nat) as int;
        lemma_pow2_pos((eb - 1) as nat);
        if ea == 0 {
            assert(s <= s * high) by (nonlinear_arith)
                requires
                    0 < s,
                    1 <= high,
            ;
        } else {
            let low = pow2((ea - 1) as nat) as int;
            lemma_pow2_unfold(ea as nat);
            if ea < eb - 1 {
                lemma_pow2_strictly_increases(ea as nat, (eb - 1) as nat);
            }
            assert(2 * s * low <= s * high) by (nonlinear_arith)
                requires
                    2 * low <= high,
                    0 < s,
            ;
        }
    }

    /// Sign and value settle the pattern: no value but zero has two
    /// patterns, and zero has one for each sign. So a contract that names
    /// the sign and the value of a result names its every bit.
    pub proof fn lemma_pattern_determined(self, a: int, b: int)
        requires
            0 <= a < self.pattern_limit(),
            0 <= b < self.pattern_limit(),
            self.is_negative(a) == self.is_negative(b),
            self.value_of(a) == self.value_of(b),
        ensures
            a == b,
    {
        let s = self.scale() as int;
        let e = self.exponent_of(a);
        let fa = self.fraction_of(a);
        let fb = self.fraction_of(b);
        if self.exponent_of(a) < self.exponent_of(b) {
            self.lemma_exponent_orders(a, b);
        }
        if self.exponent_of(b) < self.exponent_of(a) {
            self.lemma_exponent_orders(b, a);
        }
        if e > 0 {
            let p = pow2((e - 1) as nat) as int;
            lemma_pow2_pos((e - 1) as nat);
            assert(fa == fb) by (nonlinear_arith)
                requires
                    (s + fa) * p == (s + fb) * p,
                    0 < p,
            ;
        }
        self.lemma_fields_of(a);
        self.lemma_fields_of(b);
    }

    /// The all-zero pattern is the number zero, with the sign bit clear.
    pub proof fn lemma_zero(self)
        ensures
            self.is_finite(0),
            !self.is_negative(0),
            self.value_of(0) == 0,
    {
        lemma_fields(self.scale() as int, self.exponent_limit() + 1, 0, 0);
    }

    /// The unit pattern is the number one.
    pub proof fn lemma_one(self)
        ensures
            self.is_finite(self.unit_pattern() as int),
            !self.is_negative(self.unit_pattern() as int),
            self.value_of(self.unit_pattern() as int) == self.one(),
            self.one() > 0,
    {
        self.lemma_constants();
        lemma_fields(self.scale() as int, self.exponent_limit() + 1, self.bias() as int, 0);
        lemma_pow2_pos((self.bias() + self.mantissa_bits() - 1) as nat);
    }

    /// From `scale * 2^e` quanta upwards, magnitudes are whole multiples of
    /// `2^e` quanta. Returns the multiple.
    pub proof fn lemma_grid(self, bits: int, e: nat) -> (j: int)
        requires
            self.magnitude_of(bits) >= self.scale() * pow2(e),
        ensures
            self.magnitude_of(bits) == j * pow2(e),
            j >= 0,
    {
        let s = self.scale() as int;
        let ey = self.exponent_of(bits);
        let f = self.fraction_of(bits);
        let g = pow2(e) as int;
        lemma_pow2_pos(e);
        assert(0 <= f < s) by {
            lemma_mod_bound(bits, s);
        }
        assert(0 <= ey) by {
            lemma_mod_bound(bits / s, self.exponent_limit() + 1);
        }
        if ey == 0 {
            assert(s <= s * g) by (nonlinear_arith)
                requires
                    0 < s,
                    1 <= g,
            ;
            assert(false);
            0
        } else if ey - 1 < e {
            let low = pow2((ey - 1) as nat) as int;
            lemma_pow2_pos((ey - 1) as nat);
            lemma_pow2_unfold(ey as nat);
            if ey < e {
                lemma_pow2_strictly_increases(ey as nat, e);
            }
            assert((s + f) * low < s * g) by (nonlinear_arith)
                requires
                    0 <= f < s,
                    0 < low,
                    2 * low <= g,
            ;
            assert(false);
            0
        } else {
            let k = (ey - 1 - e) as nat;
            lemma_pow2_adds(k, e);
            lemma_pow2_pos(k);
            let j = (s + f) * pow2(k);
            assert((s + f) * (pow2(k) * pow2(e)) == ((s + f) * pow2(k)) * pow2(e))
                by (nonlinear_arith);
            assert(j >= 0) by (nonlinear_arith)
                requires
                    j == (s + f) * pow2(k),
                    0 <= f,
                    0 < s,
            ;
            j
        }
    }
}

/// Field by field, `e * s + f` reads back as exponent `e` and mantissa `f`
/// with the sign bit clear, where `s` is the scale and `l` the number of
/// exponent fields.
pub proof fn lemma_fields(s: int, l: int, e: int, f: int)
    requires
        0 < s,
        0 < l,
        0 <= e < l,
        0 <= f < s,
    ensures
        0 <= e * s + f < s * l,
        (e * s + f) % s == f,
        (e * s + f) / s == e,
        ((e * s + f) / s) % l == e,
        ((e * s + f) / (s * l)) % 2 == 0,
{
    lemma_fundamental_div_mod_converse(e * s + f, s, e, f);
    lemma_small_mod(e as nat, l as nat);
    assert(0 <= e * s + f < s * l) by (nonlinear_arith)
        requires
            0 <= e < l,
            0 <= f < s,
    ;
    lemma_basic_div(e * s + f, s * l);
}

} // verus!
