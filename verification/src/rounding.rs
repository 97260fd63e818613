//! The one place where a result has to be rounded.
//!
//! Dividing a mantissa by the largest mantissa stretches `[0, 1 - epsilon]`
//! onto `[0, 1]`. The quotient is rarely a value of the format, so the
//! nearest one is returned, and it is proved to be the nearest.

use vstd::prelude::*;
use vstd::arithmetic::power2::{pow2, lemma_pow2_adds, lemma_pow2_pos};
use vstd::arithmetic::div_mod::{lemma_fundamental_div_mod, lemma_mod_bound};
use crate::precision::Precision;
use crate::encode::{normalise, pack};

verus! {

/// The pattern of the value nearest to `mantissa / (scale - 1)`.
///
/// Zero maps to zero and the largest mantissa to one. In between the
/// quotient never falls halfway between two values, because `scale - 1` is
/// odd, so "nearest" leaves no choice.
pub fn stretch(prec: Precision, mantissa: u64) -> (bits: u64)
    requires
        mantissa < prec.scale(),
    ensures
        bits < prec.pattern_limit(),
        !prec.is_negative(bits as int),
        prec.is_nearest(bits as int, mantissa as int, prec.scale() - 1),
{
    if mantissa == 0 {
        proof {
            prec.lemma_zero();
            assert forall|other: int| #[trigger]
                prec.is_finite(other) && prec.value_of(other) != prec.value_of(0) implies prec.gap(
                0,
                0,
                prec.scale() - 1,
            ) < prec.gap(other, 0, prec.scale() - 1) by {
                let y = prec.value_of(other);
                let d = prec.scale() - 1;
                assert(y * d != 0) by (nonlinear_arith)
                    requires
                        y != 0,
                        d > 0,
                ;
            }
        }
        return 0;
    }
    let scale = prec.scale();
    let (lead, shift) = normalise(prec, mantissa);
    let den: u128 = (scale - 1) as u128;
    assert(lead * scale <= 2 * scale * (scale - 1) && scale * scale <= lead * scale
        && 2 * scale * (scale - 1) < 0x1_0000_0000_0000_0000_0000_0000_0000) by (nonlinear_arith)
        requires
            scale <= lead <= 2 * scale - 2,
            0 < scale <= 0x10_0000_0000_0000,
    ;
    let num: u128 = (lead as u128) * (scale as u128);
    let q: u128 = num / den;
    let r: u128 = num % den;
    proof {
        lemma_fundamental_div_mod(num as int, den as int);
        lemma_mod_bound(num as int, den as int);
        assert(scale < q <= 2 * scale && (q == 2 * scale ==> r == 0)) by (nonlinear_arith)
            requires
                num == den * q + r,
                0 <= r < den,
                den == scale - 1,
                scale * scale <= num <= 2 * scale * (scale - 1),
                0 < den,
        ;
    }
    let sig: u64 = if 2 * r > den {
        (q + 1) as u64
    } else {
        q as u64
    };
    let e: u32 = prec.bias() - 1 - shift;
    let bits = pack(prec, e, sig);
    proof {
        lemma_rounded_is_nearest(
            prec,
            mantissa as int,
            shift as nat,
            lead as int,
            q as int,
            r as int,
            sig as int,
            bits as int,
        );
    }
    bits
}

/// Rounding the quotient of the normalised mantissa to the nearest whole
/// significand gives the value nearest to `m / (scale - 1)`.
proof fn lemma_rounded_is_nearest(
    prec: Precision,
    m: int,
    shift: nat,
    lead: int,
    q: int,
    r: int,
    sig: int,
    bits: int,
)
    requires
        0 < m < prec.scale(),
        shift <= prec.mantissa_bits(),
        lead == m * pow2(shift),
        prec.scale() <= lead,
        lead * prec.scale() == (prec.scale() - 1) * q + r,
        0 <= r < prec.scale() - 1,
        sig == (if 2 * r > prec.scale() - 1 {
            q + 1
        } else {
            q
        }),
        prec.is_finite(bits),
        prec.value_of(bits) == sig * pow2((prec.bias() - 1 - shift) as nat),
    ensures
        prec.is_nearest(bits, m, prec.scale() - 1),
{
    let s = prec.scale() as int;
    let d = s - 1;
    let e = (prec.bias() - 1 - shift) as nat;
    let g = pow2(e) as int;
    let eps = prec.epsilon() as int;
    let one = prec.one() as int;
    let n = lead * s;
    let t = m * one;
    let delta = sig * d - n;
    let v = prec.value_of(bits);
    prec.lemma_constants();
    lemma_pow2_pos(e);
    lemma_pow2_adds(shift, e);
    assert(n * g == t) by (nonlinear_arith)
        requires
            n == lead * s,
            lead == m * pow2(shift),
            pow2(shift) * g == eps,
            one == s * eps,
            t == m * one,
    ;
    assert(s % 2 == 0);
    assert(-d < 2 * delta < d) by (nonlinear_arith)
        requires
            delta == sig * d - n,
            n == d * q + r,
            0 <= r < d,
            d % 2 == 1,
            sig == (if 2 * r > d {
                q + 1
            } else {
                q
            }),
    ;
    assert(v * d - t == delta * g) by (nonlinear_arith)
        requires
            v == sig * g,
            n * g == t,
            delta == sig * d - n,
    ;
    let mine = prec.gap(bits, m, d);
    assert(mine == (if delta < 0 {
        -delta
    } else {
        delta
    }) * g && mine < s * g) by (nonlinear_arith)
        requires
            mine == (if v * d - t < 0 {
                -(v * d - t)
            } else {
                v * d - t
            }),
            v * d - t == delta * g,
            0 < g,
            -d < 2 * delta < d,
            d == s - 1,
    ;
    assert forall|other: int| #[trigger]
        prec.is_finite(other) && prec.value_of(other) != v implies mine < prec.gap(other, m, d) by {
        let y = prec.value_of(other);
        let mag = prec.magnitude_of(other);
        let theirs = prec.gap(other, m, d);
        if mag >= s * g {
            let j = prec.lemma_grid(other, e);
            let jj = if prec.is_negative(other) {
                -j
            } else {
                j
            };
            assert(y == jj * g) by (nonlinear_arith)
                requires
                    mag == j * g,
                    y == (if prec.is_negative(other) {
                        -mag
                    } else {
                        mag
                    }),
                    jj == (if prec.is_negative(other) {
                        -j
                    } else {
                        j
                    }),
            ;
            let a = jj * d - n;
            assert(y * d - t == a * g) by (nonlinear_arith)
                requires
                    y == jj * g,
                    n * g == t,
                    a == jj * d - n,
            ;
            assert(jj != sig) by (nonlinear_arith)
                requires
                    y == jj * g,
                    v == sig * g,
                    y != v,
            ;
            assert((if a < 0 {
                -a
            } else {
                a
            }) > (if delta < 0 {
                -delta
            } else {
                delta
            })) by (nonlinear_arith)
                requires
                    a == jj * d - n,
                    delta == sig * d - n,
                    -d < 2 * delta < d,
                    0 < d,
                    jj != sig,
            ;
            assert(theirs > mine) by (nonlinear_arith)
                requires
                    theirs == (if y * d - t < 0 {
                        -(y * d - t)
                    } else {
                        y * d - t
                    }),
                    y * d - t == a * g,
                    mine == (if delta < 0 {
                        -delta
                    } else {
                        delta
                    }) * g,
                    (if a < 0 {
                        -a
                    } else {
                        a
                    }) > (if delta < 0 {
                        -delta
                    } else {
                        delta
                    }),
                    0 < g,
            ;
        } else {
            assert(t - y * d >= s * g) by (nonlinear_arith)
                requires
                    y <= mag,
                    mag < s * g,
                    t == n * g,
                    n == lead * s,
                    s <= lead,
                    d == s - 1,
                    0 < s,
                    0 < g,
            ;
        }
    }
}

} // verus!
