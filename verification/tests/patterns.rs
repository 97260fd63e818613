use unit_float::binary::{Binary32, Binary64};
use unit_float::encode::{from_dyadic, mantissa_of, minus_one, normalise, one_to_two, pack};
use unit_float::precision::Precision;
use unit_float::rounding::stretch;

#[test]
fn constants_of_the_single_format() {
    let p = Precision::Single;
    assert_eq!(p.total_bits(), 32);
    assert_eq!(p.mantissa_bits(), 23);
    assert_eq!(p.exponent_bits(), 8);
    assert_eq!(p.bias(), 127);
    assert_eq!(p.exponent_limit(), 255);
    assert_eq!(p.scale(), 1 << 23);
    assert_eq!(p.mantissa_mask(), 0x7F_FFFF);
    assert_eq!(p.unit_pattern(), 0x3F80_0000);
    assert_eq!(p.unit_pattern(), 1.0f32.to_bits() as u64);
}

#[test]
fn constants_of_the_double_format() {
    let p = Precision::Double;
    assert_eq!(p.total_bits(), 64);
    assert_eq!(p.mantissa_bits(), 52);
    assert_eq!(p.exponent_bits(), 11);
    assert_eq!(p.bias(), 1023);
    assert_eq!(p.exponent_limit(), 2047);
    assert_eq!(p.scale(), 1 << 52);
    assert_eq!(p.mantissa_mask(), 0xF_FFFF_FFFF_FFFF);
    assert_eq!(p.unit_pattern(), 0x3FF0_0000_0000_0000);
    assert_eq!(p.unit_pattern(), 1.0f64.to_bits());
}

#[test]
fn constants_agree_with_each_other() {
    for p in [Precision::Single, Precision::Double] {
        assert_eq!(p.total_bits(), 1 + p.exponent_bits() + p.mantissa_bits());
        assert_eq!(p.scale(), 1u64 << p.mantissa_bits());
        assert_eq!(p.mantissa_mask(), p.scale() - 1);
        assert_eq!(p.exponent_limit(), (1 << p.exponent_bits()) - 1);
        assert_eq!(p.bias(), (1 << (p.exponent_bits() - 1)) - 1);
        assert_eq!(p.unit_pattern(), u64::from(p.bias()) << p.mantissa_bits());
    }
    assert_eq!(Precision::Single, Precision::Single);
    assert_ne!(Precision::Single, Precision::Double);
}

#[test]
fn mantissa_is_the_low_bits() {
    assert_eq!(mantissa_of(Precision::Single, 0), 0);
    assert_eq!(mantissa_of(Precision::Single, 0xFFFF_FFFF), 0x7F_FFFF);
    assert_eq!(mantissa_of(Precision::Single, 0x1234_5678), 0x34_5678);
    assert_eq!(mantissa_of(Precision::Double, u64::MAX), 0xF_FFFF_FFFF_FFFF);
    assert_eq!(mantissa_of(Precision::Double, 0x1234_5678_9ABC_DEF0), 0x4_5678_9ABC_DEF0);
}

#[test]
fn every_mantissa_gives_a_number_from_one_up_to_two() {
    assert_eq!(one_to_two(Precision::Single, 0), 0x3F80_0000);
    assert_eq!(one_to_two(Precision::Single, 0xFFFF_FFFF), 0x3FFF_FFFF);
    assert_eq!(one_to_two(Precision::Single, 0x40_0000), 1.5f32.to_bits() as u64);
    assert_eq!(one_to_two(Precision::Double, 0), 0x3FF0_0000_0000_0000);
    assert_eq!(one_to_two(Precision::Double, u64::MAX), 0x3FFF_FFFF_FFFF_FFFF);
    assert_eq!(one_to_two(Precision::Double, 0x4_0000_0000_0000), 1.25f64.to_bits());
    let mut w: u32 = 1;
    for _ in 0..10_000 {
        w = w.wrapping_mul(1_664_525).wrapping_add(1_013_904_223);
        let y = f32::from_bits(one_to_two(Precision::Single, u64::from(w)) as u32);
        assert!(y.is_finite() && 1.0 <= y && y < 2.0);
        let wide = u64::from(w) << 32 | u64::from(w.rotate_left(13));
        let y = f64::from_bits(one_to_two(Precision::Double, wide));
        assert!(y.is_finite() && 1.0 <= y && y < 2.0);
    }
}

#[test]
fn taking_one_away_is_exact() {
    assert_eq!(minus_one(Precision::Single, 1.0f32.to_bits() as u64), 0);
    assert_eq!(minus_one(Precision::Single, 1.5f32.to_bits() as u64), 0.5f32.to_bits() as u64);
    assert_eq!(minus_one(Precision::Single, 0x3FFF_FFFF), (1.0 - f32::EPSILON).to_bits() as u64);
    assert_eq!(minus_one(Precision::Single, 0x3F80_0001), f32::EPSILON.to_bits() as u64);
    assert_eq!(minus_one(Precision::Double, 1.0f64.to_bits()), 0);
    assert_eq!(minus_one(Precision::Double, 1.75f64.to_bits()), 0.75f64.to_bits());
    assert_eq!(minus_one(Precision::Double, 0x3FF0_0000_0000_0001), f64::EPSILON.to_bits());
}

#[test]
fn doubling_until_the_leading_bit_is_in_place() {
    assert_eq!(normalise(Precision::Single, 1), (0x80_0000, 23));
    assert_eq!(normalise(Precision::Single, 3), (0xC0_0000, 22));
    assert_eq!(normalise(Precision::Single, 0x7F_FFFF), (0xFF_FFFE, 1));
    assert_eq!(normalise(Precision::Single, 0x80_0000), (0x80_0000, 0));
    assert_eq!(normalise(Precision::Single, 0xFF_FFFF), (0xFF_FFFF, 0));
    assert_eq!(normalise(Precision::Double, 1), (0x10_0000_0000_0000, 52));
    assert_eq!(normalise(Precision::Double, 0x1F_FFFF_FFFF_FFFF), (0x1F_FFFF_FFFF_FFFF, 0));
}

#[test]
fn packing_adds_the_significand_onto_the_exponent() {
    assert_eq!(pack(Precision::Single, 126, 0x80_0000), 1.0f32.to_bits() as u64);
    assert_eq!(pack(Precision::Single, 126, 0xC0_0000), 1.5f32.to_bits() as u64);
    assert_eq!(pack(Precision::Single, 125, 0x100_0000), 1.0f32.to_bits() as u64);
    assert_eq!(pack(Precision::Single, 0, 0x80_0000), f32::MIN_POSITIVE.to_bits() as u64);
    assert_eq!(pack(Precision::Double, 1022, 0x18_0000_0000_0000), 1.5f64.to_bits());
    assert_eq!(pack(Precision::Double, 1021, 0x20_0000_0000_0000), 1.0f64.to_bits());
}

#[test]
fn whole_numbers_of_binary_fractions() {
    assert_eq!(from_dyadic(Precision::Single, 0, 5), 0);
    assert_eq!(from_dyadic(Precision::Single, 1, 0), 1.0f32.to_bits() as u64);
    assert_eq!(from_dyadic(Precision::Single, 3, 2), 0.75f32.to_bits() as u64);
    assert_eq!(from_dyadic(Precision::Single, 0xFF_FFFF, 24), 0x3F7F_FFFF);
    assert_eq!(from_dyadic(Precision::Single, 0xFF_FFFF, 0), 16777215.0f32.to_bits() as u64);
    assert_eq!(from_dyadic(Precision::Single, 1, 126), f32::MIN_POSITIVE.to_bits() as u64);
    assert_eq!(from_dyadic(Precision::Double, 5, 3), 0.625f64.to_bits());
    assert_eq!(from_dyadic(Precision::Double, 1, 1022), f64::MIN_POSITIVE.to_bits());
    assert_eq!(from_dyadic(Precision::Double, 0x1F_FFFF_FFFF_FFFF, 0), 9007199254740991.0f64.to_bits());
    for n in 0..4096u64 {
        for s in [0u32, 1, 7, 23, 24, 100, 126] {
            let expected = (n as f32) / 2f32.powi(s as i32);
            assert_eq!(from_dyadic(Precision::Single, n, s), expected.to_bits() as u64);
        }
        for s in [0u32, 1, 52, 53, 1000, 1022] {
            let expected = (n as f64) / 2f64.powi(s as i32);
            assert_eq!(from_dyadic(Precision::Double, n, s), expected.to_bits());
        }
    }
}

#[test]
fn stretching_rounds_to_the_nearest() {
    assert_eq!(stretch(Precision::Single, 0), 0);
    assert_eq!(stretch(Precision::Single, 0x7F_FFFF), 1.0f32.to_bits() as u64);
    assert_eq!(stretch(Precision::Single, 1), (1.0f32 / 8388607.0).to_bits() as u64);
    // 4194304 / 8388607 lies just above one half: one step up from 0.5
    assert_eq!(stretch(Precision::Single, 0x40_0000), 0x3F00_0001);
    assert_eq!(stretch(Precision::Double, 0), 0);
    assert_eq!(stretch(Precision::Double, 0xF_FFFF_FFFF_FFFF), 1.0f64.to_bits());
    assert_eq!(stretch(Precision::Double, 1), (1.0f64 / 4503599627370495.0).to_bits());
    assert_eq!(stretch(Precision::Double, 0x8_0000_0000_0000), 0x3FE0_0000_0000_0001);
    // single results, checked against the quotient taken in double
    for m in (1..0x7F_FFFFu64).step_by(4099) {
        let got = f64::from(f32::from_bits(stretch(Precision::Single, m) as u32));
        let exact = m as f64 / 8388607.0;
        let below = f64::from(f32::from_bits(stretch(Precision::Single, m) as u32 - 1));
        let above = f64::from(f32::from_bits(stretch(Precision::Single, m) as u32 + 1));
        assert!((got - exact).abs() < (below - exact).abs());
        assert!((got - exact).abs() < (above - exact).abs());
    }
}

#[test]
fn values_keep_their_patterns() {
    assert_eq!(Binary32::from_bits(0x3F80_0000).to_bits(), 0x3F80_0000);
    assert_eq!(Binary32::from_bits(0).to_bits(), 0);
    assert_eq!(Binary32::from_bits(u32::MAX).to_bits(), u32::MAX);
    assert_eq!(Binary64::from_bits(0x3FF0_0000_0000_0000).to_bits(), 0x3FF0_0000_0000_0000);
    assert_eq!(Binary64::from_bits(u64::MAX).to_bits(), u64::MAX);
    assert_eq!(Binary32::from_bits(7), Binary32::from_bits(7));
    assert_ne!(Binary32::from_bits(0), Binary32::from_bits(0x8000_0000));
    assert_ne!(Binary64::from_bits(0), Binary64::from_bits(0x8000_0000_0000_0000));
    let x = Binary32::from_bits(5);
    let y = x;
    assert_eq!(x, y);
    assert_eq!(format!("{:?}", Binary64::from_bits(5)), "Binary64 { bits: 5 }");
}
