use geddes::bruker_axis::{
    DEGREES_180, DEGREES_360, FINE_STEP_MAX, FINE_STEP_MIN, STEP_ABOVE, STEP_MAX,
};
use geddes::bruker_layout::{INTENSITY_LIMIT, MARKER, NEAR_ZERO_LIMIT};
use geddes::ieee::{
    f32_abs, f32_finite, f32_gap_is_below_millionth, f32_order_key, f32_units_wide, f32_widen,
    f64_abs, f64_finite, pow2_u64,
};

#[test]
fn constants_are_the_patterns_of_their_values() {
    assert_eq!(INTENSITY_LIMIT, 1.0e9f32.to_bits());
    assert_eq!(NEAR_ZERO_LIMIT, 1.0e-30f32.to_bits());
    assert_eq!(MARKER, f32::from_bits(1).to_bits());
    assert_eq!(STEP_ABOVE, 1.0e-6f64.to_bits());
    assert_eq!(STEP_MAX, 10.0f64.to_bits());
    assert_eq!(DEGREES_180, 180.0f64.to_bits());
    assert_eq!(DEGREES_360, 360.0f64.to_bits());
    assert_eq!(FINE_STEP_MIN, 1.0e-4f64.to_bits());
    assert_eq!(FINE_STEP_MAX, 0.5f64.to_bits());
}

#[test]
fn finite_agrees_with_the_hardware() {
    let singles = [0.0f32, -0.0, 1.5, -3.0e38, f32::MAX, f32::MIN_POSITIVE, f32::INFINITY,
        f32::NEG_INFINITY, f32::NAN];
    for v in singles {
        assert_eq!(f32_finite(v.to_bits()), v.is_finite());
        assert_eq!(f32_abs(v.to_bits()), v.abs().to_bits());
    }
    let doubles = [0.0f64, -0.0, 1.5, -3.0e300, f64::MAX, f64::MIN_POSITIVE, f64::INFINITY,
        f64::NEG_INFINITY, f64::NAN];
    for v in doubles {
        assert_eq!(f64_finite(v.to_bits()), v.is_finite());
        assert_eq!(f64_abs(v.to_bits()), v.abs().to_bits());
    }
}

#[test]
fn order_keys_order_as_the_values_do() {
    let values = [-1.0e9f32, -2.5, -1.0e-40, -0.0, 0.0, 1.0e-40, 1.0, 1.0000001, 7.0e8];
    for a in values {
        for b in values {
            let ka = f32_order_key(a.to_bits());
            let kb = f32_order_key(b.to_bits());
            assert_eq!(ka < kb, a < b);
            assert_eq!(ka == kb, a == b);
        }
    }
}

#[test]
fn pow2_u64_gives_powers_of_two() {
    assert_eq!(pow2_u64(0), 1);
    assert_eq!(pow2_u64(1), 2);
    assert_eq!(pow2_u64(10), 1024);
    assert_eq!(pow2_u64(63), 1u64 << 63);
}

#[test]
fn f32_units_wide_counts_units_of_two_to_minus_149() {
    let one = f32_units_wide(1.0f32.to_bits());
    // 1.0 = 2^149 units = 2^85 * 2^64
    assert_eq!(one.high, 1u128 << 85);
    assert_eq!(one.low, 0);
    let tiny = f32_units_wide(1);
    assert_eq!((tiny.high, tiny.low), (0, 1));
    let smallest_normal = f32_units_wide(f32::MIN_POSITIVE.to_bits());
    assert_eq!((smallest_normal.high, smallest_normal.low), (0, 1u64 << 23));
    // 3 * 2^-100 = 3 * 2^49 units
    let v = f32_units_wide((3.0f32 * 2.0f32.powi(-100)).to_bits());
    assert_eq!((v.high, v.low), (0, 3u64 << 49));
    // 1.5 * 2^-80 = 3 * 2^68 units
    let w = f32_units_wide((1.5f32 * 2.0f32.powi(-80)).to_bits());
    assert_eq!((w.high, w.low), (3u128 << 4, 0));
}

#[test]
fn gap_below_millionth_is_decided_exactly() {
    let cases: [(u32, u32, bool); 18] = [
        (0x3f800000, 0x3f800000, true),
        (0x3f800001, 0x3f800000, true),
        (0x3f800008, 0x3f800000, true),
        (0x3f800009, 0x3f800000, false),
        (0x33d6bf95, 0xb3d6bf95, true),
        (0x358637bd, 0xb58637bd, false),
        (0x358637bd, 0x00000000, true),
        (0x358637be, 0x00000000, false),
        (0x358637bd, 0x80000001, true),
        (0x4e6e6b28, 0x4e6e6b27, false),
        (0x4e6e6b28, 0x4e6e6b28, true),
        (0x00000001, 0x00000000, true),
        (0xc0000000, 0xc0000001, true),
        (0xc0000000, 0xc0000004, true),
        (0x41800000, 0x417fffff, true),
        (0x350637bd, 0xb503888b, true),
        (0x350637bd, 0xb508e6ef, false),
        (0x00000000, 0x80000000, true),
    ];
    for (upper, lower, expected) in cases {
        let got = f32_gap_is_below_millionth(f32_order_key(upper), f32_order_key(lower));
        assert_eq!(got, expected, "{:#x} - {:#x}", upper, lower);
    }
}

#[test]
fn gap_of_a_smaller_upper_value_counts_as_below() {
    let one = f32_order_key(1.0f32.to_bits());
    let two = f32_order_key(2.0f32.to_bits());
    assert!(f32_gap_is_below_millionth(one, two));
    assert!(!f32_gap_is_below_millionth(two, one));
}

#[test]
fn widening_agrees_with_the_hardware() {
    let mut patterns: Vec<u32> = vec![
        0, 1, 2, 3, 0x7f_ffff, 0x80_0000, 0x80_0001, 0x3f80_0000, 0x4e6e_6b28, 0x7f7f_ffff,
        0x7f80_0000, 0x0040_0000, 0x0020_0001, 0x0000_8000,
    ];
    for shift in 0..32 {
        patterns.push(1u32 << shift);
        patterns.push((1u32 << shift).wrapping_sub(1));
        patterns.push(0x1234_5678u32.rotate_left(shift));
    }
    let mut state: u32 = 0x2545_f491;
    for _ in 0..100_000 {
        state ^= state << 13;
        state ^= state >> 17;
        state ^= state << 5;
        patterns.push(state);
    }
    for bits in patterns {
        for bits in [bits, bits ^ 0x8000_0000] {
            let value = f32::from_bits(bits);
            let wide = f64::from_bits(f32_widen(bits));
            if value.is_nan() {
                assert!(wide.is_nan(), "{:#x}", bits);
                assert_eq!(wide.is_sign_negative(), value.is_sign_negative());
            } else {
                assert_eq!(f32_widen(bits), (value as f64).to_bits(), "{:#x}", bits);
            }
        }
    }
}

#[test]
fn widening_keeps_exact_values() {
    assert_eq!(f32_widen(1.0f32.to_bits()), 1.0f64.to_bits());
    assert_eq!(f32_widen((-2.5f32).to_bits()), (-2.5f64).to_bits());
    assert_eq!(f32_widen(0x8000_0000), 0x8000_0000_0000_0000);
    assert_eq!(f32_widen(1), 2.0f64.powi(-149).to_bits());
    assert_eq!(f32_widen(0x7f80_0000), f64::INFINITY.to_bits());
    assert_eq!(f32_widen(0xff80_0000), f64::NEG_INFINITY.to_bits());
    assert_eq!(f32_widen(0x7fc0_0001), 0x7ff8_0000_2000_0000);
    assert_eq!(f32_widen(0x7f80_0001), 0x7ff8_0000_2000_0000);
}
