use ckled2001::color::{corrected, gamma2, percent_to_brightness, scale};

#[test]
fn scale_is_identity_at_full_brightness() {
    for v in 0..=255u8 {
        assert_eq!(scale(v, 255), v);
    }
}

#[test]
fn scale_of_zero_is_zero_for_every_brightness() {
    for b in 0..=255u8 {
        assert_eq!(scale(0, b), 0);
    }
}

#[test]
fn scale_at_zero_brightness_is_zero() {
    for v in 0..=255u8 {
        assert_eq!(scale(v, 0), 0);
    }
}

#[test]
fn scale_rounds_to_nearest() {
    assert_eq!(scale(255, 255), 255);
    assert_eq!(scale(128, 128), 64);
    assert_eq!(scale(1, 127), 0);
    assert_eq!(scale(1, 128), 1);
    assert_eq!(scale(255, 127), 127);
    assert_eq!(scale(200, 100), 78);
    assert_eq!(scale(3, 85), 1);
}

#[test]
fn scale_matches_formula_everywhere() {
    for v in 0..=255u32 {
        for b in 0..=255u32 {
            assert_eq!(scale(v as u8, b as u8) as u32, (v * b + 127) / 255);
        }
    }
}

#[test]
fn gamma_fixes_both_ends() {
    assert_eq!(gamma2(0), 0);
    assert_eq!(gamma2(255), 255);
}

#[test]
fn gamma_rounds_to_nearest() {
    assert_eq!(gamma2(11), 0);
    assert_eq!(gamma2(12), 1);
    assert_eq!(gamma2(16), 1);
    assert_eq!(gamma2(127), 63);
    assert_eq!(gamma2(128), 64);
    assert_eq!(gamma2(254), 253);
}

#[test]
fn gamma_matches_formula_everywhere() {
    for x in 0..=255u32 {
        assert_eq!(gamma2(x as u8) as u32, (x * x + 127) / 255);
    }
}

#[test]
fn gamma_compresses_low_values_more() {
    assert!(gamma2(64) < 64 / 2);
    assert!(gamma2(240) > 240 / 2);
    for x in 0..=255u8 {
        assert!(gamma2(x) <= x);
    }
}

#[test]
fn percent_maps_onto_byte_scale() {
    assert_eq!(percent_to_brightness(0), 0);
    assert_eq!(percent_to_brightness(1), 2);
    assert_eq!(percent_to_brightness(50), 127);
    assert_eq!(percent_to_brightness(99), 252);
    assert_eq!(percent_to_brightness(100), 255);
}

#[test]
fn percent_above_hundred_is_clamped() {
    assert_eq!(percent_to_brightness(101), 255);
    assert_eq!(percent_to_brightness(200), 255);
    assert_eq!(percent_to_brightness(255), 255);
}

#[test]
fn corrected_scales_then_applies_gamma() {
    assert_eq!(corrected(255, 255), 255);
    assert_eq!(corrected(0, 255), 0);
    assert_eq!(corrected(255, 127), 63);
    assert_eq!(corrected(128, 255), 64);
    assert_eq!(corrected(200, 127), 39);
    for v in 0..=255u8 {
        for b in [0u8, 1, 64, 127, 200, 255] {
            assert_eq!(corrected(v, b), gamma2(scale(v, b)));
        }
    }
}
