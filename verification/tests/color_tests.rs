use blurhash_core::color::{linear_to_srgb, srgb_to_linear, LINEAR_SCALE};

/// One linear-light unit as a fraction of 1.0.
const SCALE_F: f64 = LINEAR_SCALE as f64;

#[test]
fn test_srgb_to_linear_boundary() {
    assert!((srgb_to_linear(0) as f64 / SCALE_F - 0.0).abs() < 1e-6);
    assert!((srgb_to_linear(255) as f64 / SCALE_F - 1.0).abs() < 1e-6);
}

#[test]
fn test_srgb_to_linear_known_values() {
    // sRGB 128 should be approximately 0.2158605
    let val = srgb_to_linear(128) as f64 / SCALE_F;
    assert!((val - 0.2158605).abs() < 1e-4, "got {val}");
}

#[test]
fn test_linear_to_srgb_boundary() {
    assert_eq!(linear_to_srgb(0), 0);
    assert_eq!(linear_to_srgb(LINEAR_SCALE as i64), 255);
}

#[test]
fn test_linear_to_srgb_clamp() {
    // -0.5 and 1.5, in fixed point
    assert_eq!(linear_to_srgb(-(LINEAR_SCALE as i64) / 2), 0);
    assert_eq!(linear_to_srgb(LINEAR_SCALE as i64 * 3 / 2), 255);
}

#[test]
fn test_roundtrip_srgb() {
    // Roundtrip: sRGB -> linear -> sRGB should be identity (within rounding)
    for i in 0..=255u8 {
        let linear = srgb_to_linear(i);
        let back = linear_to_srgb(linear as i64);
        assert!(
            (i as i16 - back as i16).unsigned_abs() <= 1,
            "roundtrip failed for {i}: got {back}"
        );
    }
}

#[test]
fn test_linear_to_srgb_threshold() {
    // The threshold 0.0031308 should be handled correctly
    let below = linear_to_srgb((0.003 * SCALE_F) as i64);
    let above = linear_to_srgb((0.004 * SCALE_F) as i64);
    assert!(below < above);
}

#[test]
fn test_srgb_to_linear_monotonic() {
    let mut prev = srgb_to_linear(0);
    for i in 1..=255u8 {
        let curr = srgb_to_linear(i);
        assert!(curr > prev, "not monotonic at {i}: {prev} >= {curr}");
        prev = curr;
    }
}
