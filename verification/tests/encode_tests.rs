use blurhash_core::base83;
use blurhash_core::{decode, encode};

#[test]
fn test_encode_solid_black() {
    // A 4x4 solid black image
    let pixels = vec![0u8; 4 * 4 * 3];
    let hash = encode(&pixels, 4, 4, 4, 3).unwrap();
    assert!(!hash.is_empty());
    // Size flag for 4x3: (4-1) + (3-1)*9 = 3 + 18 = 21
    // First character encodes 21
    let size_info = base83::decode(&hash[0..1]).unwrap();
    assert_eq!(size_info, 21);
}

#[test]
fn test_encode_solid_white() {
    // A 4x4 solid white image
    let pixels = vec![255u8; 4 * 4 * 3];
    let hash = encode(&pixels, 4, 4, 4, 3).unwrap();
    assert!(!hash.is_empty());
}

#[test]
fn test_encode_solid_red() {
    // A 2x2 solid red image
    let mut pixels = vec![0u8; 2 * 2 * 3];
    for i in 0..4 {
        pixels[i * 3] = 255; // R
    }
    let hash = encode(&pixels, 2, 2, 4, 3).unwrap();
    assert!(!hash.is_empty());
    // Length should be 4 + 2*4*3 = 28
    assert_eq!(hash.len(), 4 + 2 * 4 * 3);
}

#[test]
fn test_encode_component_count_validation() {
    let pixels = vec![0u8; 4 * 4 * 3];
    assert!(encode(&pixels, 4, 4, 0, 3).is_err());
    assert!(encode(&pixels, 4, 4, 10, 3).is_err());
    assert!(encode(&pixels, 4, 4, 4, 0).is_err());
    assert!(encode(&pixels, 4, 4, 4, 10).is_err());
}

#[test]
fn test_encode_pixel_buffer_validation() {
    let pixels = vec![0u8; 10]; // wrong length
    assert!(encode(&pixels, 4, 4, 4, 3).is_err());
}

#[test]
fn test_encode_hash_length() {
    // For components_x=4, components_y=3: length = 4 + 2*4*3 = 28
    let pixels = vec![128u8; 4 * 4 * 3];
    let hash = encode(&pixels, 4, 4, 4, 3).unwrap();
    assert_eq!(hash.len(), 28);
}

#[test]
fn test_encode_1x1_components() {
    let pixels = vec![100u8; 2 * 2 * 3];
    let hash = encode(&pixels, 2, 2, 1, 1).unwrap();
    // Length = 4 + 2*1*1 = 6
    assert_eq!(hash.len(), 6);
}

#[test]
fn test_encode_gradient() {
    // Horizontal gradient
    let mut pixels = vec![0u8; 8 * 3];
    for x in 0..8 {
        let val = (x * 32).min(255) as u8;
        pixels[x * 3] = val;
        pixels[x * 3 + 1] = val;
        pixels[x * 3 + 2] = val;
    }
    let hash = encode(&pixels, 8, 1, 4, 1).unwrap();
    assert!(!hash.is_empty());
}

#[test]
fn test_encode_decode_roundtrip_solid() {
    // Solid gray image with 1x1 components (DC-only) for exact roundtrip
    let pixels = vec![128u8; 4 * 4 * 3];
    let hash = encode(&pixels, 4, 4, 1, 1).unwrap();
    let decoded = decode(&hash, 4, 4, 1000).unwrap();

    // With 1x1 components (DC-only), all pixels should be very close to original
    for i in 0..16 {
        let r = decoded[i * 3];
        let g = decoded[i * 3 + 1];
        let b = decoded[i * 3 + 2];
        assert!(
            (r as i16 - 128).unsigned_abs() <= 1,
            "pixel {i} R: expected ~128, got {r}"
        );
        assert!(
            (g as i16 - 128).unsigned_abs() <= 1,
            "pixel {i} G: expected ~128, got {g}"
        );
        assert!(
            (b as i16 - 128).unsigned_abs() <= 1,
            "pixel {i} B: expected ~128, got {b}"
        );
    }
}

#[test]
fn test_encode_decode_roundtrip_color() {
    // A 4x4 image with some color variation
    let mut pixels = vec![0u8; 4 * 4 * 3];
    for y in 0..4 {
        for x in 0..4 {
            let idx = (y * 4 + x) * 3;
            pixels[idx] = (x * 64) as u8;
            pixels[idx + 1] = (y * 64) as u8;
            pixels[idx + 2] = 128;
        }
    }
    let hash = encode(&pixels, 4, 4, 4, 3).unwrap();
    let decoded = decode(&hash, 4, 4, 1000).unwrap();
    assert_eq!(decoded.len(), 4 * 4 * 3);
}

#[test]
fn test_decode_1x1() {
    // Minimal blurhash: 1x1 components, length = 4 + 2*1 = 6
    let pixels = vec![200u8; 2 * 2 * 3];
    let hash = encode(&pixels, 2, 2, 1, 1).unwrap();
    let decoded = decode(&hash, 4, 4, 1000).unwrap();
    // With 1x1 components, all output pixels should be the same
    let first = [decoded[0], decoded[1], decoded[2]];
    for i in 1..16 {
        assert_eq!(
            [decoded[i * 3], decoded[i * 3 + 1], decoded[i * 3 + 2]],
            first,
            "pixel {i} differs from pixel 0 with 1x1 components"
        );
    }
}

#[test]
fn encode_rejects_bad_dimensions() {
    let pixels = vec![0u8; 4 * 4 * 3];
    assert!(encode(&pixels, 0, 4, 4, 3).is_err());
    assert!(encode(&pixels, 4, 0, 4, 3).is_err());
    assert!(encode(&pixels, 10001, 4, 4, 3).is_err());
    assert!(encode(&pixels, 4, 10001, 4, 3).is_err());
}
