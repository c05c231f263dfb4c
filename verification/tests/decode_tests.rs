use blurhash_core::{components, decode};

/// Reference blurhash from the official spec / woltapp README.
const KNOWN_HASH: &str = "LEHV6nWB2yk8pyo0adR*.7kCMdnj";

#[test]
fn test_components_extraction() {
    // Size flag 21 = (4-1) + (3-1)*9 = 3 + 18
    // That encodes as base83(21) = "L"
    let hash = "LEHV6nWB2yk8pyo0adR*.7kCMdnj";
    let (cx, cy) = components(hash).unwrap();
    assert_eq!(cx, 4);
    assert_eq!(cy, 3);
}

#[test]
fn test_components_too_short() {
    assert!(components("ABC").is_err());
}

#[test]
fn test_decode_output_size() {
    let hash = "LEHV6nWB2yk8pyo0adR*.7kCMdnj";
    let pixels = decode(hash, 32, 32, 1000).unwrap();
    assert_eq!(pixels.len(), 32 * 32 * 3);
}

#[test]
fn test_decode_too_short() {
    assert!(decode("ABC", 32, 32, 1000).is_err());
}

#[test]
fn test_decode_wrong_length() {
    // Valid first char but string is truncated
    assert!(decode("L00000", 32, 32, 1000).is_err());
}

#[test]
fn test_decode_known_hash() {
    // "LEHV6nWB2yk8pyo0adR*.7kCMdnj" is a well-known BlurHash
    let pixels = decode("LEHV6nWB2yk8pyo0adR*.7kCMdnj", 4, 4, 1000).unwrap();
    assert_eq!(pixels.len(), 4 * 4 * 3);
    // Verify decode produced non-trivial output (not all zeros)
    assert!(pixels.iter().any(|&p| p > 0));
}

#[test]
fn test_decode_punch() {
    let hash = "LEHV6nWB2yk8pyo0adR*.7kCMdnj";
    let normal = decode(hash, 4, 4, 1000).unwrap();
    let punched = decode(hash, 4, 4, 2000).unwrap();
    // Punched version should generally have more contrast
    // (different pixel values from normal)
    assert_ne!(normal, punched);
}

#[test]
fn components_from_known_hash() {
    let (cx, cy) = components(KNOWN_HASH).expect("valid hash");
    assert_eq!(cx, 4);
    assert_eq!(cy, 3);
}

#[test]
fn components_too_short() {
    assert!(components("ABCDE").is_err());
}

#[test]
fn decode_known_hash_dimensions() {
    let pixels = decode(KNOWN_HASH, 32, 32, 1000).expect("decode ok");
    assert_eq!(pixels.len(), 32 * 32 * 3);
}

#[test]
fn decode_known_hash_pixel_range() {
    let pixels = decode(KNOWN_HASH, 8, 8, 1000).expect("decode ok");
    // Verify decode produced non-trivial output (not all zeros)
    assert!(pixels.iter().any(|&v| v > 0));
}

#[test]
fn decode_invalid_length() {
    assert!(decode("LEHV6", 8, 8, 1000).is_err());
}

#[test]
fn decode_invalid_characters() {
    // '!' is not in the base83 alphabet
    assert!(decode("!EHVWB2yk8pyo0adR*.7kCMdnj", 8, 8, 1000).is_err());
}

#[test]
fn decode_mismatched_length() {
    // A valid first char that implies 4x3 components but truncated payload
    assert!(decode("LEHV6nWB", 8, 8, 1000).is_err());
}

#[test]
fn decode_with_punch() {
    let normal = decode(KNOWN_HASH, 8, 8, 1000).expect("decode ok");
    let punched = decode(KNOWN_HASH, 8, 8, 2000).expect("decode ok");
    // Punched image should differ from normal (AC components are amplified)
    assert_ne!(normal, punched);
}

#[test]
fn decode_to_small_1x1() {
    let pixels = decode(KNOWN_HASH, 1, 1, 1000).expect("decode ok");
    assert_eq!(pixels.len(), 3);
}

#[test]
fn decode_to_large_256x256() {
    let pixels = decode(KNOWN_HASH, 256, 256, 1000).expect("decode ok");
    assert_eq!(pixels.len(), 256 * 256 * 3);
}

#[test]
fn decode_rejects_bad_dimensions() {
    assert!(decode(KNOWN_HASH, 0, 8, 1000).is_err());
    assert!(decode(KNOWN_HASH, 8, 0, 1000).is_err());
    assert!(decode(KNOWN_HASH, 10001, 8, 1000).is_err());
    assert!(decode(KNOWN_HASH, 8, 10001, 1000).is_err());
}
