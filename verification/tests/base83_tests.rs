use blurhash_core::base83::{decode, encode, encode_to_buf};

const ALPHABET: &str =
    "0123456789ABCDEFGHIJKLMNOPQRSTUVWXYZabcdefghijklmnopqrstuvwxyz#$%*+,-.:;=?@[]^_{|}~";

#[test]
fn test_decode_single_chars() {
    assert_eq!(decode("0").unwrap(), 0);
    assert_eq!(decode("1").unwrap(), 1);
    assert_eq!(decode("~").unwrap(), 82);
}

#[test]
fn test_encode_single_chars() {
    assert_eq!(encode(0, 1).unwrap(), "0");
    assert_eq!(encode(1, 1).unwrap(), "1");
    assert_eq!(encode(82, 1).unwrap(), "~");
}

#[test]
fn test_roundtrip() {
    for value in [0, 1, 42, 82, 83, 100, 1000, 83 * 83 - 1, 83 * 83 * 83 - 1] {
        let length = if value == 0 {
            1
        } else {
            ((value as f64).log(83.0).floor() as usize) + 1
        };
        let encoded = encode(value, length).unwrap();
        let decoded = decode(&encoded).unwrap();
        assert_eq!(decoded, value, "roundtrip failed for {value}");
    }
}

#[test]
fn test_encode_with_padding() {
    // Encoding 0 with length 4 should give "0000"
    assert_eq!(encode(0, 4).unwrap(), "0000");
    // Encoding 1 with length 4 should give "0001"
    assert_eq!(encode(1, 4).unwrap(), "0001");
}

#[test]
fn test_decode_multi_char() {
    // "10" in base83 = 1*83 + 0 = 83
    assert_eq!(decode("10").unwrap(), 83);
    // "00" = 0
    assert_eq!(decode("00").unwrap(), 0);
}

#[test]
fn test_decode_invalid_char() {
    assert!(decode(" ").is_err());
    assert!(decode("!").is_err());
}

#[test]
fn test_encode_value_too_large() {
    assert!(encode(83, 1).is_err());
    assert!(encode(83 * 83, 2).is_err());
}

#[test]
fn test_alphabet_completeness() {
    // Every character in the alphabet should decode to its index
    for (i, ch) in ALPHABET.chars().enumerate() {
        let s = String::from(ch);
        assert_eq!(decode(&s).unwrap(), i as u64);
    }
}

#[test]
fn test_encode_to_buf_matches_encode() {
    let mut buf = vec![0u8; 16];
    for &(value, length) in &[(0u64, 1), (82, 1), (0, 4), (1, 4), (83 * 83 - 1, 2)] {
        let expected = encode(value, length).unwrap();
        let end = encode_to_buf(value, length, &mut buf, 0);
        assert_eq!(end, length);
        assert_eq!(
            std::str::from_utf8(&buf[..length]).unwrap(),
            expected.as_str(),
            "mismatch for value={value}, length={length}"
        );
    }
}

#[test]
fn test_encode_to_buf_chaining() {
    let mut buf = vec![0u8; 8];
    let mut offset = 0;
    offset = encode_to_buf(21, 1, &mut buf, offset); // size flag
    offset = encode_to_buf(5, 1, &mut buf, offset); // quant_max_ac
    offset = encode_to_buf(123456, 4, &mut buf, offset); // DC
    assert_eq!(offset, 6);
    // Verify each segment matches individual encode
    assert_eq!(
        std::str::from_utf8(&buf[0..1]).unwrap(),
        encode(21, 1).unwrap()
    );
    assert_eq!(
        std::str::from_utf8(&buf[1..2]).unwrap(),
        encode(5, 1).unwrap()
    );
    assert_eq!(
        std::str::from_utf8(&buf[2..6]).unwrap(),
        encode(123456, 4).unwrap()
    );
}

#[test]
fn base83_encode_zero() {
    assert_eq!(encode(0, 1).unwrap(), "0");
    assert_eq!(encode(0, 4).unwrap(), "0000");
}

#[test]
fn base83_encode_max_single_digit() {
    // 82 should be the last character in the alphabet: '~'
    assert_eq!(encode(82, 1).unwrap(), "~");
}

#[test]
fn base83_encode_roundtrip() {
    for value in [0u64, 1, 42, 82, 83, 999, 6888, 83_u64.pow(4) - 1] {
        let len = if value == 0 {
            1
        } else {
            (value as f64).log(83.0).floor() as usize + 1
        };
        let encoded = encode(value, len).expect("encode ok");
        let decoded = decode(&encoded).expect("valid base83");
        assert_eq!(decoded, value, "roundtrip failed for {value}");
    }
}

#[test]
fn base83_decode_known() {
    // "10" in base83 = 1*83 + 0 = 83
    assert_eq!(decode("10").unwrap(), 83);
}

#[test]
fn base83_decode_invalid_char() {
    assert!(decode("!!!").is_err());
}
