use nova_cli::codec::{decode_hex_scalar, encode_hex_scalar, hexstr_to_4u64, CodecError};

#[test]
fn decode_one() {
    let s = format!("0x{}1", "0".repeat(63));
    assert_eq!(hexstr_to_4u64(s), Ok([1, 0, 0, 0]));
}

#[test]
fn decode_all_ones() {
    let s = format!("0x{}", "f".repeat(64));
    assert_eq!(hexstr_to_4u64(s), Ok([u64::MAX, u64::MAX, u64::MAX, u64::MAX]));
}

#[test]
fn decode_limb_order() {
    let s = "0x0000000000000004000000000000000300000000000000020000000000000001".to_string();
    assert_eq!(hexstr_to_4u64(s), Ok([1, 2, 3, 4]));
}

#[test]
fn decode_short_equals_padded() {
    let short = "0x1234abcd".to_string();
    let long = format!("0x{}1234abcd", "0".repeat(56));
    assert_eq!(hexstr_to_4u64(short.clone()), hexstr_to_4u64(long));
    assert_eq!(hexstr_to_4u64(short), Ok([0x1234abcd, 0, 0, 0]));
}

#[test]
fn decode_spanning_limbs() {
    let s = "0x1_0000000000000000".replace('_', "");
    assert_eq!(hexstr_to_4u64(s), Ok([0, 1, 0, 0]));
}

#[test]
fn decode_upper_case() {
    assert_eq!(hexstr_to_4u64("0XABCDEF".to_string()), Ok([0xabcdef, 0, 0, 0]));
    assert_eq!(hexstr_to_4u64("0xAbCdEf".to_string()), Ok([0xabcdef, 0, 0, 0]));
}

#[test]
fn decode_prefix_only_is_zero() {
    assert_eq!(hexstr_to_4u64("0x".to_string()), Ok([0, 0, 0, 0]));
}

#[test]
fn decode_missing_prefix() {
    assert_eq!(hexstr_to_4u64("1234".to_string()), Err(CodecError::MissingPrefix));
    assert_eq!(hexstr_to_4u64("0".to_string()), Err(CodecError::MissingPrefix));
    assert_eq!(hexstr_to_4u64("".to_string()), Err(CodecError::MissingPrefix));
    assert_eq!(hexstr_to_4u64("1x12".to_string()), Err(CodecError::MissingPrefix));
}

#[test]
fn decode_too_long() {
    let s = format!("0x{}", "1".repeat(65));
    assert_eq!(hexstr_to_4u64(s), Err(CodecError::TooLong));
}

#[test]
fn decode_invalid_digit() {
    assert_eq!(hexstr_to_4u64("0x12g4".to_string()), Err(CodecError::InvalidDigit));
    assert_eq!(hexstr_to_4u64("0x+123".to_string()), Err(CodecError::InvalidDigit));
    assert_eq!(hexstr_to_4u64("0x12é".to_string()), Err(CodecError::InvalidDigit));
}

#[test]
fn decode_over_modulus_is_accepted() {
    let s = format!("0x{}", "f".repeat(64));
    assert!(hexstr_to_4u64(s).is_ok());
}

#[test]
fn decode_without_prefix() {
    let s = format!("{}2a", "0".repeat(62));
    assert_eq!(decode_hex_scalar(&s, false), Ok([42, 0, 0, 0]));
    assert_eq!(decode_hex_scalar("0x2a", false), Err(CodecError::InvalidDigit));
}

#[test]
fn encode_exact() {
    let s = encode_hex_scalar([1, 2, 3, 0xdeadbeef]);
    assert_eq!(
        s,
        "0x00000000deadbeef000000000000000300000000000000020000000000000001"
    );
}

#[test]
fn round_trip_through_encoding() {
    let inputs = ["0x1", "0xABCDEF0123456789abcdef0123456789", "0x"];
    for s in inputs {
        let limbs = hexstr_to_4u64(s.to_string()).unwrap();
        let again = hexstr_to_4u64(encode_hex_scalar(limbs)).unwrap();
        assert_eq!(again, limbs);
    }
    let all = format!("0x{}", "f".repeat(64));
    let limbs = hexstr_to_4u64(all.clone()).unwrap();
    assert_eq!(encode_hex_scalar(limbs), all);
}
