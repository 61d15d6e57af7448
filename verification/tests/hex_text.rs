use swf_tree::hex::{hex_decode, hex_encode};
use swf_tree::value::DecodeError;

#[test]
fn hex_of_empty_is_empty() {
    assert_eq!(hex_encode(&vec![]), "");
    assert_eq!(hex_decode(""), Ok(vec![]));
}

#[test]
fn hex_uses_two_lowercase_digits_per_byte() {
    assert_eq!(hex_encode(&vec![0x00, 0xff, 0x10]), "00ff10");
    assert_eq!(hex_encode(&vec![0xab, 0xcd, 0xef]), "abcdef");
    assert_eq!(hex_encode(&vec![9]), "09");
}

#[test]
fn hex_round_trips_all_byte_values() {
    let all: Vec<u8> = (0..=255u16).map(|b| b as u8).collect();
    let text = hex_encode(&all);
    assert_eq!(text.len(), 512);
    assert_eq!(hex_decode(&text), Ok(all));
}

#[test]
fn hex_rejects_odd_length() {
    assert_eq!(hex_decode("0"), Err(DecodeError::InvalidHex));
    assert_eq!(hex_decode("abc"), Err(DecodeError::InvalidHex));
}

#[test]
fn hex_rejects_bad_digits() {
    assert_eq!(hex_decode("zz"), Err(DecodeError::InvalidHex));
    assert_eq!(hex_decode("0g"), Err(DecodeError::InvalidHex));
    assert_eq!(hex_decode("a bc"), Err(DecodeError::InvalidHex));
    assert_eq!(hex_decode("ABCD"), Err(DecodeError::InvalidHex));
}
