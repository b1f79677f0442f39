use patch_mirror::hex::{hex_decode, hex_encode, Endianness};
use patch_mirror::patch_info::SESSION_ACCEPT;

#[test]
fn test_hex_decode_little() {
    let bytes = hex_decode("0DF027", &Endianness::Little).unwrap();
    assert_eq!(bytes, vec![0x0D, 0xF0, 0x27]);
}

#[test]
fn test_hex_decode_lowercase() {
    let bytes = hex_decode("0df027", &Endianness::Little).unwrap();
    assert_eq!(bytes, vec![0x0D, 0xF0, 0x27]);
}

#[test]
fn test_hex_decode_big_reverses_bits() {
    // 0x01 read big-endian has its bits reversed: 0x80.
    let bytes = hex_decode("01", &Endianness::Big).unwrap();
    assert_eq!(bytes, vec![0x80]);
    let bytes = hex_decode("F0", &Endianness::Big).unwrap();
    assert_eq!(bytes, vec![0x0F]);
}

#[test]
fn test_hex_decode_odd_length_fails() {
    assert!(hex_decode("0DF", &Endianness::Little).is_none());
}

#[test]
fn test_hex_decode_bad_digit_fails() {
    assert!(hex_decode("0G", &Endianness::Little).is_none());
}

#[test]
fn test_hex_decode_empty() {
    let bytes = hex_decode("", &Endianness::Little).unwrap();
    assert!(bytes.is_empty());
}

#[test]
fn test_hex_round_trip() {
    let bytes: Vec<u8> = vec![0x00, 0x0D, 0xF0, 0x7F, 0xFF, 0x27];
    let text = hex_encode(&bytes);
    assert_eq!(text, "000df07fff27");
    let back = hex_decode(text.as_str(), &Endianness::Little).unwrap();
    assert_eq!(back, bytes);
}

#[test]
fn test_session_accept_decodes() {
    let bytes = hex_decode(SESSION_ACCEPT, &Endianness::Little).unwrap();
    assert_eq!(bytes.len(), 43);
    assert_eq!(bytes[0], 0x0D);
    assert_eq!(bytes[1], 0xF0);
}
