use string32::FromUtf16Error;
use string32::FromUtf8Error;
use string32::String32;

#[test]
fn utf8_decoding_succeeds_on_valid_bytes() {
    let s = String32::from_utf8(vec![0x31u8, 0x32, 0x33]).unwrap();
    assert_eq!(s.as_str(), "123");
    let t = String32::from_utf8(vec![0xF0u8, 0x9F, 0x99, 0x82]).unwrap();
    assert_eq!(t.as_str(), "\u{1F642}");
}

#[test]
fn utf8_decoding_hands_back_invalid_bytes() {
    let bad = vec![0x61u8, 0xFF, 0x62];
    match String32::from_utf8(bad.clone()) {
        Err(FromUtf8Error::Invalid(w)) => assert_eq!(w, bad),
        _ => panic!("expected the invalid-bytes error"),
    }
    let truncated = vec![0xF0u8, 0x9F];
    match String32::from_utf8(truncated.clone()) {
        Err(FromUtf8Error::Invalid(w)) => assert_eq!(w.clone(), truncated),
        _ => panic!("expected the invalid-bytes error"),
    }
}

#[test]
fn utf8_error_returns_buffer() {
    let bad = vec![0x80u8];
    let e = String32::from_utf8(bad.clone()).unwrap_err();
    assert_eq!(e.into_bytes(), bad);
}

#[test]
fn utf16_decoding_strict() {
    let units: [u16; 4] = [0x0074, 0x0065, 0xD83D, 0xDE42];
    let s = String32::from_utf16(&units).unwrap();
    assert_eq!(s.as_str(), "te\u{1F642}");

    let lone: [u16; 1] = [0xD800];
    assert_eq!(String32::from_utf16(&lone), Err(FromUtf16Error::Invalid));
}

#[test]
fn utf16_decoding_lossy() {
    let lone: [u16; 3] = [0x0061, 0xD800, 0x0062];
    let s = String32::from_utf16_lossy(&lone).unwrap();
    assert_eq!(s.as_str(), "a\u{FFFD}b");
}
