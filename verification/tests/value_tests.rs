use circle_api::error::HexDecodeError;
use circle_api::hexcode::hex_decode;
use circle_api::ids::UuidValue;
use circle_api::timestamp::Timestamp;

#[test]
fn hex_decode_exact_values() {
    assert_eq!(hex_decode(b"0a1F").unwrap(), vec![0x0a, 0x1f]);
    assert_eq!(hex_decode(b"").unwrap(), Vec::<u8>::new());
    assert_eq!(hex_decode(b"74657374").unwrap(), b"test".to_vec());
    // agrees with the encoding the tests build inputs with
    assert_eq!(hex_decode(hex::encode("test").as_bytes()).unwrap(), b"test".to_vec());
}

#[test]
fn hex_decode_reports_the_exact_fault() {
    assert_eq!(hex_decode(b"abc").unwrap_err(), HexDecodeError::OddLength);
    assert_eq!(
        hex_decode(b"ag").unwrap_err(),
        HexDecodeError::InvalidHexCharacter { index: 1 }
    );
}

#[test]
fn uuid_parse_and_format_round_trip() {
    let text = b"0068d5a4-eb64-4399-8441-a9af33af80a0";
    let u = UuidValue::parse(text).unwrap();
    assert_eq!(u.to_hyphenated(), text.to_vec());
    let v = UuidValue::from_bytes(vec![0xab; 16]).unwrap();
    let formatted = v.to_hyphenated();
    assert_eq!(
        formatted,
        b"abababab-abab-abab-abab-abababababab".to_vec()
    );
    assert_eq!(UuidValue::parse(&formatted).unwrap(), v);
}

#[test]
fn uuid_parse_is_strict() {
    // canonical form only: lowercase, hyphens in place, exact length
    assert!(UuidValue::parse(b"0068D5A4-EB64-4399-8441-A9AF33AF80A0").is_none());
    assert!(UuidValue::parse(b"0068d5a4eb64439984 41a9af33af80a0").is_none());
    assert!(UuidValue::parse(b"0068d5a4-eb64-4399-8441-a9af33af80").is_none());
    assert!(UuidValue::parse(b"").is_none());
    assert!(UuidValue::from_bytes(vec![1; 15]).is_none());
}

#[test]
fn timestamp_parse_and_format_round_trip() {
    let t = Timestamp::parse(b"2023-11-25T14:26:38Z").unwrap();
    assert_eq!(t.year, 2023);
    assert_eq!(t.month, 11);
    assert_eq!(t.day, 25);
    assert_eq!(t.hour, 14);
    assert_eq!(t.minute, 26);
    assert_eq!(t.second, 38);
    assert_eq!(t.to_text(), b"2023-11-25T14:26:38Z".to_vec());
}

#[test]
fn timestamp_validates_the_calendar() {
    assert!(Timestamp::parse(b"2023-13-01T00:00:00Z").is_none());
    assert!(Timestamp::parse(b"2023-00-01T00:00:00Z").is_none());
    assert!(Timestamp::parse(b"2023-02-29T00:00:00Z").is_none());
    assert!(Timestamp::parse(b"2024-02-29T00:00:00Z").is_some());
    assert!(Timestamp::parse(b"1900-02-29T00:00:00Z").is_none());
    assert!(Timestamp::parse(b"2000-02-29T00:00:00Z").is_some());
    assert!(Timestamp::parse(b"2023-04-31T00:00:00Z").is_none());
    assert!(Timestamp::parse(b"2023-11-25T24:00:00Z").is_none());
    assert!(Timestamp::parse(b"2023-11-25T14:60:00Z").is_none());
    assert!(Timestamp::parse(b"2023-11-25T14:26:38").is_none());
    assert!(Timestamp::parse(b"2023-11-25 14:26:38Z").is_none());
}

#[test]
fn vendor_token_is_stripped_everywhere() {
    let s = b"-----BEGIN RSA PUBLIC KEY-----x-----END RSA PUBLIC KEY-----";
    let out = circle_api::client::remove_rsa_token(s);
    assert_eq!(
        out,
        b"-----BEGIN PUBLIC KEY-----x-----END PUBLIC KEY-----".to_vec()
    );
    assert_eq!(circle_api::client::remove_rsa_token(b"RSA RSA "), Vec::<u8>::new());
    assert_eq!(circle_api::client::remove_rsa_token(b"RS A"), b"RS A".to_vec());
}
