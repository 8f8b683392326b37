use schema::ContentHash;

#[test]
fn a_content_hash_round_trips_through_hex() {
    let text = "00112233445566778899aabbccddeeff00112233445566778899aabbccddeeff";
    let hash = ContentHash::from_hex(text).expect("64 hex digits");
    assert_eq!(hash.to_hex(), text);
    assert_eq!(hash.as_bytes()[1], 0x11);
    assert_eq!(hash.as_bytes()[31], 0xff);
    let again = ContentHash::from_hex(&hash.to_hex()).expect("its own text reads back");
    assert!(again.same(&hash));
}

#[test]
fn only_lowercase_hex_digits_are_an_address() {
    assert!(ContentHash::from_hex(&"ab".repeat(32)).is_some());
    assert!(ContentHash::from_hex(&"AB".repeat(32)).is_none());
    assert!(ContentHash::from_hex(&"+0".repeat(32)).is_none());
}

#[test]
fn malformed_hex_is_refused() {
    assert!(ContentHash::from_hex("abc").is_none());
    assert!(ContentHash::from_hex(&"zz".repeat(32)).is_none());
    assert!(ContentHash::from_hex(&"ab".repeat(33)).is_none());
}

#[test]
fn an_address_is_written_as_its_hex_text() {
    let text = format!("{}{}", "ab".repeat(16), "0f".repeat(16));
    let hash = ContentHash::from_hex(&text).expect("64 hex digits");
    assert_eq!(hash.to_dotos(), text);
}
