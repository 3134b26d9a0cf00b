use tracker::announce::{
    encode_push_direct, encode_push_one_byte, encode_push_two_byte,
    extract_onion_address_from_script, is_valid_onion_address, is_valid_provider_address,
};

#[test]
fn test_valid_onion_address() {
    assert!(is_valid_onion_address("example.onion:1234"));
    assert!(is_valid_onion_address("abc1234567890def.onion:65535"));
}

#[test]
fn test_invalid_onion_address() {
    assert!(!is_valid_onion_address("example.com:1234"));
    assert!(!is_valid_onion_address("example.onion:0"));
    assert!(!is_valid_onion_address("example.onion"));
    assert!(!is_valid_onion_address("127.0.0.1:8080"));
}

#[test]
fn test_valid_provider_address() {
    assert!(is_valid_provider_address("abc123.example:9001"));
    assert!(is_valid_provider_address("example.onion:1234"));
    assert!(is_valid_provider_address("h:1"));
    assert!(is_valid_provider_address("host:65535"));
}

#[test]
fn test_invalid_provider_address() {
    assert!(!is_valid_provider_address("example.onion"));
    assert!(!is_valid_provider_address("host:0"));
    assert!(!is_valid_provider_address(":1234"));
    assert!(!is_valid_provider_address("a:b"));
    assert!(!is_valid_provider_address("::1:8080"));
    assert!(!is_valid_provider_address("host:65536"));
    assert!(!is_valid_provider_address("host:"));
    assert!(!is_valid_provider_address(""));
}

#[test]
fn test_extract_round_trip_direct_push() {
    let addr = "abc123.example:9001";
    let script = encode_push_direct(&addr.as_bytes().to_vec());
    assert_eq!(
        extract_onion_address_from_script(&script),
        Some(addr.to_string())
    );
}

#[test]
fn test_extract_round_trip_one_byte_push() {
    let addr = "example.onion:1234";
    let script = encode_push_one_byte(&addr.as_bytes().to_vec());
    assert_eq!(script[1], 0x4c);
    assert_eq!(
        extract_onion_address_from_script(&script),
        Some(addr.to_string())
    );
}

#[test]
fn test_extract_round_trip_two_byte_push() {
    let addr = "example.onion:1234";
    let script = encode_push_two_byte(&addr.as_bytes().to_vec());
    assert_eq!(script[1], 0x4d);
    assert_eq!(script[2] as usize, addr.len());
    assert_eq!(script[3], 0);
    assert_eq!(
        extract_onion_address_from_script(&script),
        Some(addr.to_string())
    );
}

#[test]
fn test_extract_rejects_malformed_scripts() {
    assert_eq!(extract_onion_address_from_script(&[]), None);
    assert_eq!(extract_onion_address_from_script(&[0x6a]), None);
    assert_eq!(extract_onion_address_from_script(&[0x6a, 0x00]), None);
    // wrong opening opcode
    assert_eq!(extract_onion_address_from_script(&[0x51, 0x01, b'a']), None);
    // direct push truncated: claims 5 bytes, has 2
    assert_eq!(
        extract_onion_address_from_script(&[0x6a, 0x05, b'a', b'b']),
        None
    );
    // one-byte length push with no length byte
    assert_eq!(extract_onion_address_from_script(&[0x6a, 0x4c]), None);
    // two-byte length push truncated header
    assert_eq!(extract_onion_address_from_script(&[0x6a, 0x4d, 0x02]), None);
    // push opcode outside all three forms
    assert_eq!(extract_onion_address_from_script(&[0x6a, 0x4e, 0x00]), None);
}

#[test]
fn test_extract_rejects_bad_payloads() {
    // not UTF-8
    assert_eq!(
        extract_onion_address_from_script(&[0x6a, 0x02, 0xff, 0xfe]),
        None
    );
    // UTF-8 but not host:port
    let script = encode_push_direct(&b"hello world".to_vec());
    assert_eq!(extract_onion_address_from_script(&script), None);
    // port zero
    let script = encode_push_direct(&b"x.example:0".to_vec());
    assert_eq!(extract_onion_address_from_script(&script), None);
}

#[test]
fn test_extract_ignores_trailing_bytes() {
    let addr = "x.onion:1";
    let mut script = encode_push_direct(&addr.as_bytes().to_vec());
    script.push(0xde);
    script.push(0xad);
    assert_eq!(
        extract_onion_address_from_script(&script),
        Some(addr.to_string())
    );
}
