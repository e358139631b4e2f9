//! Hex-encoded UIDs and server GUIDs.

use kapsule_dbus_mux::auth::{encode_uid, generate_guid, parse_hex_uid};

#[test]
fn test_parse_hex_uid() {
    // "1000" encoded as hex
    let hex = hex::encode("1000");
    assert_eq!(parse_hex_uid(&hex).unwrap(), 1000);
}

#[test]
fn test_encode_uid() {
    let encoded = encode_uid(1000);
    let decoded = hex::decode(&encoded).unwrap();
    let uid_str = String::from_utf8(decoded).unwrap();
    assert_eq!(uid_str, "1000");
}

#[test]
fn test_generate_guid() {
    let guid = generate_guid();
    assert_eq!(guid.len(), 32);
    assert!(guid.chars().all(|c| c.is_ascii_hexdigit()));
}
