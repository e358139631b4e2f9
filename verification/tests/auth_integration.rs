//! The SASL conversation of the multiplexer's server side, line by line.

use kapsule_dbus_mux::auth::{
    check_null_byte, encode_uid, generate_guid, parse_hex_uid, trim_line, SaslAuth, SaslOutcome, SaslState, SaslStep,
};
use kapsule_dbus_mux::error::AuthError;

const GUID: &str = "0123456789abcdef0123456789abcdef";

fn server() -> SaslAuth {
    SaslAuth::with_guid(GUID.to_string())
}

fn ok_line() -> String {
    format!("OK {}\r\n", GUID)
}

fn step(auth: &SaslAuth, state: SaslState, line: &str) -> SaslStep {
    auth.step(state, line, 4242)
}

#[test]
fn auth_integration_test_guid_format() {
    let guid = generate_guid();

    // D-Bus GUIDs are 32 hex characters
    assert_eq!(guid.len(), 32, "GUID should be 32 characters");
    assert!(guid.chars().all(|c| c.is_ascii_hexdigit()), "GUID should be all hex");
}

#[test]
fn test_guid_uniqueness() {
    let guids: Vec<String> = (0..100).map(|_| generate_guid()).collect();
    let unique_guids: std::collections::HashSet<&String> = guids.iter().collect();

    assert_eq!(guids.len(), unique_guids.len(), "All GUIDs should be unique");
}

#[test]
fn test_uid_encoding_roundtrip() {
    let test_cases = [0u32, 1, 500, 1000, 65534, 65535, 999999, u32::MAX];

    for uid in test_cases {
        let encoded = encode_uid(uid);
        let decoded_bytes = hex::decode(&encoded).expect("Should decode");
        let decoded_str = String::from_utf8(decoded_bytes).expect("Should be UTF-8");
        let decoded_uid: u32 = decoded_str.parse().expect("Should parse as u32");

        assert_eq!(decoded_uid, uid, "Roundtrip failed for UID {}", uid);
    }
}

#[test]
fn test_uid_encoding_format() {
    // Verify the encoding produces expected hex output
    let uid = 1000u32;
    let encoded = encode_uid(uid);

    // "1000" in hex is "31303030"
    assert_eq!(encoded, "31303030");

    // Verify decoding
    let decoded = hex::decode(&encoded).unwrap();
    assert_eq!(decoded, b"1000");
}

#[test]
fn conversation_direct_uid() {
    let auth = server();
    let line = format!("AUTH EXTERNAL {}", encode_uid(1000));
    let s = step(&auth, SaslState::WaitingForAuth, &line);
    assert_eq!(s.state, SaslState::WaitingForBegin { uid: 1000 });
    assert_eq!(s.reply, Some(ok_line()));
    assert_eq!(s.outcome, SaslOutcome::Continue);
    let s = step(&auth, s.state, "BEGIN");
    assert_eq!(s.state, SaslState::Authenticated { uid: 1000 });
    assert_eq!(s.reply, None);
    assert_eq!(s.outcome, SaslOutcome::Authenticated(1000));
}

#[test]
fn conversation_challenge_response_with_fd() {
    let auth = server();
    let s = step(&auth, SaslState::WaitingForAuth, "AUTH EXTERNAL");
    assert_eq!(s.state, SaslState::WaitingForData);
    assert_eq!(s.reply, Some("DATA\r\n".to_string()));
    let line = format!("DATA {}", encode_uid(501));
    let s = step(&auth, s.state, &line);
    assert_eq!(s.state, SaslState::WaitingForBegin { uid: 501 });
    assert_eq!(s.reply, Some(ok_line()));
    let s = step(&auth, s.state, "NEGOTIATE_UNIX_FD");
    assert_eq!(s.state, SaslState::WaitingForBeginAfterFd { uid: 501 });
    assert_eq!(s.reply, Some("AGREE_UNIX_FD\r\n".to_string()));
    let s = step(&auth, s.state, "BEGIN");
    assert_eq!(s.outcome, SaslOutcome::Authenticated(501));
}

#[test]
fn conversation_empty_data_uses_process_uid() {
    let auth = server();
    let s = step(&auth, SaslState::WaitingForAuth, "AUTH EXTERNAL");
    let s = step(&auth, s.state, "DATA");
    assert_eq!(s.state, SaslState::WaitingForBegin { uid: 4242 });
    assert_eq!(s.reply, Some(ok_line()));
    let s = step(&auth, s.state, "BEGIN");
    assert_eq!(s.outcome, SaslOutcome::Authenticated(4242));
}

#[test]
fn conversation_rejects_other_mechanisms_then_succeeds() {
    let auth = server();
    for line in ["AUTH", "AUTH DBUS_COOKIE_SHA1 some_data", "AUTH ANONYMOUS", "CANCEL", "ERROR", "ERROR something went wrong"] {
        let s = step(&auth, SaslState::WaitingForAuth, line);
        assert_eq!(s.state, SaslState::WaitingForAuth, "line {}", line);
        assert_eq!(s.reply, Some("REJECTED EXTERNAL\r\n".to_string()));
        assert_eq!(s.outcome, SaslOutcome::Continue);
    }
    let line = format!("AUTH EXTERNAL {}", encode_uid(0));
    let s = step(&auth, SaslState::WaitingForAuth, &line);
    assert_eq!(s.state, SaslState::WaitingForBegin { uid: 0 });
}

#[test]
fn conversation_unexpected_line_fails() {
    let auth = server();
    let s = step(&auth, SaslState::WaitingForAuth, "HELLO");
    assert_eq!(s.state, SaslState::Failed);
    assert_eq!(s.reply, None);
    assert_eq!(s.outcome, SaslOutcome::Failed(AuthError::InvalidData("Unexpected line: HELLO".to_string())));
}

#[test]
fn conversation_bad_data_answer_fails() {
    let auth = server();
    let s = step(&auth, SaslState::WaitingForData, "BEGIN");
    assert_eq!(s.state, SaslState::Failed);
    assert_eq!(
        s.outcome,
        SaslOutcome::Failed(AuthError::InvalidData("Expected DATA response, got: BEGIN".to_string()))
    );
}

#[test]
fn conversation_invalid_hex_uid_fails() {
    let auth = server();
    let s = step(&auth, SaslState::WaitingForAuth, "AUTH EXTERNAL zzzz");
    assert_eq!(s.state, SaslState::Failed);
    assert!(matches!(s.outcome, SaslOutcome::Failed(AuthError::InvalidData(_))));
    // "abc" in hex is not a number
    let s = step(&auth, SaslState::WaitingForAuth, "AUTH EXTERNAL 616263");
    assert!(matches!(s.outcome, SaslOutcome::Failed(AuthError::InvalidData(_))));
    // an empty argument is not a number either
    let s = step(&auth, SaslState::WaitingForAuth, "AUTH EXTERNAL ");
    assert!(matches!(s.outcome, SaslOutcome::Failed(AuthError::InvalidData(_))));
}

#[test]
fn conversation_missing_begin_fails() {
    let auth = server();
    let s = step(&auth, SaslState::WaitingForBegin { uid: 7 }, "AUTH EXTERNAL");
    assert_eq!(s.state, SaslState::Failed);
    assert_eq!(s.outcome, SaslOutcome::Failed(AuthError::ExpectedBegin));
    let s = step(&auth, SaslState::WaitingForBeginAfterFd { uid: 7 }, "NEGOTIATE_UNIX_FD");
    assert_eq!(s.outcome, SaslOutcome::Failed(AuthError::ExpectedBegin));
}

#[test]
fn conversation_various_uid_values() {
    let auth = server();
    for uid in [0u32, 1, 1000, 65534, u32::MAX] {
        let line = format!("AUTH EXTERNAL {}", encode_uid(uid));
        let s = step(&auth, SaslState::WaitingForAuth, &line);
        assert_eq!(s.state, SaslState::WaitingForBegin { uid });
    }
}

#[test]
fn conversation_large_uid_number_fails() {
    let auth = server();
    // "4294967296" does not fit in a u32
    let line = format!("AUTH EXTERNAL {}", hex::encode("4294967296"));
    let s = step(&auth, SaslState::WaitingForAuth, &line);
    assert!(matches!(s.outcome, SaslOutcome::Failed(AuthError::InvalidData(_))));
}

#[test]
fn conversation_custom_guid_in_ok_line() {
    let auth = SaslAuth::with_guid("feedfacefeedfacefeedfacefeedface".to_string());
    assert_eq!(auth.guid(), "feedfacefeedfacefeedfacefeedface");
    let line = format!("AUTH EXTERNAL {}", encode_uid(3));
    let s = auth.step(SaslState::WaitingForAuth, &line, 0);
    assert_eq!(s.reply, Some("OK feedfacefeedfacefeedfacefeedface\r\n".to_string()));
}

#[test]
fn new_server_has_guid() {
    let auth = SaslAuth::new();
    assert_eq!(auth.guid().len(), 32);
    assert!(auth.guid().chars().all(|c| c.is_ascii_hexdigit() && !c.is_ascii_uppercase()));
}

#[test]
fn null_byte_check() {
    assert_eq!(check_null_byte(0), Ok(()));
    assert_eq!(check_null_byte(b'A'), Err(AuthError::ExpectedNullByte));
}

#[test]
fn line_ends_are_trimmed() {
    assert_eq!(trim_line("BEGIN\r\n"), Some("BEGIN".to_string()));
    assert_eq!(trim_line("BEGIN\n"), Some("BEGIN".to_string()));
    assert_eq!(trim_line("BEGIN"), Some("BEGIN".to_string()));
    assert_eq!(trim_line("\r\n"), None);
    assert_eq!(trim_line(""), None);
}

#[test]
fn hex_uid_accepts_either_case_and_plus() {
    assert_eq!(parse_hex_uid("31303030"), Ok(1000));
    // '+' followed by digits reads as the number
    assert_eq!(parse_hex_uid(&hex::encode("+42")), Ok(42));
    assert_eq!(parse_hex_uid("3A"), Err(AuthError::InvalidData("Invalid UID: invalid digit found in string".to_string())));
    assert!(matches!(parse_hex_uid("123"), Err(AuthError::InvalidData(_))));
}

#[test]
fn test_missing_null_byte() {
    let err = check_null_byte(0x01).unwrap_err();
    assert_eq!(err, AuthError::ExpectedNullByte);
    assert!(err.to_string().contains("null byte"), "Error should mention null byte: {}", err.to_string());
}

#[test]
fn auth_error_texts() {
    assert_eq!(AuthError::ExpectedBegin.to_string(), "Expected BEGIN after authentication");
    assert!(AuthError::ExpectedBegin.to_string().contains("BEGIN"));
    assert_eq!(AuthError::Timeout.to_string(), "Authentication timed out");
    assert_eq!(
        AuthError::UnsupportedMechanism("PLAIN".to_string()).to_string(),
        "Unsupported authentication mechanism: PLAIN"
    );
    assert_eq!(AuthError::InvalidData("x".to_string()).to_string(), "Invalid auth data: x");
    assert_eq!(
        AuthError::UidMismatch { expected: 1000, actual: 0 }.to_string(),
        "UID mismatch: expected 1000, got 0"
    );
}
