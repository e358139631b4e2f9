//! Client credentials as the multiplexer records them.

use kapsule_dbus_mux::multiplexer::ClientCredentials;

#[test]
fn test_client_credentials_clone() {
    let creds = ClientCredentials {
        uid: 1000,
        pid: Some(12345),
        gid: 1000,
    };
    let cloned = creds;
    assert_eq!(cloned.uid, 1000);
    assert_eq!(cloned.pid, Some(12345));
    assert_eq!(cloned.gid, 1000);
}

#[test]
fn test_client_credentials_without_pid() {
    let creds = ClientCredentials {
        uid: 1000,
        pid: None,
        gid: 1000,
    };
    assert_eq!(creds.uid, 1000);
    assert!(creds.pid.is_none());
    assert_eq!(creds.gid, 1000);
}

#[test]
fn test_client_credentials_debug() {
    let creds = ClientCredentials {
        uid: 1000,
        pid: Some(12345),
        gid: 1000,
    };
    let debug_str = format!("{:?}", creds);
    assert!(debug_str.contains("uid: 1000"));
    assert!(debug_str.contains("pid: Some(12345)"));
    assert!(debug_str.contains("gid: 1000"));
}
