//! Message framing, serial rewriting, reply correlation and portal helpers.

use std::sync::Arc;
use std::time::{Duration, Instant};

use kapsule_dbus_mux::client::{message_size, mux_unique_name, PendingData};
use kapsule_dbus_mux::error::MessageError;
use kapsule_dbus_mux::match_rules::MessageType;
use kapsule_dbus_mux::message::{
    message_bytes_with_serial, message_fields, parse_name_owner_changed, reply_code, string_arg, string_u32_args,
    with_serial, MessageExt,
};
use kapsule_dbus_mux::portal_request::{
    decode_portal_response, extract_request_handle, first_request_handle, is_portal_request, is_portal_request_method,
    is_portal_response, is_portal_response_signal, PortalRequestTracker,
};
use kapsule_dbus_mux::router::{correlate_reply, RoutedMessage};
use kapsule_dbus_mux::routing::{well_known_names, Route};
use kapsule_dbus_mux::serial_map::SerialMap;
use zbus::message::Message;

fn call(dest: &str, iface: &str, member: &str) -> Message {
    Message::method_call("/org/test", member)
        .unwrap()
        .destination(dest)
        .unwrap()
        .interface(iface)
        .unwrap()
        .build(&("hello", 42u32))
        .unwrap()
}

#[test]
fn unique_names_are_numbered() {
    assert_eq!(mux_unique_name(1), ":mux.1");
    assert_eq!(mux_unique_name(0), ":mux.0");
    assert_eq!(mux_unique_name(1234567890123), ":mux.1234567890123");
    assert_ne!(mux_unique_name(12), mux_unique_name(21));
}

#[test]
fn message_size_from_fixed_header() {
    // little endian: body 8 bytes, header fields 13 bytes (padded to 16)
    let h = [b'l', 1, 0, 1, 8, 0, 0, 0, 1, 0, 0, 0, 13, 0, 0, 0];
    assert_eq!(message_size(&h), 16 + 16 + 8);
    // big endian: body 0x0100 bytes, header fields 8 bytes
    let h = [b'B', 1, 0, 1, 0, 0, 1, 0, 0, 0, 0, 1, 0, 0, 0, 8];
    assert_eq!(message_size(&h), 16 + 8 + 256);
    // the largest lengths do not overflow
    let h = [b'l', 1, 0, 1, 255, 255, 255, 255, 1, 0, 0, 0, 255, 255, 255, 255];
    assert_eq!(message_size(&h), 16 + 4294967296 + 4294967295);
}

#[test]
fn message_size_of_a_real_message() {
    let msg = call("org.test.Dest", "org.test.Iface", "Method");
    let bytes = msg.data().bytes().to_vec();
    assert_eq!(message_size(&bytes[..16]), bytes.len() as u64);
}

#[test]
fn pending_data_is_served_in_order() {
    let mut p = PendingData::new(vec![1, 2, 3, 4, 5]);
    assert_eq!(p.remaining(), 5);
    assert_eq!(p.take(2), vec![1, 2]);
    assert_eq!(p.take(0), Vec::<u8>::new());
    assert_eq!(p.take(10), vec![3, 4, 5]);
    assert_eq!(p.remaining(), 0);
    assert_eq!(p.take(3), Vec::<u8>::new());
}

#[test]
fn serial_is_rewritten_in_byte_order() {
    let mut bytes = vec![b'l'; 16];
    let out = with_serial(bytes.clone(), 0x01020304).unwrap();
    assert_eq!(&out[8..12], &[4, 3, 2, 1]);
    assert_eq!(&out[..8], &bytes[..8]);
    assert_eq!(&out[12..], &bytes[12..]);
    bytes[0] = b'B';
    let out = with_serial(bytes.clone(), 0x01020304).unwrap();
    assert_eq!(&out[8..12], &[1, 2, 3, 4]);
    assert_eq!(with_serial(bytes, 0), Err(MessageError::InvalidSerial));
}

#[test]
fn real_message_serial_is_rewritten() {
    let msg = call("org.test.Dest", "org.test.Iface", "Method");
    let bytes = message_bytes_with_serial(&msg, 9999).unwrap();
    let original = msg.data().bytes().to_vec();
    assert_eq!(bytes.len(), original.len());
    assert_eq!(&bytes[8..12], &9999u32.to_le_bytes());
    assert_ne!(msg.serial(), 9999);
    assert_eq!(message_bytes_with_serial(&msg, 0), Err(MessageError::InvalidSerial));
}

#[test]
fn message_fields_are_read() {
    let msg = call("org.test.Dest", "org.test.Iface", "Method");
    let f = message_fields(&msg);
    assert_eq!(f.msg_type, MessageType::MethodCall);
    assert_eq!(f.destination, Some("org.test.Dest".to_string()));
    assert_eq!(f.interface, Some("org.test.Iface".to_string()));
    assert_eq!(f.member, Some("Method".to_string()));
    assert_eq!(f.path, Some("/org/test".to_string()));
    assert!(!f.is_dbus_daemon_call());
    assert!(!f.is_name_owner_changed());
    assert_eq!(msg.destination_str(), Some("org.test.Dest".to_string()));
    assert_eq!(msg.path_str(), Some("/org/test".to_string()));
    assert_eq!(msg.sender_str(), None);
    let arc = Arc::new(msg);
    assert!(arc.is_method_call());
    assert_eq!(arc.member_str(), Some("Method".to_string()));
}

#[test]
fn bodies_are_read() {
    let noc = Message::signal("/org/freedesktop/DBus", "org.freedesktop.DBus", "NameOwnerChanged")
        .unwrap()
        .build(&("com.example.Service", "", ":1.42"))
        .unwrap();
    assert!(noc.is_name_owner_changed());
    assert_eq!(
        parse_name_owner_changed(&noc).unwrap(),
        ("com.example.Service".to_string(), "".to_string(), ":1.42".to_string())
    );
    let msg = call("org.test.Dest", "org.test.Iface", "Method");
    assert_eq!(string_u32_args(&msg).unwrap(), ("hello".to_string(), 42));
    assert!(matches!(string_arg(&msg), Err(MessageError::DeserializeFailed(_))));
    assert!(matches!(parse_name_owner_changed(&msg), Err(MessageError::DeserializeFailed(_))));
    let one = Message::method_return(&msg.header()).unwrap().build(&(4u32,)).unwrap();
    assert_eq!(reply_code(&one), 4);
    assert_eq!(reply_code(&msg), 0);
    let name = Message::method_call("/", "GetNameOwner").unwrap().build(&("org.x",)).unwrap();
    assert_eq!(string_arg(&name).unwrap(), "org.x");
}

#[test]
fn replies_are_correlated() {
    let mut map = SerialMap::new();
    map.insert(Route::Host, 100, 7, 3);
    assert_eq!(correlate_reply(&mut map, Route::Container, Some(100)), Ok(None));
    assert_eq!(correlate_reply(&mut map, Route::Host, Some(100)), Ok(Some((7, 3))));
    assert_eq!(correlate_reply(&mut map, Route::Host, Some(100)), Ok(None));
    assert_eq!(correlate_reply(&mut map, Route::Host, None), Err(MessageError::NoReplySerial));
    assert!(map.is_empty());
}

#[test]
fn routed_message_keeps_its_parts() {
    let msg = Arc::new(call("a.b", "a.b", "M"));
    let r = RoutedMessage::new(msg.clone(), Route::Container, 5, 17);
    assert_eq!(r.route, Route::Container);
    assert_eq!(r.client_id, 5);
    assert_eq!(r.client_serial, 17);
    assert_eq!(r.message.serial(), msg.serial());
}

#[test]
fn well_known_names_drop_unique_ones() {
    let names = vec![":1.1".to_string(), "org.a".to_string(), ":1.2".to_string(), "org.b".to_string()];
    assert_eq!(well_known_names(names), vec!["org.a".to_string(), "org.b".to_string()]);
}

#[test]
fn portal_calls_are_recognised() {
    let f = Some("org.freedesktop.portal.ScreenCast".to_string());
    assert!(is_portal_request(MessageType::MethodCall, &f));
    assert!(!is_portal_request(MessageType::Signal, &f));
    assert!(!is_portal_request(MessageType::MethodCall, &Some("org.freedesktop.portal.Settings".to_string())));
    assert!(!is_portal_request(MessageType::MethodCall, &Some("org.freedesktop.Notifications".to_string())));
    assert!(!is_portal_request(MessageType::MethodCall, &None));
    let m = call("org.freedesktop.portal.Desktop", "org.freedesktop.portal.FileChooser", "OpenFile");
    assert!(is_portal_request_method(&m));
    assert!(!is_portal_response_signal(&m));
    assert!(is_portal_response(
        MessageType::Signal,
        &Some("org.freedesktop.portal.Request".to_string()),
        &Some("Response".to_string())
    ));
    let resp = Message::signal("/org/freedesktop/portal/desktop/request/1_1/t", "org.freedesktop.portal.Request", "Response")
        .unwrap()
        .build(&(0u32, std::collections::HashMap::<String, zbus::zvariant::Value>::new()))
        .unwrap();
    assert!(is_portal_response_signal(&resp));
    assert_eq!(decode_portal_response(&resp), Some(0));
    assert_eq!(decode_portal_response(&m), None);
}

#[test]
fn request_handles_are_extracted() {
    let p = "/org/freedesktop/portal/desktop/request/1_156/token".to_string();
    assert_eq!(first_request_handle(Some(p.clone()), None), Some(p.clone()));
    assert_eq!(first_request_handle(Some("/other".to_string()), Some(p.clone())), Some(p.clone()));
    assert_eq!(first_request_handle(Some("/other".to_string()), None), None);
    let req = call("org.freedesktop.portal.Desktop", "org.freedesktop.portal.FileChooser", "OpenFile");
    let path = zbus::zvariant::ObjectPath::try_from(p.as_str()).unwrap();
    let reply = Message::method_return(&req.header()).unwrap().build(&(path,)).unwrap();
    assert_eq!(extract_request_handle(&reply), Some(p));
    assert_eq!(extract_request_handle(&req), None);
}

#[test]
fn expired_requests_and_calls_are_cleaned() {
    let mut map = SerialMap::with_timeout(Duration::from_secs(30));
    let now = Instant::now();
    map.insert_at(Route::Host, 1, 1, 1, now - Duration::from_secs(60));
    map.insert_at(Route::Host, 2, 2, 2, now);
    assert_eq!(map.cleanup_expired(), 1);
    assert_eq!(map.len(), 1);
    assert_eq!(map.remove(Route::Host, 2).map(|c| c.client_id), Some(2));

    let mut tracker = PortalRequestTracker::new();
    tracker.register_at("/old".to_string(), 1, now - Duration::from_secs(600));
    tracker.register("/new".to_string(), 2);
    assert_eq!(tracker.cleanup_expired(), 1);
    assert_eq!(tracker.lookup_and_remove("/old"), None);
    assert_eq!(tracker.lookup_and_remove("/new"), Some(2));
}
