//! Reading D-Bus messages.

use kapsule_dbus_mux::error::MessageError;
use kapsule_dbus_mux::message::{check_serial, MessageExt};
use zbus::message::Message;

fn create_test_method_call() -> Message {
    Message::method_call("/org/test/Path", "TestMethod")
        .unwrap()
        .destination("org.test.Destination")
        .unwrap()
        .interface("org.test.Interface")
        .unwrap()
        .build(&("hello", 42i32))
        .unwrap()
}

fn create_test_method_return(request: &Message) -> Message {
    Message::method_return(&request.header())
        .unwrap()
        .build(&("response", 123i32))
        .unwrap()
}

#[test]
fn test_message_ext_serial() {
    let msg = create_test_method_call();
    let serial = msg.serial();
    assert!(serial > 0);  // Valid serial is non-zero
}

#[test]
fn test_message_ext_is_method_call() {
    let msg = create_test_method_call();
    assert!(msg.is_method_call());
    assert!(!msg.is_method_return());
    assert!(!msg.is_error());
    assert!(!msg.is_signal());
}

#[test]
fn test_message_ext_is_method_return() {
    let request = create_test_method_call();
    let reply = create_test_method_return(&request);
    
    assert!(reply.is_method_return());
    assert!(!reply.is_method_call());
    assert!(!reply.is_error());
    assert!(!reply.is_signal());
}

#[test]
fn test_message_ext_reply_serial() {
    let request = create_test_method_call();
    let request_serial = request.serial();
    let reply = create_test_method_return(&request);
    
    // Reply should reference the request's serial
    assert_eq!(reply.reply_serial(), Some(request_serial));
    
    // Request doesn't have a reply serial
    assert_eq!(request.reply_serial(), None);
}

#[test]
fn test_is_dbus_daemon_call() {
    let daemon_call = Message::method_call("/org/freedesktop/DBus", "ListNames")
        .unwrap()
        .destination("org.freedesktop.DBus")
        .unwrap()
        .interface("org.freedesktop.DBus")
        .unwrap()
        .build(&())
        .unwrap();
    
    assert!(daemon_call.is_dbus_daemon_call());
    
    let regular_call = create_test_method_call();
    assert!(!regular_call.is_dbus_daemon_call());
}

#[test]
fn check_serial_refuses_zero_only() {
    assert!(matches!(check_serial(0), Err(MessageError::InvalidSerial)));
    assert!(matches!(check_serial(1), Ok(1)));
    assert!(matches!(check_serial(u32::MAX), Ok(n) if n == u32::MAX));
}
