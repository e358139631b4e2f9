//! Correlation of forwarded method calls with their replies.

use kapsule_dbus_mux::routing::Route;
use kapsule_dbus_mux::serial_map::{SerialGenerator, SerialKey, SerialMap};

#[test]
fn test_serial_map_insert_remove() {
    let mut map = SerialMap::new();
    
    map.insert(Route::Host, 100, 1, 5);
    
    let call = map.remove(Route::Host, 100);
    assert!(call.is_some());
    let call = call.unwrap();
    assert_eq!(call.client_id, 1);
    assert_eq!(call.client_serial, 5);
    
    // Should be removed now
    assert!(map.remove(Route::Host, 100).is_none());
}

#[test]
fn test_serial_map_different_routes() {
    let mut map = SerialMap::new();
    
    // Same serial on different routes should be tracked separately
    map.insert(Route::Host, 100, 1, 5);
    map.insert(Route::Container, 100, 2, 10);
    
    let host_call = map.remove(Route::Host, 100).unwrap();
    assert_eq!(host_call.client_id, 1);
    
    let container_call = map.remove(Route::Container, 100).unwrap();
    assert_eq!(container_call.client_id, 2);
}

#[test]
fn test_serial_generator() {
    let gen = SerialGenerator::new();
    
    assert_eq!(gen.next(), 1);
    assert_eq!(gen.next(), 2);
    assert_eq!(gen.next(), 3);
}

#[test]
fn test_serial_map_multiple_clients_same_serial() {
    let mut map = SerialMap::new();
    
    // Simulate what happens with proper serial translation:
    // Client 1 sends with client_serial=1, gets forwarded_serial=100
    // Client 2 sends with client_serial=1, gets forwarded_serial=101
    map.insert(Route::Host, 100, 1, 1);  // (route, forwarded, client_id, client_serial)
    map.insert(Route::Host, 101, 2, 1);
    
    // Both should be retrievable without collision
    let call1 = map.remove(Route::Host, 100).unwrap();
    assert_eq!(call1.client_id, 1);
    assert_eq!(call1.client_serial, 1);
    
    let call2 = map.remove(Route::Host, 101).unwrap();
    assert_eq!(call2.client_id, 2);
    assert_eq!(call2.client_serial, 1);
}

#[test]
fn test_serial_map_collision_scenario() {
    // Two clients that both use serial 1 are forwarded under distinct
    // serials, so neither record hides the other.
    let mut map = SerialMap::new();

    map.insert(Route::Host, 1001, 1, 1);  // Client 1's serial 1 -> forwarded 1001
    map.insert(Route::Host, 1002, 2, 1);  // Client 2's serial 1 -> forwarded 1002
    
    assert_eq!(map.len(), 2);  // Both are preserved
}

#[test]
fn test_pending_for_client() {
    let mut map = SerialMap::new();
    
    // Client 1 has 3 pending calls
    map.insert(Route::Host, 100, 1, 1);
    map.insert(Route::Host, 101, 1, 2);
    map.insert(Route::Host, 102, 1, 3);
    
    // Client 2 has 2 pending calls
    map.insert(Route::Host, 200, 2, 1);
    map.insert(Route::Container, 201, 2, 2);
    
    assert_eq!(map.pending_for_client(1), 3);
    assert_eq!(map.pending_for_client(2), 2);
    assert_eq!(map.pending_for_client(999), 0);  // Unknown client
}

#[test]
fn test_serial_key_equality() {
    let key1 = SerialKey::new(Route::Host, 100);
    let key2 = SerialKey::new(Route::Host, 100);
    let key3 = SerialKey::new(Route::Container, 100);
    let key4 = SerialKey::new(Route::Host, 101);
    
    assert_eq!(key1, key2);  // Same route and serial
    assert_ne!(key1, key3);  // Different route
    assert_ne!(key1, key4);  // Different serial
}
