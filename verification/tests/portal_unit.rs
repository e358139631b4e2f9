//! Tracking of portal requests.

use kapsule_dbus_mux::portal_request::PortalRequestTracker;

#[test]
fn test_tracker_basic() {
    let mut tracker = PortalRequestTracker::new();
    
    let path = "/org/freedesktop/portal/desktop/request/1_156/token123".to_string();
    tracker.register(path.clone(), 42);
    
    assert_eq!(tracker.lookup_and_remove(&path), Some(42));
    assert_eq!(tracker.lookup_and_remove(&path), None); // Already removed
}

#[test]
fn test_tracker_remove_client() {
    let mut tracker = PortalRequestTracker::new();
    
    tracker.register("/path/1".to_string(), 1);
    tracker.register("/path/2".to_string(), 1);
    tracker.register("/path/3".to_string(), 2);
    
    let removed = tracker.remove_client(1);
    assert_eq!(removed, 2);
    
    assert_eq!(tracker.lookup_and_remove("/path/1"), None);
    assert_eq!(tracker.lookup_and_remove("/path/2"), None);
    assert_eq!(tracker.lookup_and_remove("/path/3"), Some(2));
}
