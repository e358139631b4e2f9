//! Expiry of pending calls and portal requests at a given instant.

use std::time::{Duration, Instant};

use kapsule_dbus_mux::portal_request::PortalRequestTracker;
use kapsule_dbus_mux::routing::Route;
use kapsule_dbus_mux::serial_map::SerialMap;

#[test]
fn calls_whose_age_reaches_the_timeout_expire() {
    let base = Instant::now();
    let mut map = SerialMap::with_timeout(Duration::from_secs(30));
    map.insert_at(Route::Host, 1, 1, 11, base);
    map.insert_at(Route::Host, 2, 2, 12, base + Duration::from_secs(10));
    map.insert_at(Route::Container, 3, 3, 13, base + Duration::from_secs(11));
    let removed = map.cleanup_expired_at(base + Duration::from_secs(40));
    assert_eq!(removed, 2);
    assert_eq!(map.len(), 1);
    assert!(map.remove(Route::Host, 1).is_none());
    assert!(map.remove(Route::Host, 2).is_none());
    let kept = map.remove(Route::Container, 3).unwrap();
    assert_eq!(kept.client_id, 3);
    assert_eq!(kept.client_serial, 13);
}

#[test]
fn calls_stamped_after_the_instant_are_kept() {
    let base = Instant::now();
    let mut map = SerialMap::new();
    map.insert_at(Route::Host, 1, 1, 1, base + Duration::from_secs(100));
    assert_eq!(map.cleanup_expired_at(base), 0);
    assert_eq!(map.len(), 1);
}

#[test]
fn default_timeout_is_thirty_seconds() {
    let base = Instant::now();
    let mut map = SerialMap::new();
    map.insert_at(Route::Host, 1, 1, 1, base);
    assert_eq!(map.cleanup_expired_at(base + Duration::from_secs(29)), 0);
    assert_eq!(map.cleanup_expired_at(base + Duration::from_secs(30)), 1);
    assert!(map.is_empty());
}

#[test]
fn portal_requests_expire_after_five_minutes() {
    let base = Instant::now();
    let mut tracker = PortalRequestTracker::new();
    tracker.register_at("/a".to_string(), 1, base);
    tracker.register_at("/b".to_string(), 2, base + Duration::from_secs(1));
    assert_eq!(tracker.cleanup_expired_at(base + Duration::from_secs(299)), 0);
    assert_eq!(tracker.cleanup_expired_at(base + Duration::from_secs(300)), 1);
    assert_eq!(tracker.lookup_and_remove("/a"), None);
    assert_eq!(tracker.lookup_and_remove("/b"), Some(2));
}
