//! Routing decisions between the container bus and the host bus.

use kapsule_dbus_mux::routing::{Route, RoutingTable};

#[test]
fn test_container_priority() {
    let mut table = RoutingTable::new();
    
    // Add name to both buses
    table.on_host_name_change("org.example.Service", "", ":1.100");
    table.on_container_name_change("org.example.Service", "", ":1.50");
    
    // Container should take priority
    assert_eq!(table.route_for("org.example.Service"), Route::Container);
}

#[test]
fn test_host_fallback() {
    let mut table = RoutingTable::new();
    
    // Add name only to host
    table.on_host_name_change("org.example.HostOnly", "", ":1.100");
    
    assert_eq!(table.route_for("org.example.HostOnly"), Route::Host);
}

#[test]
fn test_unknown_defaults_to_host() {
    let table = RoutingTable::new();
    
    // Unknown names should route to host (for activation)
    assert_eq!(table.route_for("org.example.Unknown"), Route::Host);
}

#[test]
fn test_unique_name_routing() {
    let mut table = RoutingTable::new();
    
    table.register_unique_name(":1.50".to_string(), Route::Container);
    table.register_unique_name(":1.100".to_string(), Route::Host);
    
    assert_eq!(table.route_for(":1.50"), Route::Container);
    assert_eq!(table.route_for(":1.100"), Route::Host);
}

#[test]
fn test_name_release() {
    let mut table = RoutingTable::new();
    
    table.on_container_name_change("org.example.Service", "", ":1.50");
    assert_eq!(table.route_for("org.example.Service"), Route::Container);
    
    table.on_container_name_change("org.example.Service", ":1.50", "");
    // After release, unknown names go to host
    assert_eq!(table.route_for("org.example.Service"), Route::Host);
}
