//! Client ids.

use kapsule_dbus_mux::client::{next_client_id, ClientIdGenerator};

#[test]
fn test_client_id_generation() {
    let ids = ClientIdGenerator::new();
    let id1 = next_client_id(&ids);
    let id2 = next_client_id(&ids);
    assert_ne!(id1, id2);
}

#[test]
fn client_ids_count_from_one() {
    let ids = ClientIdGenerator::new();
    assert_eq!(next_client_id(&ids), 1);
    assert_eq!(next_client_id(&ids), 2);
}
