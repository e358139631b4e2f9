//! Name ownership queues.

use kapsule_dbus_mux::name_queue::{release_name_reply, request_name_flags, request_name_reply, NameQueueManager};

#[test]
fn test_first_request_becomes_owner() {
    let mut mgr = NameQueueManager::new();
    let result = mgr.request_name("org.example.Test", 1, ":mux.1", 0);

    assert_eq!(result.reply_code, request_name_reply::PRIMARY_OWNER);
    assert!(result.forward_to_bus);
    assert!(result.replaced_owner.is_none());
}

#[test]
fn test_already_owner() {
    let mut mgr = NameQueueManager::new();
    mgr.request_name("org.example.Test", 1, ":mux.1", 0);

    let result = mgr.request_name("org.example.Test", 1, ":mux.1", 0);
    assert_eq!(result.reply_code, request_name_reply::ALREADY_OWNER);
    assert!(!result.forward_to_bus);
}

#[test]
fn test_queue_without_do_not_queue() {
    let mut mgr = NameQueueManager::new();
    mgr.request_name("org.example.Test", 1, ":mux.1", 0);

    let result = mgr.request_name("org.example.Test", 2, ":mux.2", 0);
    assert_eq!(result.reply_code, request_name_reply::IN_QUEUE);
    assert!(!result.forward_to_bus);
}

#[test]
fn test_do_not_queue_flag() {
    let mut mgr = NameQueueManager::new();
    mgr.request_name("org.example.Test", 1, ":mux.1", 0);

    let result = mgr.request_name(
        "org.example.Test",
        2,
        ":mux.2",
        request_name_flags::DO_NOT_QUEUE,
    );
    assert_eq!(result.reply_code, request_name_reply::EXISTS);
    assert!(!result.forward_to_bus);
}

#[test]
fn test_replacement_with_allow_replacement() {
    let mut mgr = NameQueueManager::new();
    // First owner allows replacement
    mgr.request_name(
        "org.example.Test",
        1,
        ":mux.1",
        request_name_flags::ALLOW_REPLACEMENT,
    );

    // Second client requests with REPLACE_EXISTING
    let result = mgr.request_name(
        "org.example.Test",
        2,
        ":mux.2",
        request_name_flags::REPLACE_EXISTING,
    );

    assert_eq!(result.reply_code, request_name_reply::PRIMARY_OWNER);
    assert!(result.forward_to_bus);
    assert_eq!(result.replaced_owner, Some(":mux.1".to_string()));

    // Old owner should now be in queue
    let owners = mgr.list_queued_owners("org.example.Test");
    assert_eq!(owners, vec![":mux.2", ":mux.1"]);
}

#[test]
fn test_replacement_denied_without_allow() {
    let mut mgr = NameQueueManager::new();
    // First owner does NOT allow replacement
    mgr.request_name("org.example.Test", 1, ":mux.1", 0);

    // Second client tries to replace
    let result = mgr.request_name(
        "org.example.Test",
        2,
        ":mux.2",
        request_name_flags::REPLACE_EXISTING,
    );

    // Should just queue instead of replacing
    assert_eq!(result.reply_code, request_name_reply::IN_QUEUE);
    assert!(!result.forward_to_bus);
    assert!(result.replaced_owner.is_none());
}

#[test]
fn test_release_by_owner_promotes_waiter() {
    let mut mgr = NameQueueManager::new();
    mgr.request_name("org.example.Test", 1, ":mux.1", 0);
    mgr.request_name("org.example.Test", 2, ":mux.2", 0);

    let result = mgr.release_name("org.example.Test", 1);

    assert_eq!(result.reply_code, release_name_reply::RELEASED);
    assert!(!result.forward_to_bus); // New owner takes over, don't forward release
    assert_eq!(result.new_owner, Some((2, ":mux.2".to_string())));

    // Verify new owner is now primary
    let owners = mgr.list_queued_owners("org.example.Test");
    assert_eq!(owners, vec![":mux.2"]);
}

#[test]
fn test_release_last_owner() {
    let mut mgr = NameQueueManager::new();
    mgr.request_name("org.example.Test", 1, ":mux.1", 0);

    let result = mgr.release_name("org.example.Test", 1);

    assert_eq!(result.reply_code, release_name_reply::RELEASED);
    assert!(result.forward_to_bus); // No waiters, forward release to bus
    assert!(result.new_owner.is_none());
}

#[test]
fn test_release_non_owner() {
    let mut mgr = NameQueueManager::new();
    mgr.request_name("org.example.Test", 1, ":mux.1", 0);

    let result = mgr.release_name("org.example.Test", 3);

    assert_eq!(result.reply_code, release_name_reply::NOT_OWNER);
    assert!(!result.forward_to_bus);
}

#[test]
fn test_release_nonexistent() {
    let mut mgr = NameQueueManager::new();

    let result = mgr.release_name("org.example.Unknown", 1);

    assert_eq!(result.reply_code, release_name_reply::NON_EXISTENT);
    assert!(!result.forward_to_bus);
}

#[test]
fn test_release_from_queue() {
    let mut mgr = NameQueueManager::new();
    mgr.request_name("org.example.Test", 1, ":mux.1", 0);
    mgr.request_name("org.example.Test", 2, ":mux.2", 0);
    mgr.request_name("org.example.Test", 3, ":mux.3", 0);

    // Release client 2 who is in queue
    let result = mgr.release_name("org.example.Test", 2);

    assert_eq!(result.reply_code, release_name_reply::RELEASED);
    assert!(!result.forward_to_bus);
    assert!(result.new_owner.is_none());

    // Verify queue state
    let owners = mgr.list_queued_owners("org.example.Test");
    assert_eq!(owners, vec![":mux.1", ":mux.3"]);
}

#[test]
fn test_list_queued_owners() {
    let mut mgr = NameQueueManager::new();
    mgr.request_name("org.example.Test", 1, ":mux.1", 0);
    mgr.request_name("org.example.Test", 2, ":mux.2", 0);
    mgr.request_name("org.example.Test", 3, ":mux.3", 0);

    let owners = mgr.list_queued_owners("org.example.Test");
    assert_eq!(owners, vec![":mux.1", ":mux.2", ":mux.3"]);
}

#[test]
fn test_list_queued_owners_empty() {
    let mgr = NameQueueManager::new();
    let owners = mgr.list_queued_owners("org.example.Unknown");
    assert!(owners.is_empty());
}

#[test]
fn test_remove_client_primary_owner() {
    let mut mgr = NameQueueManager::new();
    mgr.request_name("org.example.Test", 1, ":mux.1", 0);
    mgr.request_name("org.example.Test", 2, ":mux.2", 0);

    let results = mgr.remove_client(1);

    assert_eq!(results.len(), 1);
    assert_eq!(results[0].0, "org.example.Test");
    assert_eq!(results[0].1, Some((2, ":mux.2".to_string())));

    // Verify new owner
    let owners = mgr.list_queued_owners("org.example.Test");
    assert_eq!(owners, vec![":mux.2"]);
}

#[test]
fn test_remove_client_from_queue() {
    let mut mgr = NameQueueManager::new();
    mgr.request_name("org.example.Test", 1, ":mux.1", 0);
    mgr.request_name("org.example.Test", 2, ":mux.2", 0);

    let results = mgr.remove_client(2);

    // No name ownership changed
    assert!(results.is_empty());

    // Verify queue state
    let owners = mgr.list_queued_owners("org.example.Test");
    assert_eq!(owners, vec![":mux.1"]);
}

#[test]
fn test_multiple_names_per_client() {
    let mut mgr = NameQueueManager::new();
    mgr.request_name("org.example.Test1", 1, ":mux.1", 0);
    mgr.request_name("org.example.Test2", 1, ":mux.1", 0);
    mgr.request_name("org.example.Test1", 2, ":mux.2", 0);

    let results = mgr.remove_client(1);

    // Both names affected
    assert_eq!(results.len(), 2);

    // Test1 has a new owner, Test2 has no owner
    let test1_result = results.iter().find(|(n, _)| n == "org.example.Test1");
    let test2_result = results.iter().find(|(n, _)| n == "org.example.Test2");

    assert!(test1_result.is_some());
    assert!(test2_result.is_some());
    assert_eq!(test1_result.unwrap().1, Some((2, ":mux.2".to_string())));
    assert!(test2_result.unwrap().1.is_none());
}
