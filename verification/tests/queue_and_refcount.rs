//! Name queues and rule reference counts on concrete values.

use kapsule_dbus_mux::match_rules::{MatchRule, MatchRuleRefCount};
use kapsule_dbus_mux::name_queue::{release_name_reply, request_name_flags, request_name_reply, NameQueueManager};
use kapsule_dbus_mux::routing::{Route, RoutingTable};

#[test]
fn waiters_are_promoted_first_come_first_served() {
    let mut m = NameQueueManager::new();
    m.request_name("org.q", 1, ":mux.1", 0);
    m.request_name("org.q", 2, ":mux.2", 0);
    m.request_name("org.q", 3, ":mux.3", 0);
    let r = m.release_name("org.q", 1);
    assert_eq!(r.reply_code, release_name_reply::RELEASED);
    assert_eq!(r.new_owner, Some((2, ":mux.2".to_string())));
    assert!(!r.forward_to_bus);
    assert_eq!(m.list_queued_owners("org.q"), vec![":mux.2".to_string(), ":mux.3".to_string()]);
    let r = m.release_name("org.q", 2);
    assert_eq!(r.new_owner, Some((3, ":mux.3".to_string())));
    let r = m.release_name("org.q", 3);
    assert!(r.forward_to_bus);
    assert_eq!(r.new_owner, None);
    assert!(!m.name_has_owner("org.q"));
}

#[test]
fn request_then_release_restores_the_queue() {
    let mut m = NameQueueManager::new();
    m.request_name("org.q", 1, ":mux.1", 0);
    let before = m.list_queued_owners("org.q");
    let r = m.request_name("org.q", 5, ":mux.5", 0);
    assert_eq!(r.reply_code, request_name_reply::IN_QUEUE);
    let r = m.release_name("org.q", 5);
    assert_eq!(r.reply_code, release_name_reply::RELEASED);
    assert_eq!(m.list_queued_owners("org.q"), before);

    let r = m.request_name("org.free", 5, ":mux.5", 0);
    assert_eq!(r.reply_code, request_name_reply::PRIMARY_OWNER);
    m.release_name("org.free", 5);
    assert!(!m.name_has_owner("org.free"));
}

#[test]
fn replacement_puts_old_owner_first_in_line() {
    let mut m = NameQueueManager::new();
    m.request_name("org.q", 1, ":mux.1", request_name_flags::ALLOW_REPLACEMENT);
    m.request_name("org.q", 2, ":mux.2", 0);
    let r = m.request_name("org.q", 3, ":mux.3", request_name_flags::REPLACE_EXISTING);
    assert_eq!(r.reply_code, request_name_reply::PRIMARY_OWNER);
    assert_eq!(r.replaced_owner, Some(":mux.1".to_string()));
    assert_eq!(
        m.list_queued_owners("org.q"),
        vec![":mux.3".to_string(), ":mux.1".to_string(), ":mux.2".to_string()]
    );
    assert_eq!(m.get_primary_owner("org.q"), Some((3, ":mux.3")));
}

#[test]
fn removed_client_leaves_every_queue() {
    let mut m = NameQueueManager::new();
    m.request_name("org.a", 1, ":mux.1", 0);
    m.request_name("org.a", 2, ":mux.2", 0);
    m.request_name("org.b", 2, ":mux.2", 0);
    m.request_name("org.b", 1, ":mux.1", 0);
    m.request_name("org.c", 1, ":mux.1", 0);
    let mut results = m.remove_client(1);
    results.sort();
    assert_eq!(
        results,
        vec![("org.a".to_string(), Some((2, ":mux.2".to_string()))), ("org.c".to_string(), None)]
    );
    assert_eq!(m.list_queued_owners("org.a"), vec![":mux.2".to_string()]);
    assert_eq!(m.list_queued_owners("org.b"), vec![":mux.2".to_string()]);
    assert!(!m.name_has_owner("org.c"));
}

#[test]
fn refcount_add_then_drop_restores_counts() {
    let mut rc = MatchRuleRefCount::new();
    assert!(rc.increment("session", "type='signal'"));
    assert!(!rc.increment("session", "type='signal'"));
    assert!(rc.increment("system", "type='signal'"));
    assert!(!rc.decrement("session", "type='signal'"));
    assert_eq!(rc.rules_for_bus("session"), vec!["type='signal'".to_string()]);
    assert!(rc.decrement("session", "type='signal'"));
    assert!(rc.rules_for_bus("session").is_empty());
    assert_eq!(rc.rules_for_bus("system"), vec!["type='signal'".to_string()]);
    assert!(!rc.decrement("session", "type='signal'"));
}

#[test]
fn match_rule_error_text() {
    assert_eq!(MatchRule::parse("type").unwrap_err().to_string(), "Invalid match rule format: Missing '=' in: type");
    assert_eq!(MatchRule::parse("type='signal").unwrap_err().to_string(), "Invalid match rule format: Unclosed quote");
    assert_eq!(MatchRule::parse("arg64='x'").unwrap_err().to_string(), "Invalid argument index: arg64");
}

#[test]
fn container_names_win_and_unique_names_follow_their_bus() {
    let mut t = RoutingTable::new();
    t.on_host_name_change("org.x", "", ":1.9");
    assert_eq!(t.route_for("org.x"), Route::Host);
    t.on_container_name_change("org.x", "", ":1.3");
    assert_eq!(t.route_for("org.x"), Route::Container);
    assert_eq!(t.route_for(":1.3"), Route::Container);
    assert_eq!(t.route_for(":1.9"), Route::Host);
    assert_eq!(t.route_for(":1.404"), Route::Host);
    t.on_container_name_change("org.x", ":1.3", "");
    assert_eq!(t.route_for("org.x"), Route::Host);
    assert!(t.name_has_owner("org.x"));
    assert_eq!(t.get_name_owner_route("org.x"), Some(Route::Host));
    let mut all = t.all_names();
    all.sort();
    assert_eq!(all, vec!["org.x".to_string()]);
    t.set_container_names(vec!["org.c".to_string(), "org.c".to_string()]);
    t.set_host_names(vec!["org.h".to_string(), "org.c".to_string()]);
    t.set_host_activatable(vec!["org.act".to_string()]);
    let mut all = t.all_names();
    all.sort();
    assert_eq!(all, vec!["org.c".to_string(), "org.h".to_string()]);
    assert!(t.is_container_name("org.c"));
    assert!(t.is_host_name("org.h"));
    assert_eq!(t.route_for("org.act"), Route::Host);
}

#[test]
fn route_names() {
    assert_eq!(Route::Container.to_string(), "Container");
    assert_eq!(Route::Host.to_string(), "Host");
}
