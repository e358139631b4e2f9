//! Parsing of match rules and the per-client rule collection.

use kapsule_dbus_mux::match_rules::{ClientMatchRules, MatchRule};

#[test]
fn test_parse_empty_rule() {
    let rule = MatchRule::parse("").unwrap();
    assert!(rule.msg_type.is_none());
    assert!(rule.sender.is_none());
}

#[test]
fn test_parse_type_signal() {
    let rule = MatchRule::parse("type='signal'").unwrap();
    assert_eq!(rule.msg_type, Some("signal".to_string()));
}

#[test]
fn test_parse_multiple_fields() {
    let rule = MatchRule::parse(
        "type='signal',interface='org.freedesktop.DBus',member='NameOwnerChanged'"
    ).unwrap();
    assert_eq!(rule.msg_type, Some("signal".to_string()));
    assert_eq!(rule.interface, Some("org.freedesktop.DBus".to_string()));
    assert_eq!(rule.member, Some("NameOwnerChanged".to_string()));
}

#[test]
fn test_parse_sender_interface() {
    let rule = MatchRule::parse(
        "sender='org.gnome.Shell',interface='org.gnome.Shell.Extensions'"
    ).unwrap();
    assert_eq!(rule.sender, Some("org.gnome.Shell".to_string()));
    assert_eq!(rule.interface, Some("org.gnome.Shell.Extensions".to_string()));
}

#[test]
fn test_parse_path() {
    let rule = MatchRule::parse("path='/org/freedesktop/DBus'").unwrap();
    assert_eq!(rule.path, Some("/org/freedesktop/DBus".to_string()));
}

#[test]
fn test_parse_path_namespace() {
    let rule = MatchRule::parse("path_namespace='/org/freedesktop'").unwrap();
    assert_eq!(rule.path_namespace, Some("/org/freedesktop".to_string()));
}

#[test]
fn test_parse_arg0() {
    let rule = MatchRule::parse("arg0='test.Name'").unwrap();
    assert_eq!(rule.args.get(&0), Some(&"test.Name".to_string()));
}

#[test]
fn test_parse_arg0path() {
    let rule = MatchRule::parse("arg0path='/org/example'").unwrap();
    assert_eq!(rule.arg_paths.get(&0), Some(&"/org/example".to_string()));
}

#[test]
fn test_parse_complex_rule() {
    let rule = MatchRule::parse(
        "type='signal',sender='org.freedesktop.DBus',interface='org.freedesktop.DBus',member='NameOwnerChanged',path='/org/freedesktop/DBus',arg0='com.example.Service'"
    ).unwrap();
    assert_eq!(rule.msg_type, Some("signal".to_string()));
    assert_eq!(rule.sender, Some("org.freedesktop.DBus".to_string()));
    assert_eq!(rule.interface, Some("org.freedesktop.DBus".to_string()));
    assert_eq!(rule.member, Some("NameOwnerChanged".to_string()));
    assert_eq!(rule.path, Some("/org/freedesktop/DBus".to_string()));
    assert_eq!(rule.args.get(&0), Some(&"com.example.Service".to_string()));
}

#[test]
fn test_parse_eavesdrop() {
    let rule = MatchRule::parse("eavesdrop='true'").unwrap();
    assert!(rule.eavesdrop);
    
    let rule = MatchRule::parse("eavesdrop='false'").unwrap();
    assert!(!rule.eavesdrop);
}

#[test]
fn test_parse_invalid_format() {
    // Missing equals
    assert!(MatchRule::parse("type").is_err());
}

#[test]
fn test_parse_unclosed_quote() {
    assert!(MatchRule::parse("type='signal").is_err());
}

#[test]
fn test_parse_high_arg_index() {
    // arg64 is invalid (max is 63)
    assert!(MatchRule::parse("arg64='test'").is_err());
    
    // arg63 is valid
    assert!(MatchRule::parse("arg63='test'").is_ok());
}

#[test]
fn test_client_match_rules_add_remove() {
    let mut rules = ClientMatchRules::new();
    assert!(rules.is_empty());
    
    let rule = MatchRule::parse("type='signal'").unwrap();
    rules.add(rule);
    assert_eq!(rules.len(), 1);
    
    // Adding duplicate should not increase count
    let rule2 = MatchRule::parse("type='signal'").unwrap();
    rules.add(rule2);
    assert_eq!(rules.len(), 1);
    
    // Add different rule
    let rule3 = MatchRule::parse("type='method_call'").unwrap();
    rules.add(rule3);
    assert_eq!(rules.len(), 2);
    
    // Remove
    assert!(rules.remove("type='signal'"));
    assert_eq!(rules.len(), 1);
    
    // Remove non-existent
    assert!(!rules.remove("type='signal'"));
    assert_eq!(rules.len(), 1);
}

#[test]
fn test_parse_with_whitespace() {
    let rule = MatchRule::parse("  type='signal' , interface='org.example'  ").unwrap();
    assert_eq!(rule.msg_type, Some("signal".to_string()));
    assert_eq!(rule.interface, Some("org.example".to_string()));
}

#[test]
fn test_parse_destination() {
    let rule = MatchRule::parse("destination=':1.42'").unwrap();
    assert_eq!(rule.destination, Some(":1.42".to_string()));
}
