//! The arguments that match rules read from a message body.

use kapsule_dbus_mux::match_rules::{body_arguments, ArgValue, BodyField, MatchRule};

fn signal_with_body<T: serde::Serialize + zbus::zvariant::Type>(body: &T) -> zbus::message::Message {
    zbus::message::Message::signal("/org/example", "org.example.Iface", "Changed")
        .unwrap()
        .build(body)
        .unwrap()
}

#[test]
fn body_of_one_string_array_gives_its_elements() {
    let fields = vec![BodyField::Array(vec![Some("a".to_string()), Some("b".to_string())])];
    assert_eq!(
        body_arguments(&fields),
        vec![ArgValue::Str("a".to_string()), ArgValue::Str("b".to_string())]
    );
}

#[test]
fn empty_string_array_gives_no_arguments() {
    let fields = vec![BodyField::Array(vec![])];
    assert_eq!(body_arguments(&fields), Vec::<ArgValue>::new());
}

#[test]
fn array_with_a_non_string_is_one_other_argument() {
    let fields = vec![BodyField::Array(vec![Some("a".to_string()), None])];
    assert_eq!(body_arguments(&fields), vec![ArgValue::Other]);
}

#[test]
fn mixed_fields_give_one_argument_each() {
    let fields = vec![
        BodyField::Str("x".to_string()),
        BodyField::Path("/p".to_string()),
        BodyField::Other,
        BodyField::Array(vec![Some("y".to_string())]),
    ];
    assert_eq!(
        body_arguments(&fields),
        vec![
            ArgValue::Str("x".to_string()),
            ArgValue::Path("/p".to_string()),
            ArgValue::Other,
            ArgValue::Other,
        ]
    );
}

#[test]
fn arg_filters_see_the_elements_of_a_string_array_body() {
    let body: Vec<String> = vec!["/aa/bb/cc".to_string(), "x".to_string()];
    let msg = signal_with_body(&body);
    assert!(MatchRule::parse("arg1='x'").unwrap().matches(&msg));
    assert!(!MatchRule::parse("arg1='y'").unwrap().matches(&msg));
    assert!(MatchRule::parse("arg0path='/aa/bb/'").unwrap().matches(&msg));
    assert!(!MatchRule::parse("arg2='x'").unwrap().matches(&msg));
}

#[test]
fn arg_filters_do_not_see_into_a_non_string_array_body() {
    let body: Vec<u32> = vec![1, 2];
    let msg = signal_with_body(&body);
    assert!(!MatchRule::parse("arg0='1'").unwrap().matches(&msg));
}
