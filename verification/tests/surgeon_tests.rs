use stark::hospital::surgeon::{
    forward_failure_is_fatal, forwarding_address, heart_fits_skeleton, insert_heart, on_command,
    CommandReceipt, ListenerAction,
};

const SKELETON: &str = "{\"parameters\":{\
    \"FIRELINK_ENDPOINT\":{\"defaultValue\":{\"value\":\"https://old.example\"}},\
    \"API_ENDPOINT\":{\"defaultValue\":{\"value\":\"https://old.example/api\"}},\
    \"OTHER\":{\"defaultValue\":{\"value\":\"keep\"}}}}";

#[test]
fn insert_heart_rewrites_endpoint_values() {
    assert!(heart_fits_skeleton(SKELETON));
    let out = insert_heart("https://new.example".to_string(), SKELETON.to_string());
    let expected = "{\"parameters\":{\
        \"FIRELINK_ENDPOINT\":{\"defaultValue\":{\"value\":\"https://new.example\"}},\
        \"API_ENDPOINT\":{\"defaultValue\":{\"value\":\"https://new.example/api\"}},\
        \"OTHER\":{\"defaultValue\":{\"value\":\"keep\"}}}}";
    assert_eq!(out, expected);
}

#[test]
fn insert_heart_lowercases_the_path() {
    let skeleton = "\"USER_PROFILE_ENDPOINT\":{\"defaultValue\":{\"value\":\"x\"}}";
    assert!(heart_fits_skeleton(skeleton));
    let out = insert_heart("https://h".to_string(), skeleton.to_string());
    assert_eq!(out, "\"USER_PROFILE_ENDPOINT\":{\"defaultValue\":{\"value\":\"https://h/user_profile\"}}");
}

#[test]
fn insert_heart_keeps_text_without_endpoints() {
    let skeleton = "{\"a\":\"b\",\"c\":{\"d\":\"e\"}}";
    let out = insert_heart("https://h".to_string(), skeleton.to_string());
    assert_eq!(out, skeleton);
}

#[test]
fn insert_heart_keeps_empty_text() {
    assert!(heart_fits_skeleton(""));
    assert_eq!(insert_heart("https://h".to_string(), String::new()), "");
}

#[test]
fn insert_heart_later_key_takes_over() {
    // The second key falls inside the first key's six fields: the first
    // key's value field is then kept, the second key's value is written.
    let skeleton = "\"A_ENDPOINT\"1\"B_ENDPOINT\"2\"3\"4\"5\"6\"7\"8\"9";
    assert!(heart_fits_skeleton(skeleton));
    let out = insert_heart("H".to_string(), skeleton.to_string());
    assert_eq!(out, "\"A_ENDPOINT\"1\"B_ENDPOINT\"2\"3\"4\"5\"6\"H/b\"8\"9");
}

#[test]
fn heart_does_not_fit_short_skeleton() {
    assert!(!heart_fits_skeleton("\"X_ENDPOINT\":\"v\""));
    assert!(!heart_fits_skeleton("a\"b\"ENDPOINT\"c\"d\"e\"f\"g"));
    assert!(heart_fits_skeleton("a\"b\"ENDPOINT\"c\"d\"e\"f\"g\"h"));
}

#[test]
fn forwarding_address_is_local() {
    assert_eq!(forwarding_address("8080"), "localhost:8080");
}

#[test]
fn listener_actions() {
    assert!(matches!(on_command(CommandReceipt::Message), ListenerAction::CloseSession));
    assert!(matches!(on_command(CommandReceipt::Closed), ListenerAction::Stop));
    assert!(matches!(on_command(CommandReceipt::Empty), ListenerAction::KeepListening));
    assert!(matches!(on_command(CommandReceipt::Lagged), ListenerAction::KeepListening));
}

#[test]
fn forward_failures() {
    assert!(!forward_failure_is_fatal(true));
    assert!(forward_failure_is_fatal(false));
}

#[test]
fn second_insert_keeps_only_last_address() {
    let once = insert_heart("https://first.example".to_string(), SKELETON.to_string());
    assert!(heart_fits_skeleton(&once));
    let twice = insert_heart("https://second.example".to_string(), once);
    let direct = insert_heart("https://second.example".to_string(), SKELETON.to_string());
    assert_eq!(twice, direct);
    let again = insert_heart("https://second.example".to_string(), direct.clone());
    assert_eq!(again, direct);
}
