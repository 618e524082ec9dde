use nimble_rs::settings::Settings;
use nimble_rs::text::{parse_u32, path_join, str_order, strip_prefix, u32_to_string};

#[test]
fn parse_decimal() {
    assert_eq!(parse_u32("64"), Some(64));
    assert_eq!(parse_u32("+7"), Some(7));
    assert_eq!(parse_u32("4294967295"), Some(u32::MAX));
    assert_eq!(parse_u32("4294967296"), None);
    assert_eq!(parse_u32(""), None);
    assert_eq!(parse_u32("+"), None);
    assert_eq!(parse_u32("1x"), None);
    assert_eq!(parse_u32("-1"), None);
}

#[test]
fn render_decimal() {
    assert_eq!(u32_to_string(0), "0");
    assert_eq!(u32_to_string(1234), "1234");
    assert_eq!(u32_to_string(u32::MAX), "4294967295");
}

#[test]
fn ordering_and_prefixes() {
    assert!(str_order("a", "b") < 0);
    assert!(str_order("ab", "a") > 0);
    assert_eq!(str_order("same", "same"), 0);
    assert_eq!(strip_prefix("MAX_CONNECTIONS_8", "MAX_CONNECTIONS_"), Some("8"));
    assert_eq!(strip_prefix("SM", "MAX_CONNECTIONS_"), None);
}

#[test]
fn joining_paths() {
    assert_eq!(path_join("/a", "b/c"), "/a/b/c");
    assert_eq!(path_join("/a/", "b"), "/a/b");
    assert_eq!(path_join("", "b"), "b");
    assert_eq!(path_join("/a", "/abs"), "/abs");
}

#[test]
fn settings_read_back_what_was_written() {
    let mut s = Settings::new();
    s.insert("KEY", "1".to_string());
    s.insert("OTHER", "2".to_string());
    s.insert("KEY", "3".to_string());
    assert_eq!(s.len(), 2);
    assert_eq!(s.get("KEY").map(String::as_str), Some("3"));
    assert_eq!(s.get("OTHER").map(String::as_str), Some("2"));
    assert!(s.contains_key("KEY"));
    assert!(!s.contains_key("NONE"));
    assert_eq!(s.get("NONE"), None);
}
