use max::json::JsonValue;
use max::json_text::{config_from_text, config_text};
use max::nested_keys::set_nested;

fn s(x: &str) -> JsonValue {
    JsonValue::Str(x.to_string())
}

fn obj(members: Vec<(&str, JsonValue)>) -> JsonValue {
    JsonValue::Object(members.into_iter().map(|(k, v)| (k.to_string(), v)).collect())
}

#[test]
fn config_from_missing_file_is_empty_object() {
    let (doc, warning) = config_from_text(None);
    assert_eq!(doc, obj(vec![]));
    assert!(warning.is_none());
}

#[test]
fn config_from_valid_text_parses() {
    let (doc, warning) = config_from_text(Some("{\"core\": {\"timeout\": \"2m\", \"retries\": 3}, \"on\": true}".to_string()));
    assert!(warning.is_none());
    assert_eq!(
        doc,
        obj(vec![
            ("core", obj(vec![("retries", JsonValue::Number("3".to_string())), ("timeout", s("2m"))])),
            ("on", JsonValue::Bool(true)),
        ])
    );
    let (doc, _) = config_from_text(Some("42".to_string()));
    assert_eq!(doc, JsonValue::Number("42".to_string()));
}

#[test]
fn config_from_malformed_text_warns() {
    let (doc, warning) = config_from_text(Some("{ not json".to_string()));
    assert_eq!(doc, obj(vec![]));
    assert!(!warning.unwrap().is_empty());
}

#[test]
fn config_text_is_pretty_json() {
    assert_eq!(config_text(&obj(vec![])), "{}");
    assert_eq!(config_text(&obj(vec![("greeting", s("hello"))])), "{\n  \"greeting\": \"hello\"\n}");
    let v = obj(vec![("b", JsonValue::Number("5".to_string())), ("a", JsonValue::Array(vec![JsonValue::Null]))]);
    assert_eq!(config_text(&v), "{\n  \"a\": [\n    null\n  ],\n  \"b\": 5\n}");
}

#[test]
fn config_set_round_trip_through_text() {
    let (mut doc, _) = config_from_text(Some("{}".to_string()));
    set_nested(&mut doc, "core.timeout", s("5m")).unwrap();
    let text = config_text(&doc);
    assert_eq!(text, "{\n  \"core\": {\n    \"timeout\": \"5m\"\n  }\n}");
    let (again, warning) = config_from_text(Some(text));
    assert!(warning.is_none());
    assert_eq!(again, doc);
}

#[test]
fn config_init_keeps_existing_file_unless_forced() {
    assert!(matches!(max::json_text::config_init_text(true, false), Err(max::json_text::ConfigInitError::AlreadyExists)));
    assert_eq!(max::json_text::config_init_text(true, true).unwrap(), "{}");
    assert_eq!(max::json_text::config_init_text(false, false).unwrap(), "{}");
}

#[test]
fn white_space_matches_std() {
    for code in 0u32..0x110000 {
        if let Some(c) = char::from_u32(code) {
            let trimmed = max::text::trim_end(&vec!['x', c]);
            if c.is_whitespace() {
                assert_eq!(trimmed, vec!['x'], "{code:#x}");
            } else {
                assert_eq!(trimmed, vec!['x', c], "{code:#x}");
            }
        }
    }
}
