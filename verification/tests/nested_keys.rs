use max::json::JsonValue;
use max::nested_keys::{set_nested, unset_nested, SetErrorKind};

fn s(x: &str) -> JsonValue {
    JsonValue::Str(x.to_string())
}

fn n(x: &str) -> JsonValue {
    JsonValue::Number(x.to_string())
}

fn obj(members: Vec<(&str, JsonValue)>) -> JsonValue {
    JsonValue::Object(members.into_iter().map(|(k, v)| (k.to_string(), v)).collect())
}

#[test]
fn set_flat_key() {
    let mut v = obj(vec![]);
    set_nested(&mut v, "greeting", s("hello")).unwrap();
    assert_eq!(v, obj(vec![("greeting", s("hello"))]));
}

#[test]
fn set_nested_creates_intermediates() {
    let mut v = obj(vec![]);
    set_nested(&mut v, "core.timeout", s("5m")).unwrap();
    assert_eq!(v, obj(vec![("core", obj(vec![("timeout", s("5m"))]))]));
}

#[test]
fn set_overwrites_existing() {
    let mut v = obj(vec![("core", obj(vec![("timeout", s("2m"))]))]);
    set_nested(&mut v, "core.timeout", s("5m")).unwrap();
    assert_eq!(v, obj(vec![("core", obj(vec![("timeout", s("5m"))]))]));
}

#[test]
fn set_on_scalar_root_errors() {
    let mut v = n("42");
    assert!(set_nested(&mut v, "key", s("x")).is_err());
}

#[test]
fn set_nested_on_scalar_in_path_errors() {
    let mut v = obj(vec![("core", n("7"))]);
    assert!(set_nested(&mut v, "core.timeout", s("5m")).is_err());
}

#[test]
fn unset_removes_leaf_keeps_siblings() {
    let mut v = obj(vec![("a", obj(vec![("b", n("1")), ("keep", n("2"))]))]);
    unset_nested(&mut v, "a.b").unwrap();
    assert_eq!(v, obj(vec![("a", obj(vec![("keep", n("2"))]))]));
}

#[test]
fn unset_prunes_empty_parents() {
    let mut v = obj(vec![("a", obj(vec![("b", n("1"))]))]);
    unset_nested(&mut v, "a.b").unwrap();
    assert_eq!(v, obj(vec![]));
}

#[test]
fn unset_missing_key_noop() {
    let mut v = obj(vec![("a", n("1"))]);
    unset_nested(&mut v, "nope").unwrap();
    assert_eq!(v, obj(vec![("a", n("1"))]));
}

#[test]
fn unset_on_scalar_root_noop() {
    let mut v = n("42");
    unset_nested(&mut v, "a").unwrap();
    assert_eq!(v, n("42"));
}

#[test]
fn set_errors_name_the_remaining_key() {
    let mut v = obj(vec![("core", n("7"))]);
    let e = set_nested(&mut v, "core.timeout", s("5m")).unwrap_err();
    assert_eq!(e.kind, SetErrorKind::RootNotObject);
    assert_eq!(e.key, "timeout");
    assert_eq!(v, obj(vec![("core", n("7"))]));

    let mut v = obj(vec![("core", n("7"))]);
    let e = set_nested(&mut v, "core.x.y", s("5m")).unwrap_err();
    assert_eq!(e.kind, SetErrorKind::ExpectedObject);
    assert_eq!(e.key, "x.y");

    let mut v = s("text");
    let e = set_nested(&mut v, "a.b", s("5m")).unwrap_err();
    assert_eq!(e.kind, SetErrorKind::ExpectedObject);
    assert_eq!(e.key, "a.b");
}

#[test]
fn set_keeps_sibling_members() {
    let mut v = obj(vec![("a", n("1")), ("core", obj(vec![("retries", n("3"))]))]);
    set_nested(&mut v, "core.timeout", s("5m")).unwrap();
    assert_eq!(
        v,
        obj(vec![("a", n("1")), ("core", obj(vec![("retries", n("3")), ("timeout", s("5m"))]))])
    );
}

#[test]
fn set_then_unset_restores_document() {
    let before = obj(vec![("a", n("1"))]);
    let mut v = obj(vec![("a", n("1"))]);
    set_nested(&mut v, "x.y.z", s("deep")).unwrap();
    assert_eq!(v, obj(vec![("a", n("1")), ("x", obj(vec![("y", obj(vec![("z", s("deep"))]))]))]));
    unset_nested(&mut v, "x.y.z").unwrap();
    assert_eq!(v, before);
}

#[test]
fn set_twice_is_set_once() {
    let mut v = obj(vec![]);
    set_nested(&mut v, "core.timeout", s("5m")).unwrap();
    set_nested(&mut v, "core.timeout", s("5m")).unwrap();
    assert_eq!(v, obj(vec![("core", obj(vec![("timeout", s("5m"))]))]));
}

#[test]
fn unset_twice_is_unset_once() {
    let mut v = obj(vec![("a", obj(vec![("b", n("1")), ("c", n("2"))]))]);
    unset_nested(&mut v, "a.b").unwrap();
    unset_nested(&mut v, "a.b").unwrap();
    assert_eq!(v, obj(vec![("a", obj(vec![("c", n("2"))]))]));
}

#[test]
fn duplicate_members_last_one_counts() {
    let mut v = obj(vec![("a", n("1")), ("a", n("2"))]);
    set_nested(&mut v, "a", n("3")).unwrap();
    assert_eq!(v, obj(vec![("a", n("1")), ("a", n("3"))]));
    unset_nested(&mut v, "a").unwrap();
    assert_eq!(v, obj(vec![]));
}

#[test]
fn unset_prunes_existing_empty_object_on_path() {
    let mut v = obj(vec![("a", obj(vec![])), ("b", n("1"))]);
    unset_nested(&mut v, "a.x").unwrap();
    assert_eq!(v, obj(vec![("b", n("1"))]));
}
