use max::json::JsonValue;
use max::template::cli::GreetArgs;
use max::template::config::{
    apply_env_overrides, apply_overrides, default_core_retries, default_core_timeout, env_string_to_value,
    leaf_keys_recursive, set_json_path, Config, CoreConfig, EnvVar,
};
use max::template::startup::{app_name_from_stem, config_env_key, override_env_key, resolve_app_config_path};
use std::path::PathBuf;
use max::template::greet::greet_message;

fn s(x: &str) -> JsonValue {
    JsonValue::Str(x.to_string())
}

fn obj(members: Vec<(&str, JsonValue)>) -> JsonValue {
    JsonValue::Object(members.into_iter().map(|(k, v)| (k.to_string(), v)).collect())
}

/// The text of the finite floating-point number that `val` reads as, if any.
fn float_text(val: &str) -> Option<String> {
    match val.parse::<f64>() {
        Ok(f) if f.is_finite() => Some(f.to_string()),
        _ => None,
    }
}

#[test]
fn env_string_to_value_parses_booleans() {
    assert_eq!(env_string_to_value("true", float_text("true")), JsonValue::Bool(true));
    assert_eq!(env_string_to_value("yes", float_text("yes")), JsonValue::Bool(true));
    assert_eq!(env_string_to_value("1", float_text("1")), JsonValue::Bool(true));
    assert_eq!(env_string_to_value("false", float_text("false")), JsonValue::Bool(false));
    assert_eq!(env_string_to_value("0", float_text("0")), JsonValue::Bool(false));
}

#[test]
fn env_string_to_value_parses_numbers() {
    assert_eq!(env_string_to_value("42", float_text("42")), JsonValue::Number("42".to_string()));
    assert_eq!(env_string_to_value("3.14", float_text("3.14")), JsonValue::Number("3.14".to_string()));
}

#[test]
fn env_string_to_value_falls_back_to_string() {
    assert_eq!(env_string_to_value("hello", float_text("hello")), s("hello"));
    assert_eq!(env_string_to_value("2m", float_text("2m")), s("2m"));
}

#[test]
fn env_string_to_value_integer_forms() {
    assert_eq!(env_string_to_value("+7", None), JsonValue::Number("7".to_string()));
    assert_eq!(env_string_to_value("-007", None), JsonValue::Number("-7".to_string()));
    assert_eq!(env_string_to_value("no", None), JsonValue::Bool(false));
    assert_eq!(env_string_to_value("99999999999999999999", None), s("99999999999999999999"));
    assert_eq!(env_string_to_value("-", None), s("-"));
}

#[test]
fn set_json_path_creates_nested_objects() {
    let mut v = obj(vec![]);
    set_json_path(&mut v, "core-timeout", s("5m"));
    assert_eq!(v, obj(vec![("core", obj(vec![("timeout", s("5m"))]))]));
}

#[test]
fn set_json_path_overwrites_existing() {
    let mut v = obj(vec![("core", obj(vec![("timeout", s("2m"))]))]);
    set_json_path(&mut v, "core-timeout", s("5m"));
    assert_eq!(v, obj(vec![("core", obj(vec![("timeout", s("5m"))]))]));
}

#[test]
fn set_json_path_prefers_whole_key_and_skips_scalars() {
    let mut v = obj(vec![("admin-token", s("x"))]);
    set_json_path(&mut v, "admin-token", s("y"));
    assert_eq!(v, obj(vec![("admin-token", s("y"))]));

    let mut v = obj(vec![("core", s("flat"))]);
    set_json_path(&mut v, "core-timeout", s("5m"));
    assert_eq!(v, obj(vec![("core", s("flat"))]));

    let mut v = s("scalar");
    set_json_path(&mut v, "a", s("b"));
    assert_eq!(v, s("scalar"));
}

#[test]
fn core_defaults() {
    assert_eq!(default_core_timeout(), "2m");
    assert_eq!(default_core_retries(), 3);
    let c = CoreConfig::default();
    assert_eq!(c.timeout, "2m");
    assert_eq!(c.retries, 3);
    let cfg = Config::default();
    assert!(cfg.admin_token.is_none() && !cfg.debug && !cfg.dry_run);
}

#[test]
fn greet_lines() {
    let mut cfg = Config::default();
    let args = GreetArgs { admin_token: None, name: None };
    assert_eq!(greet_message(&args, &cfg), "Hello, World!");
    let args = GreetArgs { admin_token: None, name: Some("Alice".to_string()) };
    assert_eq!(greet_message(&args, &cfg), "Hello, Alice!");
    cfg.debug = true;
    assert_eq!(greet_message(&args, &cfg), "[debug] Hello, Alice!");
    cfg.dry_run = true;
    assert_eq!(greet_message(&args, &cfg), "[dry-run] Would greet: Alice");
    cfg.admin_token = Some("tok".to_string());
    let args = GreetArgs { admin_token: None, name: None };
    assert_eq!(greet_message(&args, &cfg), "[dry-run] Would greet: tok");
}

#[test]
fn apply_config_defaults_fills_missing_token() {
    let mut cfg = Config::default();
    cfg.admin_token = Some("tok".to_string());
    let mut args = GreetArgs { admin_token: None, name: Some("n".to_string()) };
    args.apply_config_defaults(&cfg);
    assert_eq!(args.admin_token.as_deref(), Some("tok"));
    assert_eq!(args.name.as_deref(), Some("n"));
    let mut args = GreetArgs { admin_token: Some("mine".to_string()), name: None };
    args.apply_config_defaults(&cfg);
    assert_eq!(args.admin_token.as_deref(), Some("mine"));
}

fn n(x: &str) -> JsonValue {
    JsonValue::Number(x.to_string())
}

#[test]
fn leaf_keys_collects_nested_paths() {
    let v = obj(vec![("admin-token", s("x")), ("core", obj(vec![("timeout", s("2m")), ("retries", n("3"))]))]);
    let mut keys: Vec<String> = Vec::new();
    leaf_keys_recursive(&v, "", &mut keys);
    assert!(keys.contains(&"admin-token".to_string()));
    assert!(keys.contains(&"core-timeout".to_string()));
    assert!(keys.contains(&"core-retries".to_string()));
}

#[test]
fn leaf_keys_are_sorted_and_distinct() {
    let v = obj(vec![
        ("z", s("1")),
        ("core", obj(vec![("timeout", s("2m")), ("retries", n("3")), ("empty", obj(vec![]))])),
        ("a", s("old")),
        ("a", obj(vec![("b", s("new"))])),
    ]);
    let mut keys: Vec<String> = vec!["core-retries".to_string()];
    leaf_keys_recursive(&v, "", &mut keys);
    assert_eq!(keys, vec!["a-b", "core-retries", "core-timeout", "z"]);
    let mut keys: Vec<String> = Vec::new();
    leaf_keys_recursive(&s("scalar"), "p", &mut keys);
    assert!(keys.is_empty());
    leaf_keys_recursive(&obj(vec![("k", s("v"))]), "p", &mut keys);
    assert_eq!(keys, vec!["p-k"]);
}

#[test]
fn apply_overrides_sets_each_key() {
    let mut v = obj(vec![("core", obj(vec![("timeout", s("2m"))])), ("debug", JsonValue::Bool(false))]);
    apply_overrides(
        &mut v,
        vec![
            ("core-timeout".to_string(), env_string_to_value("9m", float_text("9m"))),
            ("debug".to_string(), env_string_to_value("yes", float_text("yes"))),
        ],
    );
    assert_eq!(v, obj(vec![("core", obj(vec![("timeout", s("9m"))])), ("debug", JsonValue::Bool(true))]));
}

#[test]
fn app_names() {
    assert_eq!(app_name_from_stem(Some("mycli".to_string())), "mycli");
    assert_eq!(app_name_from_stem(None), "{{project_name}}");
    assert_eq!(app_name_from_stem(Some("main".to_string())), "{{project_name}}");
    assert_eq!(app_name_from_stem(Some("app".to_string())), "{{project_name}}");
    assert_eq!(app_name_from_stem(Some("go-build123".to_string())), "{{project_name}}");
    assert_eq!(app_name_from_stem(Some("x.test".to_string())), "{{project_name}}");
    assert_eq!(app_name_from_stem(Some("apps".to_string())), "apps");
}

#[test]
fn env_keys() {
    assert_eq!(config_env_key("mycli"), "MYCLI_CONFIG_FILE");
    assert_eq!(override_env_key("mycli", "core-timeout"), "MYCLI_CORE_TIMEOUT");
    assert_eq!(override_env_key("my-cli", "admin-token"), "MY-CLI_ADMIN_TOKEN");
}

#[test]
fn app_config_paths() {
    let dir = Some(PathBuf::from("/home/u/.config"));
    assert_eq!(resolve_app_config_path("mycli", Some("/x.json".to_string()), true, dir.clone()), PathBuf::from("/x.json"));
    assert_eq!(resolve_app_config_path("mycli", Some(String::new()), true, dir.clone()), PathBuf::from("mycli.json"));
    assert_eq!(resolve_app_config_path("mycli", None, false, dir), PathBuf::from("/home/u/.config/mycli/mycli.json"));
    assert_eq!(resolve_app_config_path("mycli", None, false, None), PathBuf::from("mycli.json"));
}

#[test]
fn apply_env_overrides_sets_matching_env() {
    let env = vec![EnvVar { name: "MYCLI_CORE_TIMEOUT".to_string(), value: "9m".to_string(), float_number: float_text("9m") }];
    let cfg = Config::default();
    let mut doc = obj(vec![
        ("admin-token", JsonValue::Null),
        ("core", obj(vec![("timeout", s(&cfg.core.timeout)), ("retries", n("3"))])),
        ("debug", JsonValue::Bool(false)),
        ("dry-run", JsonValue::Bool(false)),
    ]);
    apply_env_overrides("mycli", &mut doc, &env);
    match &doc {
        JsonValue::Object(members) => {
            let core = members.iter().find(|(k, _)| k == "core").map(|(_, v)| v).unwrap();
            assert_eq!(*core, obj(vec![("timeout", s("9m")), ("retries", n("3"))]));
        }
        _ => panic!("expected an object"),
    }
}

#[test]
fn apply_env_overrides_converts_and_ignores_others() {
    let var = |name: &str, value: &str| EnvVar { name: name.to_string(), value: value.to_string(), float_number: float_text(value) };
    let env = vec![
        var("MYCLI_DEBUG", "yes"),
        var("MYCLI_CORE_RETRIES", "5"),
        var("OTHER_DEBUG", "no"),
        var("MYCLI_UNKNOWN", "x"),
        var("MYCLI_CORE_RETRIES", "7"),
    ];
    let mut doc = obj(vec![("core", obj(vec![("retries", n("3"))])), ("debug", JsonValue::Bool(false))]);
    apply_env_overrides("mycli", &mut doc, &env);
    assert_eq!(doc, obj(vec![("core", obj(vec![("retries", n("7"))])), ("debug", JsonValue::Bool(true))]));
    let before = obj(vec![("debug", JsonValue::Bool(false))]);
    let mut doc = obj(vec![("debug", JsonValue::Bool(false))]);
    apply_env_overrides("mycli", &mut doc, &Vec::new());
    assert_eq!(doc, before);
}

#[test]
fn env_string_to_value_integer_limits() {
    assert_eq!(env_string_to_value("9223372036854775807", None), n("9223372036854775807"));
    assert_eq!(env_string_to_value("-9223372036854775808", None), n("-9223372036854775808"));
    assert_eq!(env_string_to_value("9223372036854775808", None), s("9223372036854775808"));
    assert_eq!(env_string_to_value("-9223372036854775809", None), s("-9223372036854775809"));
    assert_eq!(env_string_to_value("+", None), s("+"));
    assert_eq!(env_string_to_value("", None), s(""));
    assert_eq!(env_string_to_value("12a", None), s("12a"));
    assert_eq!(env_string_to_value("100", None), n("100"));
}

#[test]
fn choose_config_keeps_old_when_unreadable() {
    let old = Config::default();
    let mut new = Config::default();
    new.debug = true;
    assert!(max::template::config::choose_config(old, Some(new)).debug);
    let old = Config { admin_token: Some("t".to_string()), core: CoreConfig::default(), debug: false, dry_run: true };
    let kept = max::template::config::choose_config(old, None);
    assert_eq!(kept.admin_token, Some("t".to_string()));
    assert!(kept.dry_run);
}
