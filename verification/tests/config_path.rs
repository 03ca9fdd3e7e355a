use max::config::resolve_config_path;
use std::path::PathBuf;

#[test]
fn env_override_wins() {
    let p = resolve_config_path(
        Some("/tmp/custom.json".to_string()),
        true,
        Some(PathBuf::from("/home/u/.config")),
    );
    assert_eq!(p, PathBuf::from("/tmp/custom.json"));
}

#[test]
fn empty_env_override_ignored() {
    let p = resolve_config_path(Some(String::new()), false, None);
    assert_eq!(p, PathBuf::from("max.json"));
}

#[test]
fn local_wins_over_xdg() {
    let p = resolve_config_path(None, true, Some(PathBuf::from("/home/u/.config")));
    assert_eq!(p, PathBuf::from("max.json"));
}

#[test]
fn xdg_fallback() {
    let p = resolve_config_path(None, false, Some(PathBuf::from("/home/u/.config")));
    assert_eq!(p, PathBuf::from("/home/u/.config/max/max.json"));
}

#[test]
fn final_fallback() {
    let p = resolve_config_path(None, false, None);
    assert_eq!(p, PathBuf::from("max.json"));
}

#[test]
fn empty_override_falls_back_to_local_file() {
    let p = resolve_config_path(Some(String::new()), true, Some(PathBuf::from("/etc")));
    assert_eq!(p, PathBuf::from("max.json"));
}

#[test]
fn override_wins_without_local_file() {
    let p = resolve_config_path(Some("a.json".to_string()), false, None);
    assert_eq!(p, PathBuf::from("a.json"));
}
