use max::project::{render_template, validate_project_name, InitError};

#[test]
fn init_rejects_invalid_names() {
    for bad in ["../escape", "a/b", "a\\b"] {
        match validate_project_name(bad) {
            Err(InitError::InvalidName(n)) => assert_eq!(n, bad),
            _ => panic!("expected an invalid project name"),
        }
    }
}

#[test]
fn project_name_required() {
    assert!(matches!(validate_project_name(""), Err(InitError::NameRequired)));
    assert!(validate_project_name("mycli").is_ok());
    assert!(validate_project_name("my.cli").is_ok());
}

#[test]
fn render_template_replaces_every_placeholder() {
    assert_eq!(
        render_template("name = \"{{project_name}}\"\n{{project_name}}.json", "mycli"),
        "name = \"mycli\"\nmycli.json"
    );
    assert_eq!(render_template("no placeholder", "mycli"), "no placeholder");
    assert_eq!(render_template("{{project_name}}{{project_name}}", "ab"), "abab");
    assert_eq!(render_template("{{{project_name}}}", "x"), "{x}");
    assert_eq!(render_template("{{project_name", "x"), "{{project_name");
}

#[test]
fn init_creates_project_structure() {
    let cli = render_template("pub const DEFAULT_APP_NAME: &str = \"{{project_name}}\";\n", "mycli");
    assert!(cli.contains("mycli"), "project name should be substituted");
    assert!(!cli.contains("{{project_name}}"));
}

#[test]
fn init_refuses_overwrite() {
    match max::project::check_new_project("mycli", true) {
        Err(InitError::AlreadyExists(n)) => assert_eq!(n, "mycli"),
        _ => panic!("expected the directory to exist already"),
    }
    assert!(max::project::check_new_project("mycli", false).is_ok());
    assert!(matches!(max::project::check_new_project("a/b", true), Err(InitError::InvalidName(_))));
    assert!(matches!(max::project::check_new_project("", false), Err(InitError::NameRequired)));
}
