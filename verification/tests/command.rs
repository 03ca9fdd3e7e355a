use max::command::{
    check_not_added, command_names, handler_path, edit_target, is_valid_rust_ident, pascal_case, plan_add, plan_edits, validate_name,
    CmdError,
};

const CLI_RS: &str = "use clap::Parser;\n\npub enum Commands {\n    Greet(GreetArgs),\n    // __CMD_ENUM_MARKER__\n}\n";
const MAIN_RS: &str = "fn run_command() {\n    match cli.command {\n        // __CMD_DISPATCH_MARKER__\n    }\n}\n";
const MOD_RS: &str = "pub mod config;\npub mod greet;\n\n";

#[test]
fn cmd_add_creates_command_files() {
    let plan = plan_add("hello").unwrap();
    let edits = plan_edits(&plan, Some("Say hello".to_string()), MOD_RS, CLI_RS, Some(MAIN_RS.to_string())).unwrap();
    assert_eq!(edits.handler_path, "src/commands/hello.rs");
    assert!(edits.mod_rs.contains("pub mod hello;"));
    assert!(edits.cli_rs.contains("Hello(Hello),"));
    assert!(edits.cli_rs.contains("pub struct Hello"));
    assert!(edits.cli_rs.contains("#[command(about = \"Say hello\")]"));
    let main_rs = edits.main_rs.unwrap();
    assert!(main_rs.contains("Commands::Hello(args)"));
    assert!(edits.handler_source.contains("TODO: implement Hello command"));
}

#[test]
fn cmd_add_uses_leaf_segment() {
    let plan = plan_add("admin.users.list").unwrap();
    assert_eq!(plan.leaf, "list");
    let edits = plan_edits(&plan, None, MOD_RS, CLI_RS, Some(MAIN_RS.to_string())).unwrap();
    assert_eq!(edits.handler_path, "src/commands/list.rs");
    assert_ne!(edits.handler_path, "src/commands/admin.rs");
    assert!(edits.cli_rs.contains("List(List),"));
    assert!(edits.cli_rs.contains("#[command(about = \"list command\")]"));
}

#[test]
fn cmd_add_duplicate_errors() {
    // A new project already has the `greet` handler.
    let plan = plan_add("greet").unwrap();
    assert_eq!(handler_path(&plan.mod_name), "src/commands/greet.rs");
    match check_not_added(&plan, true) {
        Err(CmdError::AlreadyExists(leaf)) => assert_eq!(leaf, "greet"),
        _ => panic!("expected the command to exist already"),
    }
    assert!(check_not_added(&plan, false).is_ok());
}

#[test]
fn cmd_add_missing_marker_errors() {
    let plan = plan_add("hello").unwrap();
    let cli_rs = CLI_RS.replace("// __CMD_ENUM_MARKER__", "");
    match plan_edits(&plan, None, MOD_RS, &cli_rs, Some(MAIN_RS.to_string())) {
        Err(CmdError::MissingMarker(m)) => assert!(m.contains("MARKER")),
        _ => panic!("expected a missing marker"),
    }
}

#[test]
fn cmd_add_invalid_name_errors() {
    match plan_add("2bad-name") {
        Err(CmdError::NotAnIdentifier(leaf)) => assert_eq!(leaf, "2bad-name"),
        _ => panic!("expected an invalid identifier"),
    }
}

#[test]
fn plan_edits_exact_texts() {
    let plan = plan_add("hello").unwrap();
    assert_eq!(plan.struct_name, "Hello");
    assert_eq!(plan.mod_name, "hello");
    let edits = plan_edits(&plan, None, "pub mod greet;\n\n\n", CLI_RS, Some(MAIN_RS.to_string())).unwrap();
    assert_eq!(edits.mod_rs, "pub mod greet;\npub mod hello;\n");
    assert_eq!(
        edits.cli_rs,
        "use clap::Parser;\n\npub enum Commands {\n    Greet(GreetArgs),\n        #[command(about = \"hello command\")]\n    Hello(Hello),\n// __CMD_ENUM_MARKER__\n}\n#[derive(clap::Args)]\npub struct Hello {\n    #[arg(long, help = \"Name\")]\n    pub name: Option<String>,\n}\n"
    );
    assert_eq!(
        edits.main_rs.unwrap(),
        "fn run_command() {\n    match cli.command {\n                Commands::Hello(args) => {\n            commands::hello::execute(&args, cfg, config_path)\n                .context(\"hello command failed\")?\n        }\n// __CMD_DISPATCH_MARKER__\n    }\n}\n"
    );
    assert_eq!(
        edits.handler_source,
        "use crate::cli::Hello;\nuse crate::config::Config;\nuse anyhow::Result;\nuse std::path::Path;\n\npub fn execute(args: &Hello, _cfg: &Config, _config_path: &Path) -> Result<()> {\n    println!(\"TODO: implement Hello command\");\n    Ok(())\n}\n"
    );
}

#[test]
fn main_without_marker_is_left_alone() {
    let plan = plan_add("hello").unwrap();
    let edits = plan_edits(&plan, None, MOD_RS, CLI_RS, Some("fn main() {}\n".to_string())).unwrap();
    assert!(edits.main_rs.is_none());
    let edits = plan_edits(&plan, None, MOD_RS, CLI_RS, None).unwrap();
    assert!(edits.main_rs.is_none());
}

#[test]
fn validate_name_cases() {
    assert!(matches!(validate_name(""), Err(CmdError::NameRequired)));
    assert!(matches!(validate_name("a..b"), Err(CmdError::InvalidName(_))));
    assert!(matches!(validate_name("a/b"), Err(CmdError::InvalidName(_))));
    assert!(matches!(validate_name("a\\b"), Err(CmdError::InvalidName(_))));
    assert!(matches!(validate_name("a\0b"), Err(CmdError::InvalidName(_))));
    assert!(validate_name("admin.users").is_ok());
    assert!(validate_name("a.b").is_ok());
}

#[test]
fn plan_add_errors() {
    assert!(matches!(plan_add(""), Err(CmdError::NameRequired)));
    assert!(matches!(plan_add("../x"), Err(CmdError::InvalidName(_))));
    assert!(matches!(plan_add(".hello"), Err(CmdError::EmptySegment)));
    assert!(matches!(plan_add("hello."), Err(CmdError::EmptySegment)));
    assert!(matches!(plan_add("-"), Err(CmdError::NotAnIdentifier(_))));
}

#[test]
fn pascal_case_examples() {
    assert_eq!(pascal_case("hello"), "Hello");
    assert_eq!(pascal_case("list-users"), "ListUsers");
    assert_eq!(pascal_case("my_cmd"), "MyCmd");
    assert_eq!(pascal_case("--a--b--"), "AB");
    assert_eq!(pascal_case("2bad-name"), "2badName");
    assert_eq!(pascal_case("straße"), "Straße");
    assert_eq!(pascal_case("ßx"), "SSx");
    assert_eq!(pascal_case(""), "");
    assert_eq!(pascal_case("!!"), "");
}

#[test]
fn rust_ident_examples() {
    assert!(is_valid_rust_ident("Hello"));
    assert!(is_valid_rust_ident("_x1"));
    assert!(!is_valid_rust_ident(""));
    assert!(!is_valid_rust_ident("2bad"));
    assert!(!is_valid_rust_ident("a-b"));
    assert!(!is_valid_rust_ident("Straße"));
}

#[test]
fn command_names_filter_and_strip() {
    let files: Vec<String> = ["mod.rs", "greet.rs", "config.rs", "hello.rs", "notes.txt", "list.rs.rs", "x.rs"]
        .iter()
        .map(|s| s.to_string())
        .collect();
    assert_eq!(command_names(&files), vec!["hello".to_string(), "list".to_string(), "x".to_string()]);
    assert!(command_names(&vec!["mod.rs".to_string()]).is_empty());
}

#[test]
fn edit_target_cases() {
    let t = edit_target("admin.Users").unwrap();
    assert_eq!(t.leaf, "Users");
    assert_eq!(t.path, "src/commands/users.rs");
    assert!(matches!(edit_target("admin."), Err(CmdError::EmptyLeaf)));
    assert!(matches!(edit_target(""), Err(CmdError::NameRequired)));
    assert!(matches!(edit_target("a/b"), Err(CmdError::InvalidName(_))));
}

#[test]
fn edit_opens_the_file_add_writes() {
    for name in ["hello", "admin.Users", "a.b.list-all"] {
        let plan = plan_add(name).unwrap();
        let target = edit_target(name).unwrap();
        assert_eq!(handler_path(&plan.mod_name), target.path);
        assert_eq!(plan.leaf, target.leaf);
    }
}

#[test]
fn ascii_names_are_identifiers_when_first_alnum_is_letter() {
    assert!(plan_add("hello-world").is_ok());
    assert!(plan_add("_x").is_ok());
    assert!(plan_add("--a1").is_ok());
    assert!(matches!(plan_add("9lives"), Err(CmdError::NotAnIdentifier(_))));
    assert!(matches!(plan_add("-_-"), Err(CmdError::NotAnIdentifier(_))));
    assert!(matches!(plan_add("_9x"), Err(CmdError::NotAnIdentifier(_))));
}

#[test]
fn cmd_add_not_a_project_errors() {
    assert!(matches!(max::command::check_project(false, false), Err(CmdError::NoCliFile)));
    assert!(matches!(max::command::check_project(false, true), Err(CmdError::NoCliFile)));
    assert!(matches!(max::command::check_project(true, false), Err(CmdError::NoConfigFile)));
    assert!(max::command::check_project(true, true).is_ok());
}

#[test]
fn ascii_module_and_struct_names() {
    let plan = plan_add("admin.List-USERS").unwrap();
    assert_eq!(plan.struct_name, "ListUSERS");
    assert_eq!(plan.mod_name, "list-users");
}
