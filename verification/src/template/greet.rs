//! The greeting of a generated project.

use vstd::prelude::*;
use crate::template::cli::GreetArgs;
use crate::template::config::Config;
use crate::text::{string_from_chars, append_str};

verus! {

/// Whom the greeting is for: the name given, else the configured admin token,
/// else `World`.
pub open spec fn greet_name(args: GreetArgs, config: Config) -> Seq<char> {
    if args.name is Some {
        args.name->0@
    } else if config.admin_token is Some {
        config.admin_token->0@
    } else {
        "World"@
    }
}

/// The line that `greet` prints: under dry run a note of whom it would greet,
/// else the greeting, marked when debugging.
pub open spec fn greet_text(args: GreetArgs, config: Config) -> Seq<char> {
    let name = greet_name(args, config);
    if config.dry_run {
        "[dry-run] Would greet: "@ + name
    } else if config.debug {
        "[debug] Hello, "@ + name + "!"@
    } else {
        "Hello, "@ + name + "!"@
    }
}

/// The line that `greet` prints for `args` under `config`.
pub fn greet_message(args: &GreetArgs, config: &Config) -> (r: String)
    ensures
        r@ == greet_text(*args, *config),
{
    let name: &str = match &args.name {
        Some(n) => n.as_str(),
        None => match &config.admin_token {
            Some(t) => t.as_str(),
            None => "World",
        },
    };
    let mut v: Vec<char> = Vec::new();
    if config.dry_run {
        append_str(&mut v, "[dry-run] Would greet: ");
        append_str(&mut v, name);
    } else {
        if config.debug {
            append_str(&mut v, "[debug] Hello, ");
        } else {
            append_str(&mut v, "Hello, ");
        }
        append_str(&mut v, name);
        append_str(&mut v, "!");
    }
    string_from_chars(&v)
}

/// A name given on the command line is whom the greeting is for, whatever
/// admin token the configuration holds: two configurations with the same
/// debug and dry-run settings give the same line.
pub proof fn law_given_name_wins(args: GreetArgs, c1: Config, c2: Config)
    requires
        args.name is Some,
        c1.debug == c2.debug,
        c1.dry_run == c2.dry_run,
    ensures
        greet_text(args, c1) == greet_text(args, c2),
{
}

/// With a name given, the plain greeting is `Hello, <name>!`.
pub proof fn law_greets_given_name(args: GreetArgs, config: Config)
    requires
        args.name is Some,
        !config.debug,
        !config.dry_run,
    ensures
        greet_text(args, config) == "Hello, "@ + args.name->0@ + "!"@,
{
}

/// With no name given, the configured admin token is greeted.
pub proof fn law_greets_token_without_name(args: GreetArgs, config: Config)
    requires
        args.name is None,
        config.admin_token is Some,
        !config.debug,
        !config.dry_run,
    ensures
        greet_text(args, config) == "Hello, "@ + config.admin_token->0@ + "!"@,
{
}

/// With neither a name nor an admin token, the greeting is `Hello, World!`.
pub proof fn law_greets_world_by_default(args: GreetArgs, config: Config)
    requires
        args.name is None,
        config.admin_token is None,
        !config.debug,
        !config.dry_run,
    ensures
        greet_text(args, config) == "Hello, World!"@,
{
    reveal_strlit("Hello, ");
    reveal_strlit("World");
    reveal_strlit("!");
    reveal_strlit("Hello, World!");
    assert("Hello, "@ + "World"@ + "!"@ =~= "Hello, World!"@);
}

} // verus!
