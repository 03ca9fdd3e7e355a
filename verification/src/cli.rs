//! The command line of `max`: its commands and their arguments.

use vstd::prelude::*;

verus! {

/// A parsed command line.
pub struct Cli {
    pub command: Commands,
}

/// The top-level commands.
pub enum Commands {
    /// Initialize a new CLI project.
    Init(InitArgs),
    /// Manage commands in a project.
    Cmd(CmdArgs),
    /// Manage application configuration.
    Config(ConfigCommands),
}

/// Arguments of `init`.
pub struct InitArgs {
    /// Name of the project, and of its directory.
    pub name: String,
}

/// Arguments of `cmd`.
pub struct CmdArgs {
    pub command: CmdCommands,
}

/// The subcommands of `cmd`.
pub enum CmdCommands {
    /// Add a new command.
    Add(CmdAddArgs),
    /// List all commands.
    Show,
    /// Edit a command struct.
    Edit(CmdEditArgs),
}

/// Arguments of `cmd add`.
pub struct CmdAddArgs {
    /// Dotted name of the command; its last segment names it.
    pub name: String,
    /// Description for the command.
    pub desc: Option<String>,
}

/// Arguments of `cmd edit`.
pub struct CmdEditArgs {
    pub name: String,
}

/// The subcommands of `config`.
pub enum ConfigCommands {
    /// Generate a default configuration file.
    Init(ConfigInitArgs),
    /// Set a config value.
    SetValue(ConfigSetArgs),
    /// Unset a config value.
    Unset(ConfigUnsetArgs),
    /// Show configuration file path.
    Path,
    /// Print current configuration values.
    Show,
    /// Edit configuration file.
    Edit,
}

/// Arguments of `config init`.
pub struct ConfigInitArgs {
    /// Overwrite an existing file.
    pub force: bool,
}

/// Arguments of `config set`.
pub struct ConfigSetArgs {
    /// Config file path, in place of the default one.
    pub config_file: Option<String>,
    pub key: String,
    pub value: String,
}

/// Arguments of `config unset`.
pub struct ConfigUnsetArgs {
    /// Config file path, in place of the default one.
    pub config_file: Option<String>,
    pub key: String,
}

} // verus!
