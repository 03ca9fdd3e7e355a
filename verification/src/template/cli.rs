//! The command line of a generated project.

use vstd::prelude::*;
use crate::template::config::Config;

verus! {

/// The name a generated project runs under by default: the project's name,
/// which `max init` puts in place of the placeholder.
pub const DEFAULT_APP_NAME: &'static str = "{{project_name}}";

/// A parsed command line of a generated project.
pub struct Cli {
    /// Path to config file.
    pub config_file: Option<String>,
    /// Enable verbose output.
    pub verbose: bool,
    pub command: Commands,
}

/// The commands of a generated project.
pub enum Commands {
    /// Manage application configuration.
    Config(ConfigCommands),
    /// Print a personalized greeting.
    Greet(GreetArgs),
}

/// Arguments of `greet`.
pub struct GreetArgs {
    /// Admin token for authentication.
    pub admin_token: Option<String>,
    /// Whom to greet.
    pub name: Option<String>,
}

/// The subcommands of `config` in a generated project.
pub enum ConfigCommands {
    /// Initialize a default config file; `force` overwrites an existing one.
    Init { force: bool },
    /// Display the current configuration; `json` asks for JSON output.
    Show { json: bool },
    /// Print the config file path.
    Path,
}

impl GreetArgs {
    /// Fills the arguments that were not given from the configuration: the admin
    /// token, where the command line gave none.
    pub fn apply_config_defaults(&mut self, config: &Config)
        ensures
            final(self).admin_token == (if old(self).admin_token is None {
                config.admin_token
            } else {
                old(self).admin_token
            }),
            final(self).name == old(self).name,
    {
        if self.admin_token.is_none() {
            self.admin_token = match &config.admin_token {
                Some(t) => Some(t.clone()),
                None => None,
            };
        }
    }
}

} // verus!
