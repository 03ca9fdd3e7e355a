//! Where `max` keeps its own configuration file.

use vstd::prelude::*;
use vstd::string::*;
use std::path::PathBuf;

verus! {

/// `std::path::PathBuf`, carried through as an opaque value.
#[verifier::external_type_specification]
#[verifier::external_body]
pub struct ExPathBuf(std::path::PathBuf);

/// The path that `PathBuf::from` makes of a string.
pub uninterp spec fn path_from_text(s: Seq<char>) -> PathBuf;

/// The path that `Path::join` makes of a base path and a relative part.
pub uninterp spec fn path_joined(base: PathBuf, part: Seq<char>) -> PathBuf;

/// A path made of the string `s`.
///
/// Calls `PathBuf::from(String)` (std), which takes the string over as the
/// path's text; the contract names the result and says nothing more of it.
#[verifier::external_body]
pub(crate) fn path_from(s: String) -> (p: PathBuf)
    ensures
        p == path_from_text(s@),
{
    PathBuf::from(s)
}

/// `base` with `part` appended as a further component.
///
/// Calls `Path::join` (std). The contract names the result and says nothing
/// more of it; how the component is appended (the separator) is the target's.
#[verifier::external_body]
pub(crate) fn path_join(base: &PathBuf, part: &str) -> (p: PathBuf)
    ensures
        p == path_joined(*base, part@),
{
    base.join(part)
}

/// The name of the configuration file.
pub open spec fn config_file_name() -> Seq<char> {
    "max.json"@
}

/// The configuration file that is used: the override (the `MAX_CONFIG_FILE`
/// variable) where it is set and not empty, else `max.json` where that file is
/// in the working directory, else `max/max.json` in the user's configuration
/// directory where there is one, else `max.json`.
pub open spec fn config_path_spec(env_override: Option<Seq<char>>, has_local: bool, config_dir: Option<PathBuf>) -> PathBuf {
    if env_override matches Some(cf) && cf.len() > 0 {
        path_from_text(env_override->0)
    } else if has_local {
        path_from_text(config_file_name())
    } else if config_dir is Some {
        path_joined(path_joined(config_dir->0, "max"@), config_file_name())
    } else {
        path_from_text(config_file_name())
    }
}

/// Chooses the configuration file from the environment's override, whether
/// `max.json` is in the working directory, and the user's configuration directory.
pub fn resolve_config_path(env_override: Option<String>, has_local: bool, config_dir: Option<PathBuf>) -> (p: PathBuf)
    ensures
        p == config_path_spec(
            match env_override { Some(s) => Some(s@), None => None },
            has_local,
            config_dir,
        ),
{
    if let Some(cf) = env_override {
        if cf.as_str().unicode_len() > 0 {
            return path_from(cf);
        }
    }
    if has_local {
        return path_from("max.json".to_string());
    }
    if let Some(dir) = config_dir {
        let sub = path_join(&dir, "max");
        return path_join(&sub, "max.json");
    }
    path_from("max.json".to_string())
}

/// A non-empty override names the configuration file, whatever else there is.
pub proof fn law_override_wins(cf: Seq<char>, has_local: bool, config_dir: Option<PathBuf>)
    requires
        cf.len() > 0,
    ensures
        config_path_spec(Some(cf), has_local, config_dir) == path_from_text(cf),
{
}

/// Without a non-empty override, `max.json` in the working directory wins over
/// the user's configuration directory.
pub proof fn law_local_file_wins(env_override: Option<Seq<char>>, config_dir: Option<PathBuf>)
    requires
        !(env_override matches Some(cf) && cf.len() > 0),
    ensures
        config_path_spec(env_override, true, config_dir) == path_from_text("max.json"@),
{
}

/// With neither an override nor a local file, the file is `max/max.json` in the
/// user's configuration directory, and plain `max.json` only where there is no
/// such directory.
pub proof fn law_config_dir_fallback(env_override: Option<Seq<char>>, config_dir: Option<PathBuf>)
    requires
        !(env_override matches Some(cf) && cf.len() > 0),
    ensures
        config_path_spec(env_override, false, config_dir) == match config_dir {
            Some(d) => path_joined(path_joined(d, "max"@), "max.json"@),
            None => path_from_text("max.json"@),
        },
{
}

} // verus!
