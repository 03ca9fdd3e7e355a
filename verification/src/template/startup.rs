//! How a generated project starts: the name it runs under, its configuration
//! file, and the environment variables that override configuration values.

use vstd::prelude::*;
use vstd::string::*;
use std::path::PathBuf;
use crate::config::{path_from, path_from_text, path_join, path_joined};
use crate::command::ends_with;
use crate::template::cli::DEFAULT_APP_NAME;
use crate::text::{chars_of, string_from_chars, append_str, append_chars, ascii_chars, ascii_upper_str};

verus! {

broadcast use vstd::string::group_string_axioms;

/// `s` starts with `p`.
pub open spec fn starts_with(s: Seq<char>, p: Seq<char>) -> bool {
    p.len() <= s.len() && s.take(p.len() as int) == p
}

/// The program name that does not name the application: empty, `main` or
/// `app`, or one that a test runner or `go run` makes up.
pub open spec fn is_generic_program_name(name: Seq<char>) -> bool {
    name == Seq::<char>::empty() || name == "main"@ || name == "app"@ || starts_with(name, "go-build"@)
        || ends_with(name, ".test"@)
}

/// Whether `s` starts with `p`.
fn starts_with_chars(s: &Vec<char>, p: &Vec<char>) -> (b: bool)
    ensures
        b == starts_with(s@, p@),
{
    let n = s.len();
    let m = p.len();
    if m > n {
        return false;
    }
    for k in 0..m
        invariant
            n == s@.len(),
            m == p@.len(),
            m <= n,
            forall|j: int| 0 <= j < k ==> s@[j] == p@[j],
    {
        if s[k] != p[k] {
            assert(s@.take(m as int)[k as int] != p@[k as int]);
            return false;
        }
    }
    assert(s@.take(m as int) =~= p@);
    true
}

/// The name the application runs under, from the file stem of the program it
/// was started as: that stem, unless it is missing or generic, in which case
/// the project's name.
pub fn app_name_from_stem(stem: Option<String>) -> (r: String)
    ensures
        ({
            let name = match stem { Some(s) => s@, None => Seq::<char>::empty() };
            r@ == if is_generic_program_name(name) { DEFAULT_APP_NAME@ } else { name }
        }),
{
    let name = match stem {
        Some(s) => s,
        None => String::new(),
    };
    let chars = chars_of(name.as_str());
    let generic = chars.len() == 0 || name == "main".to_string() || name == "app".to_string()
        || starts_with_chars(&chars, &chars_of("go-build"))
        || crate::command::ends_with_chars(&chars, &chars_of(".test"));
    proof {
        if chars@.len() == 0 {
            assert(name@ =~= Seq::<char>::empty());
        }
    }
    if generic {
        DEFAULT_APP_NAME.to_string()
    } else {
        name
    }
}

/// The upper-case form of a string, as `str::to_uppercase` gives it.
pub uninterp spec fn unicode_uppercase_str(s: Seq<char>) -> Seq<char>;

/// The upper-case form of `s`.
///
/// Calls `str::to_uppercase` (std), which maps by the Unicode upper-case
/// mappings. The contract names that result; of it, it states only the ASCII
/// mapping: in an ASCII string each lower-case letter becomes its upper-case
/// letter (code minus 32) and every other character stays.
#[verifier::external_body]
fn str_to_uppercase(s: &str) -> (r: String)
    ensures
        r@ == unicode_uppercase_str(s@),
        ascii_chars(s@) ==> r@ == ascii_upper_str(s@),
{
    s.to_uppercase()
}

/// The environment variable that names the configuration file of application `app`.
pub open spec fn config_env_key_text(app: Seq<char>) -> Seq<char> {
    unicode_uppercase_str(app) + "_CONFIG_FILE"@
}

/// The environment variable that names the configuration file: the
/// application's name in upper case, then `_CONFIG_FILE`.
pub fn config_env_key(app_name: &str) -> (r: String)
    ensures
        r@ == config_env_key_text(app_name@),
        ascii_chars(app_name@) ==> r@ == ascii_upper_str(app_name@) + "_CONFIG_FILE"@,
{
    let upper = str_to_uppercase(app_name);
    let mut v = chars_of(upper.as_str());
    append_str(&mut v, "_CONFIG_FILE");
    string_from_chars(&v)
}

/// The configuration file of application `app`: the file named by its
/// environment variable where that is set and not empty, else `app.json` where
/// that file is in the working directory, else `app/app.json` in the user's
/// configuration directory where there is one, else `app.json`.
pub open spec fn app_config_path_spec(app: Seq<char>, env_value: Option<Seq<char>>, has_local: bool,
    config_dir: Option<PathBuf>) -> PathBuf
{
    let file = app + ".json"@;
    if env_value matches Some(p) && p.len() > 0 {
        path_from_text(env_value->0)
    } else if has_local {
        path_from_text(file)
    } else if config_dir is Some {
        path_joined(path_joined(config_dir->0, app), file)
    } else {
        path_from_text(file)
    }
}

/// Chooses the configuration file of application `app_name` from the value of
/// its environment variable, whether `app_name.json` is in the working
/// directory, and the user's configuration directory.
pub fn resolve_app_config_path(app_name: &str, env_value: Option<String>, has_local: bool,
    config_dir: Option<PathBuf>) -> (p: PathBuf)
    ensures
        p == app_config_path_spec(app_name@, match env_value { Some(s) => Some(s@), None => None },
            has_local, config_dir),
{
    if let Some(v) = env_value {
        if v.as_str().unicode_len() > 0 {
            return path_from(v);
        }
    }
    let mut file = chars_of(app_name);
    append_str(&mut file, ".json");
    let file = string_from_chars(&file);
    if has_local {
        return path_from(file);
    }
    if let Some(dir) = config_dir {
        let sub = path_join(&dir, app_name);
        return path_join(&sub, file.as_str());
    }
    path_from(file)
}

/// A generated project's configuration file: a non-empty value of its
/// variable wins; then `<app>.json` in the working directory; then
/// `<app>/<app>.json` in the user's configuration directory; else `<app>.json`.
pub proof fn law_app_config_path_priority(app: Seq<char>, env_value: Option<Seq<char>>, has_local: bool,
    config_dir: Option<PathBuf>)
    ensures
        env_value matches Some(p) && p.len() > 0
            ==> app_config_path_spec(app, env_value, has_local, config_dir) == path_from_text(env_value->0),
        !(env_value matches Some(p) && p.len() > 0) && has_local
            ==> app_config_path_spec(app, env_value, has_local, config_dir) == path_from_text(app + ".json"@),
        !(env_value matches Some(p) && p.len() > 0) && !has_local && config_dir is Some
            ==> app_config_path_spec(app, env_value, has_local, config_dir)
                == path_joined(path_joined(config_dir->0, app), app + ".json"@),
        !(env_value matches Some(p) && p.len() > 0) && !has_local && config_dir is None
            ==> app_config_path_spec(app, env_value, has_local, config_dir) == path_from_text(app + ".json"@),
{
}

/// The name a program runs under is kept whenever it is not generic: a name
/// of lower-case ASCII letters other than `main` and `app` is kept as it is.
pub proof fn law_plain_stem_is_kept(name: Seq<char>)
    requires
        name.len() > 0,
        forall|i: int| 0 <= i < name.len() ==> 'a' <= #[trigger] name[i] && name[i] <= 'z',
        name != "main"@,
        name != "app"@,
    ensures
        !is_generic_program_name(name),
{
    reveal_strlit("go-build");
    reveal_strlit(".test");
    if starts_with(name, "go-build"@) {
        assert(name.take(8)[2] == name[2]);
        assert("go-build"@[2] == '-');
    }
    if ends_with(name, ".test"@) {
        let k = name.len() - 5;
        assert(name.skip(k)[0] == name[k]);
        assert(".test"@[0] == '.');
    }
}

/// `s` with every `-` replaced by `_`.
pub open spec fn dashes_to_underscores(s: Seq<char>) -> Seq<char> {
    s.map_values(|c: char| if c == '-' { '_' } else { c })
}

/// The environment variable that overrides configuration key `key` of
/// application `app`: both in upper case, joined by `_`, with `-` in the key
/// turned into `_`.
pub open spec fn override_env_key_text(app: Seq<char>, key: Seq<char>) -> Seq<char> {
    unicode_uppercase_str(app) + "_"@ + dashes_to_underscores(unicode_uppercase_str(key))
}

/// The environment variable that overrides configuration key `key`.
pub fn override_env_key(app_name: &str, key: &str) -> (r: String)
    ensures
        r@ == override_env_key_text(app_name@, key@),
        ascii_chars(app_name@) && ascii_chars(key@)
            ==> r@ == ascii_upper_str(app_name@) + "_"@ + dashes_to_underscores(ascii_upper_str(key@)),
{
    let app = str_to_uppercase(app_name);
    let mut v = chars_of(app.as_str());
    append_str(&mut v, "_");
    let upper_key = str_to_uppercase(key);
    let k = chars_of(upper_key.as_str());
    let n = k.len();
    let mut tail: Vec<char> = Vec::new();
    for i in 0..n
        invariant
            n == k@.len(),
            tail@ == dashes_to_underscores(k@.take(i as int)),
    {
        let c = k[i];
        tail.push(if c == '-' { '_' } else { c });
        assert(k@.take(i + 1) =~= k@.take(i as int).push(c));
        assert(tail@ =~= dashes_to_underscores(k@.take(i + 1)));
    }
    assert(k@.take(n as int) =~= k@);
    append_chars(&mut v, &tail);
    string_from_chars(&v)
}

} // verus!
