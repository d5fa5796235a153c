//! Where state snapshots live: home expansion of `~/` paths, the state
//! directory chosen from the environment, snapshot-name validation, and the
//! resolved file of a named or explicitly given snapshot.
use vstd::prelude::*;
use vstd::string::StringExecFns;
use crate::text::{
    chars_of, ends_with_seq, has_char, is_blank, opt_string_view, opt_view, opt_as_str, push_char,
    push_str, starts_with_seq, str_ends_with, str_has_char, str_is_blank, str_skip, str_starts_with,
};

verus! {

/// Why a snapshot path could not be resolved.
#[derive(Debug, Clone, Copy, PartialEq, Eq, Structural)]
pub enum StatePathError {
    /// A `~/` path, or the default state directory, needs `HOME`, which is unset.
    HomeNotSet,
    /// The snapshot name is empty or only whitespace.
    EmptyName,
    /// The snapshot name contains '/' or '\'.
    PathSeparator,
}

/// The text shown to the user for a path error.
pub open spec fn state_path_error_text(e: StatePathError) -> Seq<char> {
    match e {
        StatePathError::HomeNotSet => "HOME is not set"@,
        StatePathError::EmptyName => "Snapshot name cannot be empty"@,
        StatePathError::PathSeparator => "Snapshot names cannot contain path separators; use --path for explicit file paths"@,
    }
}

impl StatePathError {
    /// The text shown to the user for this error.
    pub fn message(&self) -> (m: String)
        ensures
            m@ == state_path_error_text(*self),
    {
        match self {
            StatePathError::HomeNotSet => String::from_str("HOME is not set"),
            StatePathError::EmptyName => String::from_str("Snapshot name cannot be empty"),
            StatePathError::PathSeparator => String::from_str(
                "Snapshot names cannot contain path separators; use --path for explicit file paths",
            ),
        }
    }
}

/// The variables the state directory is chosen from: the explicit state
/// directory, `XDG_CONFIG_HOME`, and `HOME`.
#[derive(Debug)]
pub struct StateEnv {
    pub state_dir: Option<String>,
    pub xdg_config_home: Option<String>,
    pub home: Option<String>,
}

/// `base` joined with `p` as `PathBuf::join` does on Unix: an absolute `p`
/// replaces `base`; otherwise a '/' is put between them unless `base` is
/// empty or already ends with one.
pub open spec fn path_join(base: Seq<char>, p: Seq<char>) -> Seq<char> {
    if p.len() > 0 && p[0] == '/' {
        p
    } else if base.len() > 0 && base.last() != '/' {
        base + seq!['/'] + p
    } else {
        base + p
    }
}

/// `path` with a leading `~/` replaced by the home directory; `None` when
/// that needs a home directory and there is none.
pub open spec fn expanded_path(path: Seq<char>, home: Option<Seq<char>>) -> Option<Seq<char>> {
    if starts_with_seq(path, "~/"@) {
        match home {
            Some(h) => Some(path_join(h, path.skip(2))),
            None => None,
        }
    } else {
        Some(path)
    }
}

/// The directory of named snapshots: the explicit state directory (with `~/`
/// expanded), else `$XDG_CONFIG_HOME/chromium-bridge/states`, else
/// `$HOME/.config/chromium-bridge/states`; `None` when `HOME` is needed and unset.
pub open spec fn state_root_spec(
    state_dir: Option<Seq<char>>,
    xdg_config_home: Option<Seq<char>>,
    home: Option<Seq<char>>,
) -> Option<Seq<char>> {
    match state_dir {
        Some(d) => expanded_path(d, home),
        None => match xdg_config_home {
            Some(c) => Some(path_join(path_join(c, "chromium-bridge"@), "states"@)),
            None => match home {
                Some(h) => Some(
                    path_join(path_join(path_join(h, ".config"@), "chromium-bridge"@), "states"@),
                ),
                None => None,
            },
        },
    }
}

/// The outcome of validating a snapshot name.
pub open spec fn state_name_check(name: Seq<char>) -> Result<(), StatePathError> {
    if is_blank(name) {
        Err(StatePathError::EmptyName)
    } else if has_char(name, '/') || has_char(name, '\\') {
        Err(StatePathError::PathSeparator)
    } else {
        Ok(())
    }
}

/// The file name of a named snapshot: the name, with ".json" added unless it
/// already ends so.
pub open spec fn state_file_name_spec(name: Seq<char>) -> Seq<char> {
    if ends_with_seq(name, ".json"@) {
        name
    } else {
        name + ".json"@
    }
}

/// The file a snapshot is read from or written to: an explicit path (with
/// `~/` expanded) when given, else the named file in the state directory.
pub open spec fn resolved_state_path(
    name: Seq<char>,
    explicit_path: Option<Seq<char>>,
    env: StateEnv,
) -> Result<Seq<char>, StatePathError> {
    match explicit_path {
        Some(p) => match expanded_path(p, opt_string_view(env.home)) {
            Some(e) => Ok(e),
            None => Err(StatePathError::HomeNotSet),
        },
        None => match state_name_check(name) {
            Err(e) => Err(e),
            Ok(_) => match state_root_spec(
                opt_string_view(env.state_dir),
                opt_string_view(env.xdg_config_home),
                opt_string_view(env.home),
            ) {
                Some(root) => Ok(path_join(root, state_file_name_spec(name))),
                None => Err(StatePathError::HomeNotSet),
            },
        },
    }
}

/// Joins two paths as `Path::join` does on Unix.
pub fn join_path(base: &str, p: &str) -> (r: String)
    ensures
        r@ == path_join(base@, p@),
{
    let pv = chars_of(p);
    if pv.len() > 0 && pv[0] == '/' {
        return String::from_str(p);
    }
    let bv = chars_of(base);
    let mut out = String::from_str(base);
    if bv.len() > 0 && bv[bv.len() - 1] != '/' {
        push_char(&mut out, '/');
    }
    push_str(&mut out, p);
    out
}

/// Expands a leading `~/` with the given home directory; fails when the path
/// needs a home directory and none is given.
pub fn expand_path_with_home(path: &str, home: Option<&str>) -> (r: Result<String, StatePathError>)
    ensures
        match r {
            Ok(p) => expanded_path(path@, opt_view(home)) == Some(p@),
            Err(e) => expanded_path(path@, opt_view(home)) is None && e == StatePathError::HomeNotSet,
        },
{
    if str_starts_with(path, "~/") {
        proof {
            reveal_strlit("~/");
        }
        let home = match home {
            Some(h) => h,
            None => {
                return Err(StatePathError::HomeNotSet);
            },
        };
        let stripped = str_skip(path, 2);
        return Ok(join_path(home, stripped.as_str()));
    }
    Ok(String::from_str(path))
}

/// The directory of named snapshots, chosen from the explicit state
/// directory, `XDG_CONFIG_HOME` and `HOME`, in that order.
pub fn state_root_from_env(
    override_dir: Option<&str>,
    xdg_config_home: Option<&str>,
    home: Option<&str>,
) -> (r: Result<String, StatePathError>)
    ensures
        match r {
            Ok(p) => state_root_spec(opt_view(override_dir), opt_view(xdg_config_home), opt_view(home))
                == Some(p@),
            Err(e) => state_root_spec(
                opt_view(override_dir),
                opt_view(xdg_config_home),
                opt_view(home),
            ) is None && e == StatePathError::HomeNotSet,
        },
{
    if let Some(dir) = override_dir {
        return expand_path_with_home(dir, home);
    }
    if let Some(config_home) = xdg_config_home {
        let app = join_path(config_home, "chromium-bridge");
        return Ok(join_path(app.as_str(), "states"));
    }
    let home = match home {
        Some(h) => h,
        None => {
            return Err(StatePathError::HomeNotSet);
        },
    };
    let config = join_path(home, ".config");
    let app = join_path(config.as_str(), "chromium-bridge");
    Ok(join_path(app.as_str(), "states"))
}

/// Checks a snapshot name: it must hold something besides whitespace, and
/// no path separator.
pub fn validate_state_name(name: &str) -> (r: Result<(), StatePathError>)
    ensures
        r == state_name_check(name@),
{
    if str_is_blank(name) {
        return Err(StatePathError::EmptyName);
    }
    if str_has_char(name, '/') || str_has_char(name, '\\') {
        return Err(StatePathError::PathSeparator);
    }
    Ok(())
}

/// The file name of a named snapshot.
pub fn state_file_name(name: &str) -> (r: String)
    ensures
        r@ == state_file_name_spec(name@),
{
    if str_ends_with(name, ".json") {
        String::from_str(name)
    } else {
        let mut s = String::from_str(name);
        push_str(&mut s, ".json");
        s
    }
}

/// The file of a snapshot: an explicit path (with `~/` expanded) when given,
/// else the validated name, with ".json", in the state directory.
pub fn resolve_state_path(name: &str, explicit_path: Option<&str>, env: &StateEnv) -> (r: Result<
    String,
    StatePathError,
>)
    ensures
        match r {
            Ok(p) => resolved_state_path(name@, opt_view(explicit_path), *env) == Ok::<
                Seq<char>,
                StatePathError,
            >(p@),
            Err(e) => resolved_state_path(name@, opt_view(explicit_path), *env) == Err::<
                Seq<char>,
                StatePathError,
            >(e),
        },
{
    if let Some(path) = explicit_path {
        return expand_path_with_home(path, opt_as_str(&env.home));
    }
    match validate_state_name(name) {
        Ok(()) => {},
        Err(e) => {
            return Err(e);
        },
    }
    let file_name = state_file_name(name);
    let root = match state_root_from_env(
        opt_as_str(&env.state_dir),
        opt_as_str(&env.xdg_config_home),
        opt_as_str(&env.home),
    ) {
        Ok(r) => r,
        Err(e) => {
            return Err(e);
        },
    };
    Ok(join_path(root.as_str(), file_name.as_str()))
}

} // verus!
