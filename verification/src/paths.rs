//! Paths of the file system as text.

use crate::text::opt_text;
use std::path::Path;
use vstd::prelude::*;
use vstd::string::*;

verus! {

/// The parent of a path, if it has one.
pub uninterp spec fn parent_path(path: Seq<char>) -> Option<Seq<char>>;

/// A path with a name appended.
pub uninterp spec fn joined_path(base: Seq<char>, name: Seq<char>) -> Seq<char>;

/// `std::path::Path::parent`: a function of the path; nothing for an empty
/// one.
#[verifier::external_body]
pub(crate) fn path_parent(path: &str) -> (parent: Option<String>)
    ensures
        opt_text(parent) == parent_path(path@),
        path@.len() == 0 ==> parent is None,
{
    Path::new(path).parent().map(|p| p.to_string_lossy().into_owned())
}

/// `std::path::Path::join`: a function of the path and the name.
#[verifier::external_body]
pub(crate) fn path_join(base: &str, name: &str) -> (path: String)
    ensures
        path@ == joined_path(base@, name@),
{
    Path::new(base).join(name).to_string_lossy().into_owned()
}

/// App directory name under the XDG config home.
pub const APP_DIR: &'static str = "agentgit";

/// Directory name of earlier releases; still used when it exists and the
/// current one does not, so that config and session survive the rename.
pub const LEGACY_APP_DIR: &'static str = "git-tui";

/// The base of the configuration directories: `$XDG_CONFIG_HOME` where it is
/// set and not empty, else `.config` in the home; none where neither is set.
pub open spec fn config_base(xdg: Option<Seq<char>>, home: Option<Seq<char>>) -> Option<Seq<char>> {
    if xdg is Some && xdg->0.len() > 0 {
        xdg
    } else {
        match home {
            Some(h) => Some(joined_path(h, ".config"@)),
            None => None,
        }
    }
}

/// The base of the configuration directories, given the two variables.
pub fn find_config_base(xdg: &Option<String>, home: &Option<String>) -> (base: Option<String>)
    ensures
        opt_text(base) == config_base(opt_text(*xdg), opt_text(*home)),
{
    if let Some(dir) = xdg {
        if !dir.as_str().is_empty() {
            return Some(dir.clone());
        }
    }
    match home {
        Some(h) => Some(path_join(h.as_str(), ".config")),
        None => None,
    }
}

/// The app directory: under the current name, unless only the legacy directory
/// is there.
pub fn pick_app_dir(base: &str, current_exists: bool, legacy_is_dir: bool) -> (dir: String)
    ensures
        dir@ == if !current_exists && legacy_is_dir {
            joined_path(base@, LEGACY_APP_DIR@)
        } else {
            joined_path(base@, APP_DIR@)
        },
{
    if !current_exists && legacy_is_dir {
        path_join(base, LEGACY_APP_DIR)
    } else {
        path_join(base, APP_DIR)
    }
}

/// Where the configuration file lives in an app directory.
pub fn config_file(dir: &Option<String>) -> (path: Option<String>)
    ensures
        opt_text(path) == (match *dir {
            Some(d) => Some(joined_path(d@, "config.toml"@)),
            None => None,
        }),
{
    match dir {
        Some(d) => Some(path_join(d.as_str(), "config.toml")),
        None => None,
    }
}

/// Configuration lies where the first variable says, whatever the other holds;
/// where it says nothing, in the home directory, if there is one.
pub proof fn law_config_base(xdg: Option<Seq<char>>, home: Option<Seq<char>>)
    ensures
        xdg is Some && xdg->0.len() > 0 ==> config_base(xdg, home) == xdg,
        xdg is None ==> config_base(xdg, home) == config_base(Some(Seq::empty()), home),
        config_base(None, home) is Some <==> home is Some,
        home is Some ==> config_base(None, home) == Some(joined_path(home->0, ".config"@)),
{
}

} // verus!
