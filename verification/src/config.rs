//! The manager's home directory and what lies in it.

use vstd::prelude::*;
use crate::paths::{join_path, joined_path};
use crate::text::option_text;

verus! {

/// The persistent configuration of the manager.
#[derive(Debug, Clone)]
pub struct DmConfig {
    /// The runtime version that is active, if any.
    pub active_version: Option<String>,
}

impl Default for DmConfig {
    fn default() -> (config: DmConfig)
        ensures
            config.active_version.is_none(),
    {
        DmConfig { active_version: None }
    }
}

/// The home directory of the manager: the one given by flag; else the one
/// given by the environment; else `.dm` below the user's home directory.
pub open spec fn home_of(
    flag: Option<Seq<char>>,
    from_environment: Option<Seq<char>>,
    user_home: Option<Seq<char>>,
) -> Option<Seq<char>> {
    match flag {
        Some(home) => Some(home),
        None => match from_environment {
            Some(home) => Some(home),
            None => match user_home {
                Some(user) => Some(joined_path(user, ".dm"@)),
                None => None,
            },
        },
    }
}

/// Decides on the home directory of the manager. There is none only where
/// neither a flag nor the environment names one and the user's home
/// directory is unknown.
pub fn resolve_home(
    flag: Option<String>,
    from_environment: Option<String>,
    user_home: Option<String>,
) -> (home: Option<String>)
    ensures
        option_text(home) == home_of(
            option_text(flag),
            option_text(from_environment),
            option_text(user_home),
        ),
{
    match flag {
        Some(home) => Some(home),
        None => match from_environment {
            Some(home) => Some(home),
            None => match user_home {
                Some(user) => Some(join_path(user.as_str(), ".dm")),
                None => None,
            },
        },
    }
}

/// The directory of the installed runtime versions.
pub fn versions_dir(home: &str) -> (dir: String)
    ensures
        dir@ == joined_path(home@, "versions"@),
{
    join_path(home, "versions")
}

/// The link to the active runtime version.
pub fn active_link(home: &str) -> (link: String)
    ensures
        link@ == joined_path(home@, "active"@),
{
    join_path(home, "active")
}

/// The file that holds the configuration.
pub fn config_path(home: &str) -> (path: String)
    ensures
        path@ == joined_path(home@, "config.toml"@),
{
    join_path(home, "config.toml")
}

/// The directory of one installed runtime version.
pub fn version_dir(home: &str, version: &str) -> (dir: String)
    ensures
        dir@ == joined_path(joined_path(home@, "versions"@), version@),
{
    join_path(versions_dir(home).as_str(), version)
}

/// The binary of one installed runtime version.
pub fn version_binary(home: &str, version: &str) -> (path: String)
    ensures
        path@ == joined_path(joined_path(joined_path(home@, "versions"@), version@), "dora"@),
{
    join_path(version_dir(home, version).as_str(), "dora")
}

} // verus!
