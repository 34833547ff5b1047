//! What is known of the prerequisites of the environment.

use vstd::prelude::*;
use vstd::string::StringExecFns;
use crate::text::option_text;
use crate::types::EnvItem;

verus! {

/// The commands that may run Python, the most wanted first.
pub fn python_commands() -> (commands: Vec<&'static str>)
    ensures
        commands@.len() == 3,
        commands@[0]@ == "python3.11"@,
        commands@[1]@ == "python3"@,
        commands@[2]@ == "python"@,
{
    let mut commands: Vec<&'static str> = Vec::new();
    commands.push("python3.11");
    commands.push("python3");
    commands.push("python");
    commands
}

/// A prerequisite that was found at `path` and says `version` of itself.
pub fn found_item(name: &str, path: String, version: String) -> (item: EnvItem)
    ensures
        item.name@ == name@,
        item.found,
        item.path == Some(path),
        item.version == Some(version),
        item.suggestion.is_none(),
{
    EnvItem {
        name: String::from_str(name),
        found: true,
        path: Some(path),
        version: Some(version),
        suggestion: None,
    }
}

/// A prerequisite that was not found, with what to do about it.
pub fn missing_item(name: &str, suggestion: &str) -> (item: EnvItem)
    ensures
        item.name@ == name@,
        !item.found,
        item.path.is_none(),
        item.version.is_none(),
        option_text(item.suggestion) == Some(suggestion@),
{
    EnvItem {
        name: String::from_str(name),
        found: false,
        path: None,
        version: None,
        suggestion: Some(String::from_str(suggestion)),
    }
}

/// What is known of a prerequisite, given where it was found and what it
/// says of its version.
pub fn env_item(name: &str, found: Option<(String, String)>, suggestion: &str) -> (item: EnvItem)
    ensures
        item.name@ == name@,
        item.found == found.is_some(),
        match found {
            Some(at) => item.path == Some(at.0) && item.version == Some(at.1)
                && item.suggestion.is_none(),
            None => item.path.is_none() && item.version.is_none() && option_text(item.suggestion)
                == Some(suggestion@),
        },
{
    match found {
        Some(at) => found_item(name, at.0, at.1),
        None => missing_item(name, suggestion),
    }
}

/// What is known of Python.
pub fn python_item(found: Option<(String, String)>) -> (item: EnvItem)
    ensures
        item.name@ == "Python"@,
        item.found == found.is_some(),
        found.is_none() ==> option_text(item.suggestion) == Some(
            "Install Python 3.11+: https://www.python.org/downloads/"@,
        ),
{
    env_item("Python", found, "Install Python 3.11+: https://www.python.org/downloads/")
}

/// What is known of uv.
pub fn uv_item(found: Option<(String, String)>) -> (item: EnvItem)
    ensures
        item.name@ == "uv"@,
        item.found == found.is_some(),
        found.is_none() ==> option_text(item.suggestion) == Some("Install uv: pip install uv"@),
{
    env_item("uv", found, "Install uv: pip install uv")
}

/// What is known of Rust.
pub fn rust_item(found: Option<(String, String)>) -> (item: EnvItem)
    ensures
        item.name@ == "Rust"@,
        item.found == found.is_some(),
        found.is_none() ==> option_text(item.suggestion) == Some(
            "Optional. Install: https://rustup.rs"@,
        ),
{
    env_item("Rust", found, "Optional. Install: https://rustup.rs")
}

} // verus!
