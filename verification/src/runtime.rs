//! Decisions about the runtime: which binary is active, whether a version
//! may go, and when to stop waiting for the runtime to come up or go down.

use vstd::prelude::*;
use vstd::string::StringExecFns;
use crate::config::version_binary;
use crate::paths::joined_path;
use crate::text::{option_text, str_eq, trim, trimmed_of};
use crate::types::RuntimeResult;

verus! {

/// The binary of the active runtime version below `home`.
pub open spec fn active_binary(home: Seq<char>, version: Seq<char>) -> Seq<char> {
    joined_path(joined_path(joined_path(home, "versions"@), version), "dora"@)
}

/// Where the binary of the active runtime version lies; words that say
/// what to do where no version is active.
pub fn active_binary_path(home: &str, active_version: &Option<String>) -> (path: Result<
    String,
    String,
>)
    ensures
        match path {
            Ok(p) => active_version.is_some() && p@ == active_binary(
                home@,
                active_version.unwrap()@,
            ),
            Err(why) => active_version.is_none() && why@
                == "No active dora version. Run `dm install` first."@,
        },
{
    match active_version {
        Some(version) => Ok(version_binary(home, version.as_str())),
        None => Err(String::from_str("No active dora version. Run `dm install` first.")),
    }
}

/// What to say where the binary of the active version is not there.
pub fn binary_missing_message(path: &str, version: &str) -> (msg: String)
    ensures
        msg@ == "dora binary not found at "@ + path@ + ". Run `dm install "@ + version@
            + "` to fix."@,
{
    let mut msg = String::from_str("dora binary not found at ");
    msg.append(path);
    msg.append(". Run `dm install ");
    msg.append(version);
    msg.append("` to fix.");
    msg
}

/// Why a version may not be removed, if it may not: it is not installed,
/// or it is the active one.
pub open spec fn removal_refused(version: Seq<char>, installed: bool, active: Option<Seq<char>>) -> Option<
    Seq<char>,
> {
    if !installed {
        Some("Version "@ + version + " is not installed."@)
    } else if active == Some(version) {
        Some("Cannot uninstall active version "@ + version + ". Run `dm use <other>` first."@)
    } else {
        None
    }
}

/// Decides whether a version may be removed.
pub fn check_removal(version: &str, installed: bool, active: &Option<String>) -> (refused: Option<
    String,
>)
    ensures
        option_text(refused) == removal_refused(version@, installed, option_text(*active)),
{
    if !installed {
        let mut msg = String::from_str("Version ");
        msg.append(version);
        msg.append(" is not installed.");
        return Some(msg);
    }
    let is_active = match active {
        Some(a) => str_eq(a.as_str(), version),
        None => false,
    };
    if is_active {
        let mut msg = String::from_str("Cannot uninstall active version ");
        msg.append(version);
        msg.append(". Run `dm use <other>` first.");
        Some(msg)
    } else {
        None
    }
}

/// What to say where a version that is to become active is not installed.
pub fn not_installed_message(version: &str) -> (msg: String)
    ensures
        msg@ == "Version "@ + version@ + " is not installed. Run `dm install "@ + version@
            + "` first."@,
{
    let mut msg = String::from_str("Version ");
    msg.append(version);
    msg.append(" is not installed. Run `dm install ");
    msg.append(version);
    msg.append("` first.");
    msg
}

/// What to do after a look at the runtime: look again later, or stop with a result.
#[derive(Debug, Clone)]
pub enum Wait {
    Again,
    Done(RuntimeResult),
}

/// How often to look whether the runtime has come up.
pub const UP_ATTEMPTS: u32 = 10;

/// How often to look whether the runtime has gone down.
pub const DOWN_ATTEMPTS: u32 = 3;

/// After the runtime was started and looked at for the `attempt`th time:
/// it failed where its process ended in failure, with what the process
/// wrote as its error; it succeeded where it answers; and where neither
/// holds, it is looked at again, up to `UP_ATTEMPTS` times.
pub fn up_step(attempt: u32, failure: Option<String>, running: bool) -> (next: Wait)
    ensures
        match next {
            Wait::Done(result) => match failure {
                Some(stderr) => !result.success && result.message@ == trimmed_of(stderr@),
                None => if running {
                    result.success && result.message@ == "Dora runtime started successfully."@
                } else {
                    attempt >= UP_ATTEMPTS && !result.success && result.message@
                        == "Timed out waiting for dora runtime to start."@
                },
            },
            Wait::Again => failure.is_none() && !running && attempt < UP_ATTEMPTS,
        },
{
    match failure {
        Some(stderr) => Wait::Done(
            RuntimeResult { success: false, message: trim(stderr.as_str()).to_owned() },
        ),
        None => {
            if running {
                Wait::Done(
                    RuntimeResult {
                        success: true,
                        message: String::from_str("Dora runtime started successfully."),
                    },
                )
            } else if attempt >= UP_ATTEMPTS {
                Wait::Done(
                    RuntimeResult {
                        success: false,
                        message: String::from_str("Timed out waiting for dora runtime to start."),
                    },
                )
            } else {
                Wait::Again
            }
        },
    }
}

/// What the command that stops the runtime says of itself: nothing to
/// wait for where it exited with failure, which is then the result.
pub fn down_started(code: i32, stderr: &str) -> (failed: Option<RuntimeResult>)
    ensures
        match failed {
            Some(result) => code != 0 && !result.success && result.message@ == trimmed_of(stderr@),
            None => code == 0,
        },
{
    if code != 0 {
        Some(RuntimeResult { success: false, message: trim(stderr).to_owned() })
    } else {
        None
    }
}

/// After the runtime was told to stop and looked at for the `attempt`th
/// time: it is down where it no longer answers, with what the stopping
/// command wrote as the message; else it is looked at again, up to
/// `DOWN_ATTEMPTS` times.
pub fn down_step(attempt: u32, running: bool, stdout: &str) -> (next: Wait)
    ensures
        match next {
            Wait::Done(result) => if running {
                attempt >= DOWN_ATTEMPTS && !result.success && result.message@
                    == "dora destroy returned success but runtime is still running."@
            } else {
                result.success && result.message@ == trimmed_of(stdout@)
            },
            Wait::Again => running && attempt < DOWN_ATTEMPTS,
        },
{
    if !running {
        Wait::Done(RuntimeResult { success: true, message: trim(stdout).to_owned() })
    } else if attempt >= DOWN_ATTEMPTS {
        Wait::Done(
            RuntimeResult {
                success: false,
                message: String::from_str(
                    "dora destroy returned success but runtime is still running.",
                ),
            },
        )
    } else {
        Wait::Again
    }
}

} // verus!
