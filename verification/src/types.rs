//! The reports that the manager hands to its callers.

use vstd::prelude::*;
use crate::text::{contains_text, option_text, str_eq, texts, trim, trimmed_of};

verus! {

/// The outcome of looking for one prerequisite of the environment.
#[derive(Debug, Clone)]
pub struct EnvItem {
    pub name: String,
    pub found: bool,
    pub path: Option<String>,
    pub version: Option<String>,
    pub suggestion: Option<String>,
}

/// The health of the whole environment.
#[derive(Debug, Clone)]
pub struct DoctorReport {
    pub python: EnvItem,
    pub uv: EnvItem,
    pub rust: EnvItem,
    pub installed_versions: Vec<InstalledVersion>,
    pub active_version: Option<String>,
    pub active_binary_ok: bool,
    pub all_ok: bool,
}

/// An installed runtime version, and whether it is the active one.
#[derive(Debug, Clone)]
pub struct InstalledVersion {
    pub version: String,
    pub active: bool,
}

/// A released runtime version, and whether it is installed.
#[derive(Debug, Clone)]
pub struct AvailableVersion {
    pub tag: String,
    pub installed: bool,
}

/// The installed and the available runtime versions.
#[derive(Debug, Clone)]
pub struct VersionsReport {
    pub installed: Vec<InstalledVersion>,
    pub available: Vec<AvailableVersion>,
}

/// The phases of an installation.
#[derive(Debug, Clone)]
pub enum InstallPhase {
    Fetching,
    Downloading { bytes_done: u64, bytes_total: u64 },
    Extracting,
    Building,
    Done,
}

/// A progress message of an installation.
#[derive(Debug, Clone)]
pub struct InstallProgress {
    pub phase: InstallPhase,
    pub message: String,
}

/// How a runtime version was installed.
#[derive(Debug, Clone)]
pub enum InstallMethod {
    Binary,
    Source,
}

/// The outcome of a successful installation.
#[derive(Debug, Clone)]
pub struct InstallResult {
    pub version: String,
    pub method: InstallMethod,
    pub set_active: bool,
}

/// The outcome of starting or stopping the runtime.
#[derive(Debug, Clone)]
pub struct RuntimeResult {
    pub success: bool,
    pub message: String,
}

/// An overview of the runtime.
#[derive(Debug, Clone)]
pub struct StatusReport {
    pub active_version: Option<String>,
    pub actual_version: Option<String>,
    pub dm_home: String,
    pub runtime_running: bool,
    pub runtime_output: String,
    pub dataflows: Vec<String>,
}

/// The outcome of setting the environment up.
#[derive(Debug, Clone)]
pub struct SetupReport {
    pub python_installed: bool,
    pub uv_installed: bool,
    pub dora_installed: bool,
    pub dora_version: Option<String>,
}

/// Puts a health report together. The environment is in order exactly when
/// Python and uv were found, a runtime version is active, and its binary is there.
pub fn doctor_report(
    python: EnvItem,
    uv: EnvItem,
    rust: EnvItem,
    installed_versions: Vec<InstalledVersion>,
    active_version: Option<String>,
    active_binary_ok: bool,
) -> (report: DoctorReport)
    ensures
        report.python == python,
        report.uv == uv,
        report.rust == rust,
        report.installed_versions == installed_versions,
        report.active_version == active_version,
        report.active_binary_ok == active_binary_ok,
        report.all_ok == (python.found && uv.found && active_version.is_some() && active_binary_ok),
{
    let all_ok = python.found && uv.found && active_version.is_some() && active_binary_ok;
    DoctorReport { python, uv, rust, installed_versions, active_version, active_binary_ok, all_ok }
}

/// The installed versions among `names`, in order, each marked active
/// exactly when it is `active`.
pub open spec fn marked_versions(names: Seq<Seq<char>>, active: Option<Seq<char>>) -> Seq<
    (Seq<char>, bool),
> {
    names.map_values(|n: Seq<char>| (n, active == Some(n)))
}

/// What a list of installed versions holds.
pub open spec fn installed_view(versions: Seq<InstalledVersion>) -> Seq<(Seq<char>, bool)> {
    versions.map_values(|v: InstalledVersion| (v.version@, v.active))
}

/// Marks each installed version as active or not.
pub fn mark_installed(names: &Vec<String>, active: &Option<String>) -> (versions: Vec<
    InstalledVersion,
>)
    ensures
        installed_view(versions@) == marked_versions(texts(names@), option_text(*active)),
{
    let ghost want = marked_versions(texts(names@), option_text(*active));
    let mut versions: Vec<InstalledVersion> = Vec::new();
    let mut i: usize = 0;
    while i < names.len()
        invariant
            i <= names@.len(),
            versions@.len() == i,
            want == marked_versions(texts(names@), option_text(*active)),
            forall|k: int| 0 <= k < i ==> #[trigger] installed_view(versions@)[k] == want[k],
        decreases names@.len() - i,
    {
        let is_active = match active {
            Some(a) => str_eq(a.as_str(), names[i].as_str()),
            None => false,
        };
        let ghost before = versions@;
        versions.push(InstalledVersion { version: names[i].clone(), active: is_active });
        proof {
            assert forall|k: int| 0 <= k < i + 1 implies #[trigger] installed_view(versions@)[k]
                == want[k] by {
                if k < i {
                    assert(installed_view(before)[k] == want[k]);
                }
            }
        }
        i = i + 1;
    }
    assert(installed_view(versions@) =~= want);
    versions
}

/// What a list of available versions holds.
pub open spec fn available_view(versions: Seq<AvailableVersion>) -> Seq<(Seq<char>, bool)> {
    versions.map_values(|v: AvailableVersion| (v.tag@, v.installed))
}

/// The released versions among `tags`, in order, each marked installed
/// exactly when it is among `installed`.
pub open spec fn marked_releases(tags: Seq<Seq<char>>, installed: Seq<Seq<char>>) -> Seq<
    (Seq<char>, bool),
> {
    tags.map_values(|t: Seq<char>| (t, installed.contains(t)))
}

/// Marks each released version as installed or not.
pub fn mark_available(tags: &Vec<String>, installed: &Vec<String>) -> (versions: Vec<
    AvailableVersion,
>)
    ensures
        available_view(versions@) == marked_releases(texts(tags@), texts(installed@)),
{
    let ghost want = marked_releases(texts(tags@), texts(installed@));
    let mut versions: Vec<AvailableVersion> = Vec::new();
    let mut i: usize = 0;
    while i < tags.len()
        invariant
            i <= tags@.len(),
            versions@.len() == i,
            want == marked_releases(texts(tags@), texts(installed@)),
            forall|k: int| 0 <= k < i ==> #[trigger] available_view(versions@)[k] == want[k],
        decreases tags@.len() - i,
    {
        let is_installed = contains_text(installed, tags[i].as_str());
        let ghost before = versions@;
        versions.push(AvailableVersion { tag: tags[i].clone(), installed: is_installed });
        proof {
            assert forall|k: int| 0 <= k < i + 1 implies #[trigger] available_view(versions@)[k]
                == want[k] by {
                if k < i {
                    assert(available_view(before)[k] == want[k]);
                }
            }
        }
        i = i + 1;
    }
    assert(available_view(versions@) =~= want);
    versions
}

/// Puts the report of versions together: the installed versions, each
/// marked active or not, and the released versions, each marked installed or not.
pub fn versions_report(names: &Vec<String>, active: &Option<String>, tags: &Vec<String>) -> (report:
    VersionsReport)
    ensures
        installed_view(report.installed@) == marked_versions(texts(names@), option_text(*active)),
        available_view(report.available@) == marked_releases(texts(tags@), texts(names@)),
{
    VersionsReport { installed: mark_installed(names, active), available: mark_available(tags, names) }
}

/// The report of a home without an active runtime version.
pub fn idle_status(dm_home: String) -> (report: StatusReport)
    ensures
        report.active_version.is_none(),
        report.actual_version.is_none(),
        report.dm_home == dm_home,
        !report.runtime_running,
        report.runtime_output@.len() == 0,
        report.dataflows@.len() == 0,
{
    StatusReport {
        active_version: None,
        actual_version: None,
        dm_home,
        runtime_running: false,
        runtime_output: String::new(),
        dataflows: Vec::new(),
    }
}

/// What the runtime's health check says: it runs exactly when the check
/// exited with zero, and its words are the trimmed standard output then,
/// the trimmed standard error otherwise.
pub fn runtime_health(code: i32, stdout: &str, stderr: &str) -> (health: (bool, String))
    ensures
        health.0 == (code == 0),
        health.1@ == trimmed_of(if code == 0 { stdout@ } else { stderr@ }),
{
    if code == 0 {
        (true, trim(stdout).to_owned())
    } else {
        (false, trim(stderr).to_owned())
    }
}

/// Puts a setup report together.
pub fn setup_report(
    python_installed: bool,
    uv_installed: bool,
    active_version: Option<String>,
    installed_now: Option<String>,
) -> (report: SetupReport)
    ensures
        report.python_installed == python_installed,
        report.uv_installed == uv_installed,
        report.dora_installed == (active_version.is_some() || installed_now.is_some()),
        report.dora_version == if active_version.is_some() {
            active_version
        } else {
            installed_now
        },
{
    let dora_version = if active_version.is_some() {
        active_version
    } else {
        installed_now
    };
    SetupReport {
        python_installed,
        uv_installed,
        dora_installed: dora_version.is_some(),
        dora_version,
    }
}

} // verus!
