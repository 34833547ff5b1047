//! Which release to fetch for a platform, and what to tell of the download.

use vstd::prelude::*;
use vstd::string::StringExecFns;
use crate::text::{
    contains, ends_with, occurs_in, starts_with, str_eq, trim_start_matches, without_leading,
};
use crate::types::{InstallMethod, InstallPhase, InstallProgress, InstallResult};
use crate::util::{human_size, size_text};

verus! {

/// A file of a release.
#[derive(Debug, Clone)]
pub struct GithubAsset {
    pub name: String,
    pub browser_download_url: String,
    pub size: u64,
}

/// A release of the runtime.
#[derive(Debug, Clone)]
pub struct GithubRelease {
    pub tag_name: String,
    pub assets: Vec<GithubAsset>,
}

/// The part of an asset's name that tells the platform it is for.
pub open spec fn platform_pattern(os: Seq<char>, arch: Seq<char>) -> Seq<char> {
    if os == "macos"@ && arch == "x86_64"@ {
        "x86_64-apple-darwin"@
    } else if os == "macos"@ && arch == "aarch64"@ {
        "aarch64-apple-darwin"@
    } else if os == "linux"@ && arch == "x86_64"@ {
        "x86_64-unknown-linux"@
    } else if os == "linux"@ && arch == "aarch64"@ {
        "aarch64-unknown-linux"@
    } else {
        "unknown-platform"@
    }
}

/// The parts of asset names to look for on a platform, the most wanted first.
pub fn platform_asset_patterns(os: &str, arch: &str) -> (patterns: Vec<&'static str>)
    ensures
        patterns@.len() == 1,
        patterns@[0]@ == platform_pattern(os@, arch@),
{
    let pattern = if str_eq(os, "macos") && str_eq(arch, "x86_64") {
        "x86_64-apple-darwin"
    } else if str_eq(os, "macos") && str_eq(arch, "aarch64") {
        "aarch64-apple-darwin"
    } else if str_eq(os, "linux") && str_eq(arch, "x86_64") {
        "x86_64-unknown-linux"
    } else if str_eq(os, "linux") && str_eq(arch, "aarch64") {
        "aarch64-unknown-linux"
    } else {
        "unknown-platform"
    };
    let mut patterns: Vec<&'static str> = Vec::new();
    patterns.push(pattern);
    patterns
}

/// The address that tells of a release: of the one tagged with the version,
/// with a `v` before it unless it begins so, or of the latest where no
/// version is given.
pub open spec fn release_address(version: Option<Seq<char>>) -> Seq<char> {
    match version {
        Some(v) => "https://api.github.com/repos/dora-rs/dora/releases/tags/"@ + if "v"@.is_prefix_of(
            v,
        ) {
            v
        } else {
            "v"@ + v
        },
        None => "https://api.github.com/repos/dora-rs/dora/releases/latest"@,
    }
}

/// The address that tells of a release.
pub fn release_url(version: Option<&str>) -> (url: String)
    ensures
        url@ == release_address(
            match version {
                Some(v) => Some(v@),
                None => None,
            },
        ),
{
    match version {
        Some(v) => {
            let mut url = String::from_str(
                "https://api.github.com/repos/dora-rs/dora/releases/tags/",
            );
            if !starts_with(v, "v") {
                url.append("v");
            }
            url.append(v);
            proof {
                let lead = "https://api.github.com/repos/dora-rs/dora/releases/tags/"@;
                assert(lead + ("v"@ + v@) =~= lead + "v"@ + v@);
            }
            url
        },
        None => String::from_str("https://api.github.com/repos/dora-rs/dora/releases/latest"),
    }
}

/// The version that a release tag stands for: the tag without the `v`s it begins with.
pub fn version_of_tag(tag: &str) -> (version: String)
    ensures
        version@ == without_leading(tag@, 'v'),
{
    trim_start_matches(tag, 'v').to_owned()
}

/// How an archive is packed, as its name tells.
#[derive(Debug, Clone, Copy, PartialEq, Eq, Structural)]
pub enum ArchiveKind {
    Tar,
    Zip,
    Unknown,
}

/// How an archive of the given name is packed.
pub open spec fn archive_kind_of(name: Seq<char>) -> ArchiveKind {
    if ".tar.gz"@.is_suffix_of(name) || ".tar.xz"@.is_suffix_of(name) {
        ArchiveKind::Tar
    } else if ".zip"@.is_suffix_of(name) {
        ArchiveKind::Zip
    } else {
        ArchiveKind::Unknown
    }
}

/// Tells from its name how an archive is packed.
pub fn archive_kind(name: &str) -> (kind: ArchiveKind)
    ensures
        kind == archive_kind_of(name@),
{
    if ends_with(name, ".tar.gz") || ends_with(name, ".tar.xz") {
        ArchiveKind::Tar
    } else if ends_with(name, ".zip") {
        ArchiveKind::Zip
    } else {
        ArchiveKind::Unknown
    }
}

/// Whether an asset of the given name is the runtime's command line tool
/// for the platform of `pattern`, in an archive that can be unpacked.
pub open spec fn asset_fits(name: Seq<char>, pattern: Seq<char>) -> bool {
    occurs_in(pattern, name) && occurs_in("dora-cli"@, name) && archive_kind_of(name)
        != ArchiveKind::Unknown
}

/// The names of a list of assets, in order.
pub open spec fn asset_names(assets: Seq<GithubAsset>) -> Seq<Seq<char>> {
    assets.map_values(|a: GithubAsset| a.name@)
}

/// The position of the first name that fits `pattern`.
pub open spec fn first_fit(names: Seq<Seq<char>>, pattern: Seq<char>) -> Option<int>
    decreases names.len(),
{
    if names.len() == 0 {
        None
    } else {
        match first_fit(names.drop_last(), pattern) {
            Some(i) => Some(i),
            None => if asset_fits(names.last(), pattern) {
                Some(names.len() - 1)
            } else {
                None
            },
        }
    }
}

/// The asset to fetch: for the first pattern that any asset fits, the
/// first asset that fits it.
pub open spec fn chosen_asset(names: Seq<Seq<char>>, patterns: Seq<Seq<char>>) -> Option<int>
    decreases patterns.len(),
{
    if patterns.len() == 0 {
        None
    } else {
        match first_fit(names, patterns[0]) {
            Some(i) => Some(i),
            None => chosen_asset(names, patterns.drop_first()),
        }
    }
}

/// Finds the first asset that fits a pattern.
fn find_fit(assets: &Vec<GithubAsset>, pattern: &str) -> (found: Option<usize>)
    ensures
        match found {
            Some(i) => first_fit(asset_names(assets@), pattern@) == Some(i as int) && i
                < assets@.len(),
            None => first_fit(asset_names(assets@), pattern@).is_none(),
        },
{
    let ghost names = asset_names(assets@);
    let mut i: usize = 0;
    assert(names.take(0) =~= Seq::<Seq<char>>::empty());
    while i < assets.len()
        invariant
            i <= assets@.len(),
            names == asset_names(assets@),
            first_fit(names.take(i as int), pattern@).is_none(),
        decreases assets@.len() - i,
    {
        proof {
            assert(names.take(i + 1).drop_last() == names.take(i as int));
            assert(names.take(i + 1).last() == assets@[i as int].name@);
        }
        let name = assets[i].name.as_str();
        if contains(name, pattern) && contains(name, "dora-cli") && archive_kind(name)
            != ArchiveKind::Unknown {
            proof {
                lemma_fit_stays(names, pattern@, i + 1);
            }
            return Some(i);
        }
        i = i + 1;
    }
    assert(names.take(i as int) == names);
    None
}

/// A fit among the first names is the fit among all of them.
proof fn lemma_fit_stays(names: Seq<Seq<char>>, pattern: Seq<char>, n: int)
    requires
        0 <= n <= names.len(),
        first_fit(names.take(n), pattern).is_some(),
    ensures
        first_fit(names, pattern) == first_fit(names.take(n), pattern),
    decreases names.len(),
{
    if n < names.len() {
        assert(names.drop_last().take(n) == names.take(n));
        lemma_fit_stays(names.drop_last(), pattern, n);
    } else {
        assert(names.take(n) == names);
    }
}

/// Chooses the asset to fetch for a platform; none where no asset fits any pattern.
pub fn select_asset(assets: &Vec<GithubAsset>, patterns: &Vec<&str>) -> (chosen: Option<usize>)
    ensures
        match chosen {
            Some(i) => chosen_asset(
                asset_names(assets@),
                patterns@.map_values(|p: &str| p@),
            ) == Some(i as int) && i < assets@.len(),
            None => chosen_asset(asset_names(assets@), patterns@.map_values(|p: &str| p@)).is_none(),
        },
{
    let ghost names = asset_names(assets@);
    let ghost all = patterns@.map_values(|p: &str| p@);
    let mut k: usize = 0;
    assert(all.skip(0) == all);
    while k < patterns.len()
        invariant
            k <= patterns@.len(),
            names == asset_names(assets@),
            all == patterns@.map_values(|p: &str| p@),
            chosen_asset(names, all) == chosen_asset(names, all.skip(k as int)),
        decreases patterns@.len() - k,
    {
        proof {
            assert(all.skip(k as int).drop_first() == all.skip(k + 1));
            assert(all.skip(k as int)[0] == patterns@[k as int]@);
        }
        match find_fit(assets, patterns[k]) {
            Some(i) => {
                return Some(i);
            },
            None => {},
        }
        k = k + 1;
    }
    None
}

/// The outcome of an installation: the version becomes the active one
/// exactly when none was active before.
pub fn install_result(version: String, method: InstallMethod, active_before: &Option<String>) -> (
    result: InstallResult
)
    ensures
        result.version == version,
        result.method == method,
        result.set_active == active_before.is_none(),
{
    InstallResult { version, method, set_active: active_before.is_none() }
}

/// What to tell when the download of an asset begins.
pub fn download_started(name: &str, size: u64) -> (progress: InstallProgress)
    ensures
        progress.phase == (InstallPhase::Downloading { bytes_done: 0, bytes_total: size }),
        progress.message@ == "Downloading "@ + name@ + " ("@ + size_text(size as nat) + ")"@,
{
    let mut message = String::from_str("Downloading ");
    message.append(name);
    message.append(" (");
    message.append(human_size(size).as_str());
    message.append(")");
    InstallProgress { phase: InstallPhase::Downloading { bytes_done: 0, bytes_total: size }, message }
}

/// What to tell while an asset is being downloaded.
pub fn download_progress(bytes_done: u64, bytes_total: u64) -> (progress: InstallProgress)
    ensures
        progress.phase == (InstallPhase::Downloading { bytes_done, bytes_total }),
        progress.message@ == "Downloading: "@ + size_text(bytes_done as nat) + "/"@ + size_text(
            bytes_total as nat,
        ),
{
    let mut message = String::from_str("Downloading: ");
    message.append(human_size(bytes_done).as_str());
    message.append("/");
    message.append(human_size(bytes_total).as_str());
    InstallProgress { phase: InstallPhase::Downloading { bytes_done, bytes_total }, message }
}

} // verus!
