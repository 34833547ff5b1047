use dm_core::install::{
    archive_kind, download_progress, download_started, install_result, platform_asset_patterns,
    release_url, select_asset, version_of_tag, ArchiveKind, GithubAsset,
};
use dm_core::types::{InstallMethod, InstallPhase};

#[test]
fn platform_asset_patterns_is_not_empty() {
    assert!(!platform_asset_patterns("linux", "x86_64").is_empty());
    assert!(!platform_asset_patterns("plan9", "mips").is_empty());
}

#[test]
fn platform_patterns_by_platform() {
    assert_eq!(platform_asset_patterns("macos", "x86_64"), vec!["x86_64-apple-darwin"]);
    assert_eq!(platform_asset_patterns("macos", "aarch64"), vec!["aarch64-apple-darwin"]);
    assert_eq!(platform_asset_patterns("linux", "x86_64"), vec!["x86_64-unknown-linux"]);
    assert_eq!(platform_asset_patterns("linux", "aarch64"), vec!["aarch64-unknown-linux"]);
    assert_eq!(platform_asset_patterns("windows", "x86_64"), vec!["unknown-platform"]);
    assert_eq!(platform_asset_patterns("linux", "riscv64"), vec!["unknown-platform"]);
}

#[test]
fn release_url_adds_the_v() {
    assert_eq!(release_url(Some("0.4.1")), "https://api.github.com/repos/dora-rs/dora/releases/tags/v0.4.1");
    assert_eq!(release_url(Some("v0.4.1")), "https://api.github.com/repos/dora-rs/dora/releases/tags/v0.4.1");
    assert_eq!(release_url(None), "https://api.github.com/repos/dora-rs/dora/releases/latest");
}

#[test]
fn version_of_tag_drops_leading_vs() {
    assert_eq!(version_of_tag("v0.4.1"), "0.4.1");
    assert_eq!(version_of_tag("0.4.1"), "0.4.1");
    assert_eq!(version_of_tag("vv1"), "1");
    assert_eq!(version_of_tag("v"), "");
}

#[test]
fn archive_kind_by_name() {
    assert_eq!(archive_kind("dora-cli-x86_64-unknown-linux-gnu.tar.gz"), ArchiveKind::Tar);
    assert_eq!(archive_kind("a.tar.xz"), ArchiveKind::Tar);
    assert_eq!(archive_kind("a.zip"), ArchiveKind::Zip);
    assert_eq!(archive_kind("a.tar"), ArchiveKind::Unknown);
}

fn asset(name: &str) -> GithubAsset {
    GithubAsset { name: name.to_string(), browser_download_url: format!("https://x/{name}"), size: 1 }
}

#[test]
fn select_asset_takes_first_fit_of_first_pattern() {
    let assets = vec![
        asset("dora-cli-aarch64-apple-darwin.tar.gz"),
        asset("dora-daemon-x86_64-unknown-linux-gnu.tar.gz"),
        asset("dora-cli-x86_64-unknown-linux-gnu.sha256"),
        asset("dora-cli-x86_64-unknown-linux-gnu.tar.gz"),
        asset("dora-cli-x86_64-unknown-linux-musl.zip"),
    ];
    assert_eq!(select_asset(&assets, &vec!["x86_64-unknown-linux"]), Some(3));
    assert_eq!(select_asset(&assets, &vec!["riscv", "aarch64-apple-darwin", "x86_64-unknown-linux"]), Some(0));
    assert_eq!(select_asset(&assets, &vec!["unknown-platform"]), None);
    assert_eq!(select_asset(&assets, &vec![]), None);
    assert_eq!(select_asset(&vec![], &vec!["x86_64-unknown-linux"]), None);
}

#[test]
fn install_result_sets_active_when_none_was() {
    let first = install_result("0.4.1".to_string(), InstallMethod::Binary, &None);
    assert!(first.set_active);
    assert_eq!(first.version, "0.4.1");
    assert!(matches!(first.method, InstallMethod::Binary));
    let second = install_result("0.4.2".to_string(), InstallMethod::Source, &Some("0.4.1".to_string()));
    assert!(!second.set_active);
    assert!(matches!(second.method, InstallMethod::Source));
}

#[test]
fn download_messages() {
    let started = download_started("dora-cli.tar.gz", 5_500_000);
    assert_eq!(started.message, "Downloading dora-cli.tar.gz (5.2 MiB)");
    assert!(matches!(started.phase, InstallPhase::Downloading { bytes_done: 0, bytes_total: 5_500_000 }));
    let progress = download_progress(1536, 10240);
    assert_eq!(progress.message, "Downloading: 1.5 KiB/10.0 KiB");
    assert!(matches!(progress.phase, InstallPhase::Downloading { bytes_done: 1536, bytes_total: 10240 }));
}
