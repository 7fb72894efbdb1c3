use pactup::ls_remote::{
    filter_releases, get_latest_version, sort_releases, Error, SortingMethod, VersionInfo,
};
use pactup::remote_index::{Asset, Release};
use pactup::system_info::{Platform, PlatformArch, PlatformOS};
use pactup::user_version::UserVersion;
use pactup::version::Version;

fn create_test_release(version: &str, prerelease: bool, draft: bool) -> Release {
    Release {
        tag: Version::parse(version).unwrap(),
        assets: vec![],
        prerelease,
        draft,
    }
}

fn create_test_asset(name: &str) -> Asset {
    Asset {
        download_url: format!("https://example.com/download/{name}"),
    }
}

fn linux_x64() -> Platform {
    Platform(PlatformOS::Linux, PlatformArch::X64)
}

#[test]
fn test_sorting() {
    let versions = vec![
        create_test_release("4.13.0", false, false),
        create_test_release("4.10.0", false, false),
        create_test_release("4.12.0", false, false),
    ];

    let versions = sort_releases(versions, SortingMethod::Ascending);

    assert_eq!(versions[0].tag.v_str(), "v4.10.0");
    assert_eq!(versions[1].tag.v_str(), "v4.12.0");
    assert_eq!(versions[2].tag.v_str(), "v4.13.0");
}

#[test]
fn test_sorting_descending() {
    let versions = vec![
        create_test_release("4.10.0", false, false),
        create_test_release("4.13.0", false, false),
        create_test_release("4.12.0", false, false),
    ];

    let versions = sort_releases(versions, SortingMethod::Descending);

    assert_eq!(versions[0].tag.v_str(), "v4.13.0");
    assert_eq!(versions[1].tag.v_str(), "v4.12.0");
    assert_eq!(versions[2].tag.v_str(), "v4.10.0");
}

#[test]
fn test_latest_version() {
    let versions = vec![
        create_test_release("4.10.0", false, false),
        create_test_release("4.13.0", false, false),
        create_test_release("4.12.0", false, false),
    ];

    let latest = get_latest_version(&versions).unwrap();
    assert_eq!(latest.tag.v_str(), "v4.13.0");
}

#[test]
fn test_empty_versions() {
    let versions: Vec<Release> = vec![];
    let result = get_latest_version(&versions);
    assert!(matches!(result, Err(Error::NoVersionsAvailable)));
}

#[test]
fn test_version_info_display() {
    let mut release = create_test_release("4.13.0", true, true);
    release.assets = vec![create_test_asset("pact-4.13.0-linux-x64.tar.gz")];

    let info = VersionInfo::new(&release, &linux_x64());
    assert!(info.display().contains("(draft)"));
    assert!(info.display().contains("(prerelease)"));
}

#[test]
fn test_version_info_with_no_annotations() {
    let mut release = create_test_release("4.13.0", false, false);
    release.assets = vec![
        create_test_asset("pact-4.13.0-linux-x64.tar.gz"),
        create_test_asset("pact-4.13.0-macos-x64.tar.gz"),
        create_test_asset("pact-4.13.0-windows-x64.tar.gz"),
        create_test_asset("pact-4.13.0-darwin-aarch64.tar.gz"),
    ];
    let info = VersionInfo::new(&release, &linux_x64());
    assert_eq!(info.display(), "v4.13.0");
}

#[test]
fn test_version_info_with_supported_asset() {
    let mut release = create_test_release("4.13.0", false, false);
    release.assets = vec![
        create_test_asset("pact-4.13.0-linux-x64.tar.gz"),
        create_test_asset("pact-4.13.0-macos-x64.tar.gz"),
        create_test_asset("pact-4.13.0-windows-x64.tar.gz"),
    ];
    let info = VersionInfo::new(&release, &linux_x64());
    assert!(!info.display().contains("can't install"));
}

#[test]
fn test_pact_v5_x_x() {
    let mut release = create_test_release("5.0.0", false, false);
    release.assets = vec![
        create_test_asset("pact-5.0.0-linux-x64.tar.gz"),
        create_test_asset("pact-5.0.0-darwin-aarch64.tar.gz"),
        create_test_asset("pact-5.0.0-windows-x64.tar.gz"),
    ];
    let info = VersionInfo::new(&release, &linux_x64());
    assert!(!info.display().contains("can't install"));
}

#[test]
fn test_version_info_uninstallable() {
    let release = create_test_release("4.13.0", false, false);
    let info = VersionInfo::new(&release, &linux_x64());
    assert!(info.display().contains("can't install"));
}

#[test]
fn test_filtering_keeps_matching_releases_in_order() {
    let releases = vec![
        create_test_release("4.11.0", false, false),
        create_test_release("4.12.1", false, false),
        create_test_release("4.12.3", false, false),
        create_test_release("4.13.0", false, false),
    ];
    let filter = UserVersion::from_str("4.12").unwrap();
    let aliases = Vec::new();
    let kept = filter_releases(releases, &filter, &aliases);
    let names: Vec<String> = kept.iter().map(|r| r.tag.v_str()).collect();
    assert_eq!(names, vec!["v4.12.1".to_string(), "v4.12.3".to_string()]);
}

#[test]
fn test_filter_sort_latest_pipeline() {
    // A remote listing narrowed to one minor line, newest first, top entry.
    let releases = vec![
        create_test_release("4.11.0", false, false),
        create_test_release("4.12.1", false, false),
        create_test_release("4.12.3", false, false),
        create_test_release("4.13.0", false, false),
    ];
    let filter = UserVersion::from_str("4.12").unwrap();
    let aliases = Vec::new();
    let kept = filter_releases(releases, &filter, &aliases);
    let ordered = sort_releases(kept, SortingMethod::Descending);
    let latest = get_latest_version(&ordered).unwrap();
    assert_eq!(latest.tag.v_str(), "v4.12.3");
    assert_eq!(ordered[0].tag.v_str(), "v4.12.3");
}
