use pactup::archive::Archive;
use pactup::installer::{
    release_query, resolve_version, InstallAction, InstallError, InstallEvent, InstallFlow,
    InstallState, ReleaseQuery, ResolveError,
};
use pactup::system_info::PlatformArch;
use pactup::user_version::UserVersion;
use pactup::version::Version;

fn semver(major: u64, minor: u64, patch: u64) -> Version {
    Version::Semver { major, minor, patch }
}

#[test]
fn test_resolve_version() {
    let v = UserVersion::from_str("4.13.0").unwrap();
    let test_cases: Vec<(Option<&UserVersion>, bool, bool, Result<Option<UserVersion>, ResolveError>)> = vec![
        (Some(&v), false, false, Ok(Some(UserVersion::from_str("4.13.0").unwrap()))),
        (
            None,
            true,
            false,
            Ok(Some(UserVersion::Full(Version::Nightly("nightly".to_string())))),
        ),
        (None, false, true, Ok(Some(UserVersion::Full(Version::Latest)))),
        (Some(&v), true, false, Err(ResolveError::TooManyVersionsProvided)),
    ];

    for (version, nightly, latest, expected) in test_cases {
        assert_eq!(
            format!("{:?}", resolve_version(version, nightly, latest)),
            format!("{:?}", expected)
        );
    }
}

#[test]
fn test_resolve_version_nothing_given() {
    assert!(matches!(resolve_version(None, false, false), Ok(None)));
}

#[test]
fn test_uninstallable_version() {
    let selector = UserVersion::Full(Version::Bypassed);
    let query = release_query(&selector);
    assert!(matches!(query, ReleaseQuery::Uninstallable(_)));

    let alias = UserVersion::Full(Version::Alias("lts".to_string()));
    assert!(matches!(release_query(&alias), ReleaseQuery::Uninstallable(_)));
}

#[test]
fn test_too_many_versions() {
    let v = UserVersion::from_str("4.13.0").unwrap();
    let result = resolve_version(Some(&v), true, false);
    assert!(matches!(result, Err(ResolveError::TooManyVersionsProvided)));
}

#[test]
fn test_release_query_kinds() {
    assert!(matches!(
        release_query(&UserVersion::Full(Version::Nightly("dev".to_string()))),
        ReleaseQuery::ByTag(t) if t == "dev"
    ));
    assert!(matches!(
        release_query(&UserVersion::Full(Version::Latest)),
        ReleaseQuery::Latest
    ));
    assert!(matches!(
        release_query(&UserVersion::Full(semver(4, 13, 0))),
        ReleaseQuery::MatchInList
    ));
    assert!(matches!(
        release_query(&UserVersion::OnlyMajor(4)),
        ReleaseQuery::MatchInList
    ));
}

fn fresh_flow(force: bool) -> InstallFlow {
    InstallFlow::start(
        semver(4, 13, 0),
        "https://example.com/download/pact-4.13.0-linux-x64.tar.gz".to_string(),
        "/base/pact-versions",
        PlatformArch::X64,
        force,
    )
}

#[test]
fn test_install_already_installed_stops_without_actions() {
    let flow = fresh_flow(false);
    let (flow, action) = flow.step(InstallEvent::TargetExists(true));
    assert_eq!(action, InstallAction::Stop);
    match flow.state {
        InstallState::Failed(InstallError::AlreadyInstalled { path }) => {
            assert_eq!(path, "/base/pact-versions/v4.13.0");
        }
        other => panic!("unexpected state: {:?}", other),
    }
}

#[test]
fn test_install_force_removes_target_first() {
    let flow = fresh_flow(true);
    let (flow, action) = flow.step(InstallEvent::TargetExists(true));
    assert_eq!(action, InstallAction::RemoveTargetDir);
    assert!(matches!(flow.state, InstallState::Removing));
    let (flow, action) = flow.step(InstallEvent::Removed(true));
    assert_eq!(action, InstallAction::PrepareStaging);
    assert!(matches!(flow.state, InstallState::Staging));
}

#[test]
fn test_install_happy_path_publishes_once() {
    let flow = fresh_flow(false);
    let (flow, action) = flow.step(InstallEvent::TargetExists(false));
    assert_eq!(action, InstallAction::PrepareStaging);
    let (flow, action) = flow.step(InstallEvent::StagingReady(true));
    assert_eq!(action, InstallAction::Download);
    let (flow, action) = flow.step(InstallEvent::Status(200));
    assert_eq!(action, InstallAction::ExtractInto { kind: Archive::TarGz });
    let (flow, action) = flow.step(InstallEvent::Extracted(true));
    assert_eq!(action, InstallAction::CheckNonEmpty);
    let (flow, action) = flow.step(InstallEvent::NonEmpty(true));
    assert_eq!(action, InstallAction::NormalizeAndPublish);
    let (flow, action) = flow.step(InstallEvent::Published(true));
    assert_eq!(action, InstallAction::Stop);
    assert!(matches!(flow.state, InstallState::Done));
}

#[test]
fn test_install_missing_release_cleans_staging() {
    let flow = fresh_flow(false);
    let (flow, _) = flow.step(InstallEvent::TargetExists(false));
    let (flow, _) = flow.step(InstallEvent::StagingReady(true));
    let (flow, action) = flow.step(InstallEvent::Status(404));
    assert_eq!(action, InstallAction::CleanupStaging);
    assert!(matches!(
        flow.state,
        InstallState::Failed(InstallError::VersionNotFound { .. })
    ));
}

#[test]
fn test_install_http_error_cleans_staging() {
    let flow = fresh_flow(false);
    let (flow, _) = flow.step(InstallEvent::TargetExists(false));
    let (flow, _) = flow.step(InstallEvent::StagingReady(true));
    let (flow, action) = flow.step(InstallEvent::Status(500));
    assert_eq!(action, InstallAction::CleanupStaging);
    assert!(matches!(
        flow.state,
        InstallState::Failed(InstallError::HttpStatus { status: 500 })
    ));
}

#[test]
fn test_install_empty_archive_cleans_staging() {
    let flow = fresh_flow(false);
    let (flow, _) = flow.step(InstallEvent::TargetExists(false));
    let (flow, _) = flow.step(InstallEvent::StagingReady(true));
    let (flow, _) = flow.step(InstallEvent::Status(200));
    let (flow, _) = flow.step(InstallEvent::Extracted(true));
    let (flow, action) = flow.step(InstallEvent::NonEmpty(false));
    assert_eq!(action, InstallAction::CleanupStaging);
    assert!(matches!(
        flow.state,
        InstallState::Failed(InstallError::TarIsEmpty)
    ));
}

#[test]
fn test_install_unknown_archive_type() {
    let flow = InstallFlow::start(
        semver(4, 13, 0),
        "https://example.com/download/pact-4.13.0-linux-x64.rar".to_string(),
        "/base/pact-versions",
        PlatformArch::X64,
        false,
    );
    let (flow, _) = flow.step(InstallEvent::TargetExists(false));
    let (flow, _) = flow.step(InstallEvent::StagingReady(true));
    let (flow, action) = flow.step(InstallEvent::Status(200));
    assert_eq!(action, InstallAction::CleanupStaging);
    assert!(matches!(
        flow.state,
        InstallState::Failed(InstallError::UnknownArchiveType { .. })
    ));
}

#[test]
fn test_archive_from_url() {
    assert_eq!(Archive::from_url("https://x/y/a.tar.gz"), Some(Archive::TarGz));
    assert_eq!(Archive::from_url("https://x/y/a.tar.xz"), Some(Archive::TarXz));
    assert_eq!(Archive::from_url("https://x/y/a.zip"), Some(Archive::Zip));
    assert_eq!(Archive::from_url("https://x/y/a.ZIP"), Some(Archive::Zip));
    assert_eq!(Archive::from_url("https://x/y/a.rar"), None);
    assert_eq!(Archive::supported(), vec![Archive::TarXz, Archive::TarGz, Archive::Zip]);
}
