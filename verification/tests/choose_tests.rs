use pactup::alias::{alias_path, StoredAlias};
use pactup::choose_version::{
    choose_version_for_user_input, current_version, find_default_version, CurrentError, Error,
};
use pactup::config::PactupConfig;
use pactup::remote_index::{format_ungh_url, get_by_tag, latest, Release};
use pactup::shell_binding::{multishell_link_name, ShellBinding};
use pactup::system_info::PlatformArch;
use pactup::user_version::UserVersion;
use pactup::version::Version;

fn test_config() -> PactupConfig {
    PactupConfig::new(
        "/home/me/.local/share/pactup".to_string(),
        "/run/pactup_multishells".to_string(),
        PlatformArch::X64,
    )
    .with_base_dir(Some("/base".to_string()))
}

fn semver(major: u64, minor: u64, patch: u64) -> Version {
    Version::Semver { major, minor, patch }
}

#[test]
fn test_config_paths() {
    let config = test_config();
    assert_eq!(config.installations_dir(), "/base/pact-versions");
    assert_eq!(config.aliases_dir(), "/base/aliases");
    assert_eq!(config.default_version_dir(), "/base/aliases/default");
    assert_eq!(alias_path(&config, "lts"), "/base/aliases/lts");
    let repos = config.repo_urls();
    assert_eq!(repos, vec!["kadena-io/pact-5", "kadena-io/pact"]);
}

#[test]
fn test_config_default_base_dir() {
    let config = PactupConfig::new(
        "/data".to_string(),
        "/run".to_string(),
        PlatformArch::X64,
    );
    assert_eq!(config.base_dir_with_default(), "/data");
    assert_eq!(config.installations_dir(), "/data/pact-versions");
}

#[test]
fn test_installation_paths() {
    let config = test_config();
    assert_eq!(
        semver(4, 13, 0).installation_path(&config, false),
        "/base/pact-versions/v4.13.0"
    );
    assert_eq!(Version::Bypassed.installation_path(&config, false), "/dev/null");
    assert_eq!(
        Version::Alias("lts".to_string()).installation_path(&config, false),
        "/base/aliases/lts"
    );
    assert_eq!(
        Version::Nightly("dev".to_string()).installation_path(&config, true),
        "/base/pact-versions/dev"
    );
    assert_eq!(
        Version::Nightly("dev".to_string()).installation_path(&config, false),
        "/base/aliases/dev"
    );
}

#[test]
fn test_choose_installed_version() {
    let config = test_config();
    let installed = vec![semver(4, 11, 0), semver(4, 13, 0)];
    let aliases: Vec<StoredAlias> = Vec::new();
    let requested = UserVersion::OnlyMajor(4);
    let chosen = choose_version_for_user_input(&requested, &installed, &aliases, &config, false, false)
        .unwrap()
        .unwrap();
    assert_eq!(chosen.version().v_str(), "v4.13.0");
    assert_eq!(chosen.path(), "/base/pact-versions/v4.13.0");
}

#[test]
fn test_choose_bypassed_version() {
    let config = test_config();
    let installed: Vec<Version> = Vec::new();
    let aliases: Vec<StoredAlias> = Vec::new();
    let requested = UserVersion::Full(Version::Bypassed);
    let chosen = choose_version_for_user_input(&requested, &installed, &aliases, &config, false, false)
        .unwrap()
        .unwrap();
    assert!(matches!(chosen.version(), Version::Bypassed));
    assert_eq!(chosen.path(), "/dev/null");
}

#[test]
fn test_choose_existing_alias() {
    let config = test_config();
    let installed: Vec<Version> = Vec::new();
    let aliases: Vec<StoredAlias> = Vec::new();
    let requested = UserVersion::Full(Version::Alias("lts".to_string()));
    let chosen = choose_version_for_user_input(&requested, &installed, &aliases, &config, false, true)
        .unwrap()
        .unwrap();
    assert_eq!(chosen.path(), "/base/aliases/lts");
    assert!(matches!(chosen.version(), Version::Alias(_)));
}

#[test]
fn test_choose_missing_version_fails() {
    let config = test_config();
    let installed: Vec<Version> = Vec::new();
    let aliases: Vec<StoredAlias> = Vec::new();
    let requested = UserVersion::OnlyMajor(9);
    let result =
        choose_version_for_user_input(&requested, &installed, &aliases, &config, false, false);
    assert!(matches!(result, Err(Error::CantFindVersion { .. })));
}

#[test]
fn test_current_version_readings() {
    assert!(matches!(
        current_version(false, false, None),
        Err(CurrentError::EnvNotApplied)
    ));
    assert_eq!(
        current_version(true, true, None).unwrap(),
        Some(Version::Bypassed)
    );
    assert_eq!(
        current_version(true, false, Some("v4.13.0")).unwrap(),
        Some(semver(4, 13, 0))
    );
    assert_eq!(current_version(true, false, None).unwrap(), None);
    assert!(matches!(
        current_version(true, false, Some("4.bad")),
        Err(CurrentError::InvalidVersion { .. })
    ));
}

#[test]
fn test_find_default_version() {
    assert_eq!(find_default_version(Some("v4.13.0")), Some(semver(4, 13, 0)));
    assert_eq!(find_default_version(None), None);
}

fn release_of(tag: &str) -> Release {
    Release {
        tag: Version::parse(tag).unwrap(),
        draft: false,
        prerelease: false,
        assets: vec![],
    }
}

#[test]
fn test_latest_skips_nightly_and_keeps_provenance() {
    let candidates = vec![release_of("nightly"), release_of("4.13.0"), release_of("4.10.0")];
    let picked = latest(&candidates).unwrap();
    assert_eq!(picked.tag.v_str(), "v4.13.0");

    let only_nightly = vec![release_of("dev")];
    assert!(latest(&only_nightly).is_err());
}

#[test]
fn test_get_by_tag_finds_display_string() {
    let releases = vec![release_of("4.13.0"), release_of("nightly")];
    let found = get_by_tag(&releases, "nightly").unwrap();
    assert_eq!(found.tag.v_str(), "nightly");
    assert!(get_by_tag(&releases, "v9.9.9").is_err());
}

#[test]
fn test_multishell_link_name() {
    assert_eq!(multishell_link_name(1234, 987654321), "1234_987654321");

    let binding = ShellBinding::Unset;
    let binding = binding.on_env();
    assert!(matches!(binding, ShellBinding::PointsToDefault));
    let binding = binding.on_use(semver(4, 13, 0));
    assert!(matches!(binding, ShellBinding::PointsToVersion(_)));
}

#[test]
fn test_stored_alias_accessors() {
    let alias = StoredAlias::new("default".to_string(), "v4.13.0".to_string());
    assert_eq!(alias.name(), "default");
    assert_eq!(alias.s_ver(), "v4.13.0");
}

#[test]
fn test_format_ungh_url() {
    assert_eq!(
        format_ungh_url("kadena-io/pact", "releases"),
        "https://ungh.sashoush.dev/repos/kadena-io/pact/releases"
    );
    assert_eq!(
        format_ungh_url("kadena-io/pact-5///", "releases/latest"),
        "https://ungh.sashoush.dev/repos/kadena-io/pact-5/releases/latest"
    );
}
