use pactup::alias::StoredAlias;
use pactup::user_version::UserVersion;
use pactup::version::Version;

fn semver(major: u64, minor: u64, patch: u64) -> Version {
    Version::Semver { major, minor, patch }
}

#[test]
fn test_parsing_versions() {
    let test_cases = vec![
        ("10", Some(UserVersion::OnlyMajor(10))),
        ("10.20", Some(UserVersion::MajorMinor(10, 20))),
        ("v10", Some(UserVersion::OnlyMajor(10))),
        ("v10.20", Some(UserVersion::MajorMinor(10, 20))),
        (
            "10.20.30",
            Some(UserVersion::Full(Version::parse("10.20.30").unwrap())),
        ),
        (
            "^10.20.0",
            Some(UserVersion::SemverRange("^10.20.0".to_string())),
        ),
        (
            "nightly",
            Some(UserVersion::Full(Version::parse("nightly").unwrap())),
        ),
        (
            "latest",
            Some(UserVersion::Full(Version::parse("latest").unwrap())),
        ),
    ];

    for (input, expected) in test_cases {
        let result = UserVersion::from_str(input).ok();
        assert_eq!(
            result, expected,
            "Failed parsing '{}': expected {:?}, got {:?}",
            input, expected, result
        );
    }
}

fn create_test_versions() -> Vec<Version> {
    vec![
        Version::parse("6.0.0").unwrap(),
        Version::parse("6.0.1").unwrap(),
        Version::parse("6.0.2").unwrap(),
        Version::parse("6.1.0").unwrap(),
        Version::parse("6.2.0").unwrap(),
        Version::parse("7.0.0").unwrap(),
    ]
}

#[test]
fn test_version_matching() {
    let aliases: Vec<StoredAlias> = Vec::new();
    let versions = create_test_versions();

    let test_cases = vec![
        (
            UserVersion::OnlyMajor(6),
            "v6.2.0",
            "should match highest version with major 6",
        ),
        (
            UserVersion::MajorMinor(6, 0),
            "v6.0.2",
            "should match highest version with major.minor 6.0",
        ),
        (
            UserVersion::Full(Version::parse("6.0.0").unwrap()),
            "v6.0.0",
            "should match exact version",
        ),
        (
            UserVersion::SemverRange("^6.0.0".to_string()),
            "v6.2.0",
            "should match highest version in range",
        ),
    ];

    for (user_version, expected, message) in test_cases {
        let result = user_version
            .to_version(&versions, &aliases)
            .map(|v| v.v_str());
        assert_eq!(
            result,
            Some(expected.to_string()),
            "{}: {:?}",
            message,
            user_version
        );
    }
}

#[test]
fn test_inferred_aliases() {
    let test_cases = vec![
        (
            UserVersion::Full(Version::Latest),
            Some(Version::Latest),
            "Latest version should infer latest alias",
        ),
        (
            UserVersion::Full(Version::Nightly("nightly".to_string())),
            Some(Version::Nightly("nightly".to_string())),
            "Nightly version should infer nightly alias",
        ),
        (
            UserVersion::OnlyMajor(6),
            None,
            "Partial versions should not infer aliases",
        ),
        (
            UserVersion::Full(semver(6, 0, 0)),
            None,
            "Regular versions should not infer aliases",
        ),
    ];

    for (version, expected, message) in test_cases {
        assert_eq!(version.inferred_alias(), expected, "{}", message);
    }
}

#[test]
fn test_range_matching_excludes_other_majors() {
    let aliases: Vec<StoredAlias> = Vec::new();
    let range = UserVersion::from_str("^6.0.0").unwrap();
    assert!(range.matches(&semver(6, 2, 0), &aliases));
    assert!(!range.matches(&semver(7, 0, 0), &aliases));
    assert!(!range.matches(&semver(5, 9, 9), &aliases));
    assert!(!range.matches(&Version::Latest, &aliases));
}

#[test]
fn test_invalid_range_matches_nothing() {
    let aliases: Vec<StoredAlias> = Vec::new();
    let not_a_range = UserVersion::SemverRange("not a range".to_string());
    assert!(!not_a_range.matches(&semver(1, 0, 0), &aliases));
}

#[test]
fn test_alias_name_matching() {
    let aliases = vec![StoredAlias::new(
        "lts".to_string(),
        "v6.0.2".to_string(),
    )];
    let selector = UserVersion::Full(Version::Alias("lts".to_string()));
    assert!(selector.matches(&semver(6, 0, 2), &aliases));
    assert!(!selector.matches(&semver(6, 0, 1), &aliases));

    let versions = create_test_versions();
    let chosen = selector.to_version(&versions, &aliases);
    assert_eq!(chosen.map(|v| v.v_str()), Some("v6.0.2".to_string()));
}

#[test]
fn test_no_match_gives_none() {
    let aliases: Vec<StoredAlias> = Vec::new();
    let versions = create_test_versions();
    let selector = UserVersion::OnlyMajor(9);
    assert!(selector.to_version(&versions, &aliases).is_none());
}

#[test]
fn test_selector_display() {
    assert_eq!(UserVersion::OnlyMajor(10).display_string(), "v10.x.x");
    assert_eq!(UserVersion::MajorMinor(10, 20).display_string(), "v10.20.x");
    assert_eq!(
        UserVersion::SemverRange("^6.0.0".to_string()).display_string(),
        "^6.0.0"
    );
    assert_eq!(
        UserVersion::Full(semver(6, 0, 0)).display_string(),
        "v6.0.0"
    );
}
