use pactup::strutil::Cmp;
use pactup::version::{Version, VersionError};

fn semver(major: u64, minor: u64, patch: u64) -> Version {
    Version::Semver { major, minor, patch }
}

#[test]
fn test_version_parsing() {
    let test_cases = vec![
        ("4.11.0", Ok(semver(4, 11, 0))),
        ("v4.11.0", Ok(semver(4, 11, 0))),
        ("4.11", Ok(semver(4, 11, 0))),
        ("4", Ok(semver(4, 0, 0))),
        ("nightly", Ok(Version::Nightly("nightly".to_string()))),
        ("latest", Ok(Version::Latest)),
        ("system", Ok(Version::Bypassed)),
        ("dev", Ok(Version::Nightly("dev".to_string()))),
    ];

    for (input, expected) in test_cases {
        assert_eq!(
            Version::parse(input),
            expected,
            "Failed to parse version: {}",
            input
        );
    }
}

#[test]
fn test_version_display() {
    let test_cases = vec![
        (semver(4, 11, 0), "v4.11.0"),
        (Version::Nightly("nightly".to_string()), "nightly"),
        (Version::Latest, "latest"),
        (Version::Bypassed, "system"),
        (Version::Alias("custom".to_string()), "custom"),
    ];

    for (version, expected) in test_cases {
        assert_eq!(version.v_str(), expected);
    }
}

#[test]
fn test_development_tags_parse_as_nightly() {
    for input in ["dev", "nightly", "alpha-1", "development-latest", "NIGHTLY"] {
        let parsed = Version::parse(input).unwrap();
        assert!(
            matches!(parsed, Version::Nightly(_)),
            "{} should parse as a development tag",
            input
        );
    }
    assert_eq!(
        Version::parse("alpha-1"),
        Ok(Version::Nightly("alpha-1".to_string()))
    );
}

#[test]
fn test_invalid_numeric_versions() {
    for input in ["4.x", "1.2.3.4", "4..0", "4.", "99999999999999999999999"] {
        assert_eq!(
            Version::parse(input),
            Err(VersionError::InvalidNumeric),
            "{} should be refused",
            input
        );
    }
}

#[test]
fn test_parse_trims_and_lowercases() {
    assert_eq!(Version::parse("  LATEST  "), Ok(Version::Latest));
    assert_eq!(Version::parse("\tSystem\n"), Ok(Version::Bypassed));
    assert_eq!(
        Version::parse("MyAlias"),
        Ok(Version::Alias("myalias".to_string()))
    );
}

#[test]
fn test_display_parse_round_trip() {
    let inputs = ["4.13.0", "v4.11", "7", "nightly", "latest", "system", "custom-name"];
    for input in inputs {
        let v = Version::parse(input).unwrap();
        let again = Version::parse(&v.v_str()).unwrap();
        assert_eq!(v, again, "round trip failed for {}", input);
    }
}

#[test]
fn test_version_order() {
    let a = semver(4, 11, 0);
    let b = semver(4, 13, 0);
    assert_eq!(a.compare(&b), Cmp::Lt);
    assert_eq!(b.compare(&a), Cmp::Gt);
    assert_eq!(a.compare(&semver(4, 11, 0)), Cmp::Eq);
    assert_eq!(
        Version::Nightly("dev".to_string()).compare(&Version::Nightly("nightly".to_string())),
        Cmp::Lt
    );
    assert_eq!(b.compare(&Version::Latest), Cmp::Lt);
}
