use pactup::remote_index::{Asset, Release};
use pactup::system_info::{Platform, PlatformArch, PlatformOS};
use pactup::version::Version;

fn create_test_release(version: &str) -> Release {
    Release {
        tag: Version::parse(version).unwrap(),
        assets: vec![],
        prerelease: false,
        draft: false,
    }
}

fn create_test_asset(name: &str) -> Asset {
    Asset {
        download_url: format!("https://example.com/download/{name}"),
    }
}

#[test]
fn test_version_matcher_patterns() {
    let test_cases = vec![
        // Semver formats
        (
            "4.13.0",
            PlatformOS::Linux,
            PlatformArch::X64,
            vec![
                ("pact-4.13.0-linux-x64.tar.gz", true),
                ("pact-4.13.0-linux-amd64.tar.gz", true),
                ("pact-4.13.0-ubuntu-x64.tar.gz", true),
                ("pact-4.13.0-ubuntu-x64-22.10.tar.gz", true),
                ("pact-4.13-linux-x64.tar.gz", true),
                ("pact-4.13-linux-x64-22.04.tar.gz", true),
                ("pact-4-linux-x64.tar.gz", true),
                ("pact-invalid-linux-x64.tar.gz", false),
            ],
        ),
        // Tag formats (nightly)
        (
            "nightly",
            PlatformOS::Linux,
            PlatformArch::X64,
            vec![
                ("pact-nightly-linux-x64.tar.gz", true),
                ("pact-nightly-ubuntu-amd64.tar.gz", true),
                ("pact-dev-linux-x64.tar.gz", false),
            ],
        ),
        // Tag formats (alpha)
        (
            "alpha",
            PlatformOS::Linux,
            PlatformArch::X64,
            vec![
                ("pact-alpha-linux-x64.tar.gz", true),
                ("pact-alpha-ubuntu-amd64.tar.gz", true),
                ("pact-beta-linux-x64.tar.gz", false),
            ],
        ),
        // MacOS formats
        (
            "4.13.0",
            PlatformOS::MacOS,
            PlatformArch::Arm64,
            vec![
                ("pact-4.13.0-darwin-arm64.tar.gz", true),
                ("pact-4.13.0-darwin-aarch64.tar.gz", true),
                ("pact-4.13.0-osx-arm64.tar.gz", true),
                ("pact-4.13.0-macos-aarch64.tar.gz", true),
                ("pact-4.13.0-aarch64-macos.tar.gz", true),
                ("pact-4.13.0-aarch64-osx.tar.gz", true),
                ("pact-4.13.0-aarch64-darwin.tar.gz", true),
                ("pact-4.13.0-darwin-x64.tar.gz", false),
            ],
        ),
        // Windows formats
        (
            "4.13.0",
            PlatformOS::Windows,
            PlatformArch::X64,
            vec![
                ("pact-4.13.0-windows-x64.zip", true),
                ("pact-4.13.0-win-amd64.zip", true),
                ("pact-4.13.0-windows-x86_64.zip", true),
                ("pact-4.13.0-windows-arm64.zip", false),
            ],
        ),
        // Special tags
        (
            "latest",
            PlatformOS::Linux,
            PlatformArch::X64,
            vec![
                ("pact-latest-linux-x64.tar.gz", true),
                ("pact-latest-ubuntu-amd64.tar.gz", true),
            ],
        ),
        // Development tags
        (
            "dev",
            PlatformOS::Linux,
            PlatformArch::X64,
            vec![
                ("pact-dev-linux-x64.tar.gz", true),
                ("pact-dev-ubuntu-amd64.tar.gz", true),
            ],
        ),
        // Release candidate tags
        (
            "rc1",
            PlatformOS::Linux,
            PlatformArch::X64,
            vec![
                ("pact-rc1-linux-x64.tar.gz", true),
                ("pact-rc1-ubuntu-amd64.tar.gz", true),
            ],
        ),
    ];

    for (version, os, arch, test_files) in test_cases {
        let release = create_test_release(version);
        let platform = Platform(os, arch);
        let matcher = release
            .version_matcher_for_platform(&platform)
            .expect("Failed to create matcher");

        for (test_file, should_match) in test_files {
            assert_eq!(
                matcher.is_match(test_file),
                should_match,
                "Failed for {} on test file {}",
                version,
                test_file
            );
        }
    }
}

#[test]
fn test_version_matcher_patterns_with_platform_version() {
    let test_cases = vec![
        (
            "4.13.0",
            PlatformOS::Linux,
            PlatformArch::X64,
            vec![
                ("pact-4.13.0-linux-20.04.tar.gz", true),
                ("pact-4.13.0-ubuntu-22.04.tar.gz", true),
                ("pact-4.13.0-linux-20.04-x64.tar.gz", true),
                ("pact-4.13.0-linux-20.04-amd64.tar.gz", true),
                ("pact-4.13.0-linux.tar.gz", true),
                ("pact-4.13.0-linux-invalid.tar.gz", false),
            ],
        ),
        (
            "4.13.0",
            PlatformOS::Linux,
            PlatformArch::X64,
            vec![
                ("pact-4.13.0-linux.tar.gz", true),
                ("pact-4.13.0-ubuntu.tar.gz", true),
                ("pact-4.13.0-linux-20.04.tar.gz", true),
            ],
        ),
        (
            "4.13.0",
            PlatformOS::Linux,
            PlatformArch::Arm64,
            vec![
                ("pact-4.13.0-linux-arm64.tar.gz", true),
                ("pact-4.13.0-linux-aarch64.tar.gz", true),
                ("pact-4.13.0-linux.tar.gz", true),
            ],
        ),
    ];

    for (version, os, arch, test_files) in test_cases {
        let release = create_test_release(version);
        let platform = Platform(os, arch);
        let matcher = release
            .version_matcher_for_platform(&platform)
            .expect("Failed to create matcher");

        for (test_file, should_match) in test_files {
            assert_eq!(
                matcher.is_match(test_file),
                should_match,
                "Failed for {} on test file {}",
                version,
                test_file
            );
        }
    }
}

#[test]
fn test_asset_fallback_to_x64_on_linux() {
    let mut release = create_test_release("4.13.0");
    release.assets = vec![create_test_asset("pact-4.13.0-linux-20.04.tar.gz")];

    let platform = Platform(PlatformOS::Linux, PlatformArch::X64);
    let asset = release.asset_for_current_platform(&platform);
    assert!(asset.is_some());
}

#[test]
fn test_asset_for_current_platform() {
    let mut release = create_test_release("4.13.0");
    let platform = Platform(PlatformOS::Linux, PlatformArch::X64);
    release.assets = vec![create_test_asset("pact-4.13.0-linux-x64.tar.gz")];

    assert!(release.has_supported_asset(&platform));
    assert!(release.asset_for_current_platform(&platform).is_some());
}

#[test]
fn test_unsupported_platform() {
    let release = create_test_release("4.13.0");
    let result = release
        .version_matcher_for_platform(&Platform(PlatformOS::Windows, PlatformArch::S390x));
    assert!(result.is_ok());
}

#[test]
fn test_special_version_tags() {
    let test_cases = vec![
        ("nightly", "pact-nightly-linux-x64.tar.gz"),
        ("alpha", "pact-alpha-linux-x64.tar.gz"),
        ("beta", "pact-beta-linux-x64.tar.gz"),
        ("rc1", "pact-rc1-linux-x64.tar.gz"),
        ("latest", "pact-latest-linux-x64.tar.gz"),
        ("dev", "pact-dev-linux-x64.tar.gz"),
    ];

    for (version, test_file) in test_cases {
        let release = create_test_release(version);
        let platform = Platform(PlatformOS::Linux, PlatformArch::X64);
        let matcher = release
            .version_matcher_for_platform(&platform)
            .expect("Failed to create matcher");

        assert!(
            matcher.is_match(test_file),
            "Failed for version {} on test file {}",
            version,
            test_file
        );
    }
}

#[test]
fn test_arm64_rejects_x64_asset() {
    let mut release = create_test_release("4.13.0");
    release.assets = vec![create_test_asset("pact-4.13.0-darwin-x64.tar.gz")];
    let platform = Platform(PlatformOS::MacOS, PlatformArch::Arm64);
    assert!(release.asset_for_current_platform(&platform).is_none());
    assert!(!release.has_supported_asset(&platform));
}

#[test]
fn test_download_url_comes_from_selected_asset() {
    let mut release = create_test_release("4.13.0");
    release.assets = vec![
        create_test_asset("pact-4.13.0-windows-x64.zip"),
        create_test_asset("pact-4.13.0-linux-x64.tar.gz"),
    ];
    let platform = Platform(PlatformOS::Linux, PlatformArch::X64);
    assert_eq!(
        release.download_url(&platform),
        Some("https://example.com/download/pact-4.13.0-linux-x64.tar.gz".to_string())
    );
}

#[test]
fn test_musl_arch_has_no_matcher() {
    let release = create_test_release("4.13.0");
    let result = release
        .version_matcher_for_platform(&Platform(PlatformOS::Linux, PlatformArch::X64Musl));
    assert!(result.is_err());
}

#[test]
fn test_platform_names() {
    assert_eq!(PlatformOS::Linux.as_str(), "linux");
    assert_eq!(PlatformArch::X64.as_str(), "x64");
    assert_eq!(Platform(PlatformOS::MacOS, PlatformArch::Arm64).as_str(), "macos-arm64");
    assert!(matches!(PlatformOS::from_str("linux"), Ok(PlatformOS::Linux)));
    assert!(PlatformOS::from_str("plan9").is_err());
    assert!(matches!(PlatformArch::from_str("arm64"), Ok(PlatformArch::Arm64)));
    assert!(PlatformArch::from_str("vax").is_err());
    assert_eq!(
        PlatformOS::from_str("plan9").unwrap_err().details(),
        "Unknown OS: plan9"
    );
}
