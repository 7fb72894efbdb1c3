//! Resolving a selector against what is installed: the version to use
//! and the path it lives at, given the facts the filesystem answers.

use vstd::prelude::*;
use vstd::string::StrSliceExecFns;

use crate::alias::StoredAlias;
use crate::config::PactupConfig;
use crate::user_version::{matches_spec, UserVersion};
use crate::version::{canon, display_seq, parse_fails, parse_ok, veq, version_le, Version};

verus! {

/// A resolved selector: the concrete version to use, and where it lives.
#[derive(Debug)]
pub struct ApplicableVersion {
    path: String,
    version: Version,
}

impl ApplicableVersion {
    /// The path of the chosen version.
    pub fn path(&self) -> (r: &str)
        ensures
            r@ == self.spec_path(),
    {
        self.path.as_str()
    }

    /// The chosen version.
    pub fn version(&self) -> (r: &Version)
        ensures
            *r == self.spec_version(),
    {
        &self.version
    }

    /// The stored path, seen in specifications.
    pub closed spec fn spec_path(&self) -> Seq<char> {
        self.path@
    }

    /// The stored version, seen in specifications.
    pub closed spec fn spec_version(&self) -> Version {
        self.version
    }
}

/// Why no version could be chosen.
#[derive(Debug)]
pub enum Error {
    CantFindVersion { requested_version: UserVersion },
}

/// No installed version matches the selector.
pub open spec fn no_installed_match(
    requested: UserVersion,
    installed: Seq<Version>,
    aliases: Seq<StoredAlias>,
) -> bool {
    forall|i: int| 0 <= i < installed.len() ==> !matches_spec(requested, #[trigger] installed[i], aliases)
}

/// The outcome: the best installed match was chosen, and its path lies
/// in the installations directory.
pub open spec fn picked_installed(
    a: ApplicableVersion,
    requested: UserVersion,
    installed: Seq<Version>,
    aliases: Seq<StoredAlias>,
    config: PactupConfig,
) -> bool {
    &&& exists|i: int| 0 <= i < installed.len() && veq(#[trigger] installed[i], a.spec_version())
    &&& matches_spec(requested, a.spec_version(), aliases)
    &&& forall|j: int|
        0 <= j < installed.len() && matches_spec(requested, #[trigger] installed[j], aliases)
            ==> version_le(installed[j], a.spec_version())
    &&& a.spec_path() == config.spec_base_dir() + "/pact-versions"@ + "/"@ + display_seq(
        a.spec_version(),
    )
}

/// The outcome: the selector asked for the bypassed version.
pub open spec fn picked_bypass(a: ApplicableVersion, requested: UserVersion) -> bool {
    &&& (requested matches UserVersion::Full(f) && f matches Version::Bypassed)
    &&& (a.spec_version() matches Version::Bypassed)
    &&& a.spec_path() == "/dev/null"@
}

/// The alias name the selector carries, when it carries one.
pub open spec fn requested_alias_name(requested: UserVersion) -> Option<Seq<char>> {
    match requested {
        UserVersion::Full(Version::Alias(n)) => Some(n@),
        UserVersion::Full(Version::Nightly(n)) => Some(n@),
        _ => None,
    }
}

/// The outcome: the named alias link points at the bypass sentinel.
pub open spec fn picked_alias_system(
    a: ApplicableVersion,
    requested: UserVersion,
    config: PactupConfig,
) -> bool {
    &&& (requested_alias_name(requested) matches Some(n) && a.spec_path()
        == config.spec_base_dir() + "/aliases"@ + "/"@ + n)
    &&& (a.spec_version() matches Version::Bypassed)
}

/// The outcome: the named alias exists and is used as such.
pub open spec fn picked_alias_dir(
    a: ApplicableVersion,
    requested: UserVersion,
    config: PactupConfig,
) -> bool {
    &&& (requested_alias_name(requested) matches Some(n) && a.spec_path()
        == config.spec_base_dir() + "/aliases"@ + "/"@ + n && (a.spec_version()
        matches Version::Alias(m) && m@ == n))
}

/// Choose the version a selector names, preferring the best installed
/// match, then the bypass, then a stored alias of the requested name.
/// The caller answers the two filesystem questions about the alias the
/// selector names: whether its link points at the bypass sentinel, and
/// whether it exists at all.
pub fn choose_version_for_user_input(
    requested: &UserVersion,
    installed: &Vec<Version>,
    aliases: &Vec<StoredAlias>,
    config: &PactupConfig,
    alias_points_at_system: bool,
    alias_exists: bool,
) -> (r: Result<Option<ApplicableVersion>, Error>)
    ensures
        match r {
            Ok(Some(a)) => picked_installed(a, *requested, installed@, aliases@, *config) || (
            no_installed_match(*requested, installed@, aliases@) && {
                ||| picked_bypass(a, *requested)
                ||| (!((*requested) matches UserVersion::Full(f) && f matches Version::Bypassed)
                    && alias_points_at_system && picked_alias_system(a, *requested, *config))
                ||| (!((*requested) matches UserVersion::Full(f) && f matches Version::Bypassed)
                    && !alias_points_at_system && alias_exists && picked_alias_dir(
                    a,
                    *requested,
                    *config,
                ))
            }),
            Ok(None) => false,
            Err(_) => no_installed_match(*requested, installed@, aliases@) && !((*requested)
                matches UserVersion::Full(f) && f matches Version::Bypassed) && (match requested_alias_name(
                *requested,
            ) {
                Some(_) => !alias_points_at_system && !alias_exists,
                None => true,
            }),
        },
{
    match requested.to_version(installed, aliases) {
        Some(version) => {
            let mut path = config.installations_dir();
            path.append("/");
            let shown = version.v_str();
            path.append(shown.as_str());
            Ok(Some(ApplicableVersion { path, version }))
        },
        None => {
            if matches!(requested, UserVersion::Full(Version::Bypassed)) {
                let path = crate::system_version::path();
                return Ok(Some(ApplicableVersion { path, version: Version::Bypassed }));
            }
            match requested.alias_name() {
                Some(alias_name) => {
                    let alias_path = crate::alias::alias_path(config, alias_name);
                    if alias_points_at_system {
                        Ok(
                            Some(
                                ApplicableVersion {
                                    path: alias_path,
                                    version: Version::Bypassed,
                                },
                            ),
                        )
                    } else if alias_exists {
                        let name = alias_name.to_owned();
                        Ok(
                            Some(
                                ApplicableVersion {
                                    path: alias_path,
                                    version: Version::Alias(name),
                                },
                            ),
                        )
                    } else {
                        Err(Error::CantFindVersion { requested_version: requested.duplicate() })
                    }
                },
                None => Err(Error::CantFindVersion { requested_version: requested.duplicate() }),
            }
        },
    }
}

/// Why no version could be inferred from the surroundings.
#[derive(Debug, Clone, Copy, PartialEq, Eq, Structural)]
pub enum InferVersionError {
    Local,
    Recursive,
}

/// Why the current version cannot be read.
#[derive(Debug)]
pub enum CurrentError {
    EnvNotApplied,
    InvalidVersion { version: String },
}

/// The version the per-shell link points at: the bypass when the link
/// targets the sentinel, the parse of the resolved directory's name when
/// it resolves, nothing when it does not; refused when no per-shell link
/// was ever set up.
pub fn current_version(
    multishell_path_set: bool,
    points_at_system: bool,
    resolved_basename: Option<&str>,
) -> (r: Result<Option<Version>, CurrentError>)
    ensures
        match r {
            Ok(Some(v)) => multishell_path_set && (points_at_system && (
            v matches Version::Bypassed) || !points_at_system && (resolved_basename matches Some(
                name,
            ) && parse_ok(v, canon(name@)))),
            Ok(None) => multishell_path_set && !points_at_system && resolved_basename is None,
            Err(e) => !multishell_path_set && (e matches CurrentError::EnvNotApplied) || (
            multishell_path_set && !points_at_system && (resolved_basename matches Some(name)
                && parse_fails(canon(name@)))),
        },
{
    if !multishell_path_set {
        return Err(CurrentError::EnvNotApplied);
    }
    if points_at_system {
        return Ok(Some(Version::Bypassed));
    }
    match resolved_basename {
        Some(name) => match Version::parse(name) {
            Ok(v) => Ok(Some(v)),
            Err(_) => Err(CurrentError::InvalidVersion { version: name.to_owned() }),
        },
        None => Ok(None),
    }
}

/// The default version: the parse of the default alias's resolved
/// directory name, when there is one and it parses.
pub fn find_default_version(default_basename: Option<&str>) -> (r: Option<Version>)
    ensures
        match r {
            Some(v) => default_basename matches Some(name) && parse_ok(v, canon(name@)),
            None => default_basename is None || (default_basename matches Some(name)
                && parse_fails(canon(name@))),
        },
{
    match default_basename {
        Some(name) => match Version::parse(name) {
            Ok(v) => Some(v),
            Err(_) => None,
        },
        None => None,
    }
}

} // verus!
