//! The install pipeline as a state machine: from checking the target
//! directory, through staging, download and extraction, to the atomic
//! publish. The machine decides; the caller performs each action on the
//! filesystem and the network and reports what happened.
//!
//! The caller's obligations per action: `RemoveTargetDir` removes the
//! target; `PrepareStaging` recreates the staging root and a fresh
//! directory in it; `Download` issues the GET and reports the status;
//! `ExtractInto` streams the body through the named extractor into the
//! staging directory; `CheckNonEmpty` reports whether anything was
//! unpacked; `NormalizeAndPublish` moves the tool binary to `bin/`, sets
//! it executable, and renames the staging directory onto the target in
//! one step; `CleanupStaging` removes the staging directory; `Stop` ends
//! the run.

use vstd::prelude::*;
use vstd::string::StrSliceExecFns;
use vstd::string::StringExecFns;

use crate::archive::{archive_kind, Archive};
use crate::system_info::PlatformArch;
use crate::user_version::{uveq, UserVersion};
use crate::version::{display_seq, veq, Version};

verus! {

/// Why an install run ended without a published version.
#[derive(Debug)]
pub enum InstallError {
    AlreadyInstalled { path: String },
    VersionNotFound { version: Version, arch: PlatformArch },
    HttpStatus { status: u16 },
    UnknownArchiveType { url: String },
    TarIsEmpty,
    Io,
    Extract,
}

/// What the caller must do next.
#[derive(Clone, Copy, Debug, PartialEq, Eq, Structural)]
pub enum InstallAction {
    RemoveTargetDir,
    PrepareStaging,
    Download,
    ExtractInto { kind: Archive },
    CheckNonEmpty,
    NormalizeAndPublish,
    CleanupStaging,
    Stop,
}

/// What the caller reports back.
#[derive(Clone, Copy, Debug, PartialEq, Eq, Structural)]
pub enum InstallEvent {
    TargetExists(bool),
    Removed(bool),
    StagingReady(bool),
    Status(u16),
    Extracted(bool),
    NonEmpty(bool),
    Published(bool),
}

/// Where an install run stands.
#[derive(Debug)]
pub enum InstallState {
    CheckTarget,
    Removing,
    Staging,
    Downloading,
    Extracting,
    Checking,
    Publishing,
    Done,
    Failed(InstallError),
}

/// One install run: its inputs, and where it stands.
#[derive(Debug)]
pub struct InstallFlow {
    pub state: InstallState,
    pub version: Version,
    pub url: String,
    pub target: String,
    pub force: bool,
    pub arch: PlatformArch,
}

/// The transition relation of the install machine: what each report
/// makes of each state, and what the caller must do next.
pub open spec fn spec_step(flow: InstallFlow, ev: InstallEvent) -> (InstallState, InstallAction) {
    match (flow.state, ev) {
        (InstallState::CheckTarget, InstallEvent::TargetExists(true)) => if flow.force {
            (InstallState::Removing, InstallAction::RemoveTargetDir)
        } else {
            (
                InstallState::Failed(InstallError::AlreadyInstalled { path: flow.target }),
                InstallAction::Stop,
            )
        },
        (InstallState::CheckTarget, InstallEvent::TargetExists(false)) => (
            InstallState::Staging,
            InstallAction::PrepareStaging,
        ),
        (InstallState::Removing, InstallEvent::Removed(ok)) => if ok {
            (InstallState::Staging, InstallAction::PrepareStaging)
        } else {
            (InstallState::Failed(InstallError::Io), InstallAction::Stop)
        },
        (InstallState::Staging, InstallEvent::StagingReady(ok)) => if ok {
            (InstallState::Downloading, InstallAction::Download)
        } else {
            (InstallState::Failed(InstallError::Io), InstallAction::CleanupStaging)
        },
        (InstallState::Downloading, InstallEvent::Status(s)) => if s == 404 {
            (
                InstallState::Failed(
                    InstallError::VersionNotFound { version: flow.version, arch: flow.arch },
                ),
                InstallAction::CleanupStaging,
            )
        } else if 200 <= s && s < 300 {
            match archive_kind(flow.url@) {
                Some(kind) => (InstallState::Extracting, InstallAction::ExtractInto { kind }),
                None => (
                    InstallState::Failed(InstallError::UnknownArchiveType { url: flow.url }),
                    InstallAction::CleanupStaging,
                ),
            }
        } else {
            (
                InstallState::Failed(InstallError::HttpStatus { status: s }),
                InstallAction::CleanupStaging,
            )
        },
        (InstallState::Extracting, InstallEvent::Extracted(ok)) => if ok {
            (InstallState::Checking, InstallAction::CheckNonEmpty)
        } else {
            (InstallState::Failed(InstallError::Extract), InstallAction::CleanupStaging)
        },
        (InstallState::Checking, InstallEvent::NonEmpty(true)) => (
            InstallState::Publishing,
            InstallAction::NormalizeAndPublish,
        ),
        (InstallState::Checking, InstallEvent::NonEmpty(false)) => (
            InstallState::Failed(InstallError::TarIsEmpty),
            InstallAction::CleanupStaging,
        ),
        (InstallState::Publishing, InstallEvent::Published(ok)) => if ok {
            (InstallState::Done, InstallAction::Stop)
        } else {
            (InstallState::Failed(InstallError::Io), InstallAction::CleanupStaging)
        },
        _ => (flow.state, InstallAction::Stop),
    }
}

impl InstallFlow {
    /// Open an install run: the target is
    /// `installations_dir/{version.display()}`, and the first question
    /// is whether it already exists.
    pub fn start(
        version: Version,
        url: String,
        installations_dir: &str,
        arch: PlatformArch,
        force: bool,
    ) -> (r: InstallFlow)
        ensures
            r.state matches InstallState::CheckTarget,
            veq(r.version, version),
            r.url@ == url@,
            r.target@ == installations_dir@ + "/"@ + display_seq(version),
            r.force == force,
            r.arch == arch,
    {
        let mut target = installations_dir.to_owned();
        target.append("/");
        let shown = version.v_str();
        target.append(shown.as_str());
        proof {
            assert(target@ =~= installations_dir@ + "/"@ + display_seq(version));
        }
        InstallFlow { state: InstallState::CheckTarget, version, url, target, force, arch }
    }

    /// Step the machine on one report. The new state and the action are
    /// exactly what the transition relation says; the run's inputs do
    /// not change.
    pub fn step(self, ev: InstallEvent) -> (r: (InstallFlow, InstallAction))
        ensures
            r.0.state == spec_step(self, ev).0,
            r.1 == spec_step(self, ev).1,
            veq(r.0.version, self.version),
            r.0.url@ == self.url@,
            r.0.target@ == self.target@,
            r.0.force == self.force,
            r.0.arch == self.arch,
    {
        let InstallFlow { state, version, url, target, force, arch } = self;
        match (state, ev) {
            (InstallState::CheckTarget, InstallEvent::TargetExists(true)) => {
                if force {
                    (
                        InstallFlow {
                            state: InstallState::Removing,
                            version,
                            url,
                            target,
                            force,
                            arch,
                        },
                        InstallAction::RemoveTargetDir,
                    )
                } else {
                    let path = target.clone();
                    (
                        InstallFlow {
                            state: InstallState::Failed(InstallError::AlreadyInstalled { path }),
                            version,
                            url,
                            target,
                            force,
                            arch,
                        },
                        InstallAction::Stop,
                    )
                }
            },
            (InstallState::CheckTarget, InstallEvent::TargetExists(false)) => (
                InstallFlow { state: InstallState::Staging, version, url, target, force, arch },
                InstallAction::PrepareStaging,
            ),
            (InstallState::Removing, InstallEvent::Removed(ok)) => {
                if ok {
                    (
                        InstallFlow {
                            state: InstallState::Staging,
                            version,
                            url,
                            target,
                            force,
                            arch,
                        },
                        InstallAction::PrepareStaging,
                    )
                } else {
                    (
                        InstallFlow {
                            state: InstallState::Failed(InstallError::Io),
                            version,
                            url,
                            target,
                            force,
                            arch,
                        },
                        InstallAction::Stop,
                    )
                }
            },
            (InstallState::Staging, InstallEvent::StagingReady(ok)) => {
                if ok {
                    (
                        InstallFlow {
                            state: InstallState::Downloading,
                            version,
                            url,
                            target,
                            force,
                            arch,
                        },
                        InstallAction::Download,
                    )
                } else {
                    (
                        InstallFlow {
                            state: InstallState::Failed(InstallError::Io),
                            version,
                            url,
                            target,
                            force,
                            arch,
                        },
                        InstallAction::CleanupStaging,
                    )
                }
            },
            (InstallState::Downloading, InstallEvent::Status(s)) => {
                if s == 404 {
                    let v = version.duplicate();
                    (
                        InstallFlow {
                            state: InstallState::Failed(
                                InstallError::VersionNotFound { version, arch },
                            ),
                            version: v,
                            url,
                            target,
                            force,
                            arch,
                        },
                        InstallAction::CleanupStaging,
                    )
                } else if 200 <= s && s < 300 {
                    match Archive::from_url(url.as_str()) {
                        Some(kind) => (
                            InstallFlow {
                                state: InstallState::Extracting,
                                version,
                                url,
                                target,
                                force,
                                arch,
                            },
                            InstallAction::ExtractInto { kind },
                        ),
                        None => {
                            let u = url.clone();
                            (
                                InstallFlow {
                                    state: InstallState::Failed(
                                        InstallError::UnknownArchiveType { url },
                                    ),
                                    version,
                                    url: u,
                                    target,
                                    force,
                                    arch,
                                },
                                InstallAction::CleanupStaging,
                            )
                        },
                    }
                } else {
                    (
                        InstallFlow {
                            state: InstallState::Failed(InstallError::HttpStatus { status: s }),
                            version,
                            url,
                            target,
                            force,
                            arch,
                        },
                        InstallAction::CleanupStaging,
                    )
                }
            },
            (InstallState::Extracting, InstallEvent::Extracted(ok)) => {
                if ok {
                    (
                        InstallFlow {
                            state: InstallState::Checking,
                            version,
                            url,
                            target,
                            force,
                            arch,
                        },
                        InstallAction::CheckNonEmpty,
                    )
                } else {
                    (
                        InstallFlow {
                            state: InstallState::Failed(InstallError::Extract),
                            version,
                            url,
                            target,
                            force,
                            arch,
                        },
                        InstallAction::CleanupStaging,
                    )
                }
            },
            (InstallState::Checking, InstallEvent::NonEmpty(true)) => (
                InstallFlow { state: InstallState::Publishing, version, url, target, force, arch },
                InstallAction::NormalizeAndPublish,
            ),
            (InstallState::Checking, InstallEvent::NonEmpty(false)) => (
                InstallFlow {
                    state: InstallState::Failed(InstallError::TarIsEmpty),
                    version,
                    url,
                    target,
                    force,
                    arch,
                },
                InstallAction::CleanupStaging,
            ),
            (InstallState::Publishing, InstallEvent::Published(ok)) => {
                if ok {
                    (
                        InstallFlow { state: InstallState::Done, version, url, target, force, arch },
                        InstallAction::Stop,
                    )
                } else {
                    (
                        InstallFlow {
                            state: InstallState::Failed(InstallError::Io),
                            version,
                            url,
                            target,
                            force,
                            arch,
                        },
                        InstallAction::CleanupStaging,
                    )
                }
            },
            (state, _) => (
                InstallFlow { state, version, url, target, force, arch },
                InstallAction::Stop,
            ),
        }
    }
}

/// The flow after one step, in specifications.
pub open spec fn step1(flow: InstallFlow, ev: InstallEvent) -> InstallFlow {
    InstallFlow { state: spec_step(flow, ev).0, ..flow }
}

/// The flow after replaying a whole report sequence.
pub open spec fn run(flow: InstallFlow, evs: Seq<InstallEvent>) -> InstallFlow
    decreases evs.len(),
{
    if evs.len() == 0 {
        flow
    } else {
        run(step1(flow, evs[0]), evs.skip(1))
    }
}

/// A successful publish happened somewhere in the run: the machine stood
/// at the publish step and the rename was reported done.
pub open spec fn published_in(flow: InstallFlow, evs: Seq<InstallEvent>) -> bool
    decreases evs.len(),
{
    if evs.len() == 0 {
        false
    } else {
        (flow.state matches InstallState::Publishing && evs[0] == InstallEvent::Published(true))
            || published_in(step1(flow, evs[0]), evs.skip(1))
    }
}

proof fn lemma_done_absorbing(flow: InstallFlow, evs: Seq<InstallEvent>)
    requires
        flow.state matches InstallState::Done,
    ensures
        run(flow, evs).state matches InstallState::Done,
    decreases evs.len(),
{
    if evs.len() > 0 {
        lemma_done_absorbing(step1(flow, evs[0]), evs.skip(1));
    }
}

proof fn lemma_failed_absorbing(flow: InstallFlow, evs: Seq<InstallEvent>)
    requires
        flow.state matches InstallState::Failed(_),
    ensures
        run(flow, evs).state matches InstallState::Failed(_),
    decreases evs.len(),
{
    if evs.len() > 0 {
        lemma_failed_absorbing(step1(flow, evs[0]), evs.skip(1));
    }
}

/// A failed run never published: however an install run ends in a
/// failure, at no point did the machine ask for the publishing rename
/// and see it succeed — so no directory under the installations root
/// was ever named after the version.
pub proof fn lemma_failed_run_never_published(flow: InstallFlow, evs: Seq<InstallEvent>)
    requires
        run(flow, evs).state matches InstallState::Failed(_),
    ensures
        !published_in(flow, evs),
    decreases evs.len(),
{
    if evs.len() > 0 {
        if flow.state matches InstallState::Publishing && evs[0] == InstallEvent::Published(
            true,
        ) {
            lemma_done_absorbing(step1(flow, evs[0]), evs.skip(1));
        } else {
            lemma_failed_run_never_published(step1(flow, evs[0]), evs.skip(1));
        }
    }
}

/// A finished run did publish: an install run that ends done saw the
/// extraction succeed, saw the staging directory non-empty, asked for
/// the publishing rename, and saw it succeed.
pub proof fn lemma_done_run_published(flow: InstallFlow, evs: Seq<InstallEvent>)
    requires
        !(flow.state matches InstallState::Done),
        run(flow, evs).state matches InstallState::Done,
    ensures
        published_in(flow, evs),
    decreases evs.len(),
{
    if evs.len() > 0 {
        if flow.state matches InstallState::Publishing && evs[0] == InstallEvent::Published(
            true,
        ) {
        } else {
            lemma_done_run_published(step1(flow, evs[0]), evs.skip(1));
        }
    }
}

/// The machine asks for the publishing rename only out of the check
/// step, on the report that the staging directory is non-empty; and it
/// reaches the check step only out of extraction, on the report that
/// extraction succeeded.
pub proof fn lemma_publish_needs_checked_extraction(flow: InstallFlow, ev: InstallEvent)
    ensures
        spec_step(flow, ev).1 == InstallAction::NormalizeAndPublish ==> (
        flow.state matches InstallState::Checking && ev == InstallEvent::NonEmpty(true)),
        spec_step(flow, ev).0 matches InstallState::Checking ==> ((
        flow.state matches InstallState::Extracting && ev == InstallEvent::Extracted(true)) || (
        flow.state matches InstallState::Checking)),
{
}

/// Asking to install a version that is already present, without force,
/// is a no-op: the run fails at once with the already-installed signal
/// and every action of the whole run is `Stop` — nothing on disk is
/// touched.
pub proof fn lemma_already_installed_is_noop(flow: InstallFlow, evs: Seq<InstallEvent>)
    requires
        flow.state matches InstallState::CheckTarget,
        !flow.force,
        evs.len() >= 1,
        evs[0] == InstallEvent::TargetExists(true),
    ensures
        run(flow, evs).state matches InstallState::Failed(e) && e matches InstallError::AlreadyInstalled { path }
            && path@ == flow.target@,
        spec_step(flow, evs[0]).1 == InstallAction::Stop,
        all_stops_after(step1(flow, evs[0]), evs.skip(1)),
{
    let next = step1(flow, evs[0]);
    lemma_failed_absorbing(next, evs.skip(1));
    lemma_failed_target_stable(next, evs.skip(1));
    lemma_all_stops(next, evs.skip(1));
}

/// Every action of a run out of a failed state is `Stop`.
pub open spec fn all_stops_after(flow: InstallFlow, evs: Seq<InstallEvent>) -> bool
    decreases evs.len(),
{
    if evs.len() == 0 {
        true
    } else {
        spec_step(flow, evs[0]).1 == InstallAction::Stop && all_stops_after(
            step1(flow, evs[0]),
            evs.skip(1),
        )
    }
}

proof fn lemma_all_stops(flow: InstallFlow, evs: Seq<InstallEvent>)
    requires
        flow.state matches InstallState::Failed(_) || flow.state matches InstallState::Done,
    ensures
        all_stops_after(flow, evs),
    decreases evs.len(),
{
    if evs.len() > 0 {
        lemma_all_stops(step1(flow, evs[0]), evs.skip(1));
    }
}

proof fn lemma_failed_target_stable(flow: InstallFlow, evs: Seq<InstallEvent>)
    requires
        flow.state matches InstallState::Failed(_),
    ensures
        run(flow, evs).state == flow.state,
    decreases evs.len(),
{
    if evs.len() > 0 {
        lemma_failed_target_stable(step1(flow, evs[0]), evs.skip(1));
    }
}

/// Whether a directory lies in a nix store: extracted archives that
/// carry one need their files copied out rather than moved, since the
/// store is read-only.
pub fn is_nix_cache_path(dir: &str) -> (r: bool)
    ensures
        r == crate::strutil::contains_sub(dir@, "nix/store"@),
{
    crate::strutil::contains_str(dir, "nix/store")
}

/// Why resolving the requested version can fail before anything is
/// looked up.
#[derive(Debug)]
pub enum ResolveError {
    TooManyVersionsProvided,
    UninstallableVersion { version: Version },
}

/// Combine the version argument with the `--nightly` and `--latest`
/// flags: at most one of the three may speak.
pub fn resolve_version(
    version: Option<&UserVersion>,
    nightly: bool,
    latest: bool,
) -> (r: Result<Option<UserVersion>, ResolveError>)
    ensures
        match r {
            Ok(chosen) => match chosen {
                Some(u) => (version matches Some(v) && !nightly && !latest && uveq(u, *v)) || ((
                version is None && nightly && !latest) && (u matches UserVersion::Full(f)
                    && f matches Version::Nightly(t) && t@ == "nightly"@)) || ((version is None
                    && !nightly && latest) && (u matches UserVersion::Full(f)
                    && f matches Version::Latest)),
                None => version is None && !nightly && !latest,
            },
            Err(_) => (version is Some && (nightly || latest)) || (nightly && latest),
        },
        (r matches Err(_)) == ((version is Some && (nightly || latest)) || (nightly && latest)),
{
    match (version, nightly, latest) {
        (Some(v), false, false) => Ok(Some(v.duplicate())),
        (None, true, false) => Ok(Some(UserVersion::Full(Version::Nightly("nightly".to_owned())))),
        (None, false, true) => Ok(Some(UserVersion::Full(Version::Latest))),
        (None, false, false) => Ok(None),
        _ => Err(ResolveError::TooManyVersionsProvided),
    }
}

/// How a selector is answered against the upstream index.
#[derive(Debug)]
pub enum ReleaseQuery {
    MatchInList,
    ByTag(String),
    Latest,
    Uninstallable(Version),
}

/// Classify the selector: an exact or partial semver is matched against
/// the full release list, a development tag is fetched by tag, `latest`
/// by the per-repository latest; an alias or the bypassed version cannot
/// be installed.
pub fn release_query(selector: &UserVersion) -> (r: ReleaseQuery)
    ensures
        match r {
            ReleaseQuery::ByTag(t) => (*selector) matches UserVersion::Full(f)
                && f matches Version::Nightly(tag) && t@ == tag@,
            ReleaseQuery::Latest => (*selector) matches UserVersion::Full(f)
                && f matches Version::Latest,
            ReleaseQuery::Uninstallable(v) => (*selector) matches UserVersion::Full(f) && veq(v, f)
                && (f matches Version::Bypassed || f matches Version::Alias(_)),
            ReleaseQuery::MatchInList => match *selector {
                UserVersion::Full(f) => f matches Version::Semver { .. },
                _ => true,
            },
        },
{
    match selector {
        UserVersion::Full(Version::Nightly(tag)) => ReleaseQuery::ByTag(tag.clone()),
        UserVersion::Full(Version::Latest) => ReleaseQuery::Latest,
        UserVersion::Full(Version::Bypassed) => ReleaseQuery::Uninstallable(Version::Bypassed),
        UserVersion::Full(Version::Alias(n)) => ReleaseQuery::Uninstallable(
            Version::Alias(n.clone()),
        ),
        _ => ReleaseQuery::MatchInList,
    }
}

} // verus!