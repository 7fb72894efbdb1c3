//! The running configuration: upstream repositories, the base directory,
//! and the derived filesystem layout, all as plain path strings.

use vstd::prelude::*;
use vstd::string::StrSliceExecFns;
use vstd::string::StringExecFns;

use crate::system_info::PlatformArch;

verus! {

/// How loud the tool is on standard error.
#[derive(Clone, Copy, Debug, PartialEq, Eq, Structural)]
pub enum LogLevel {
    Quiet,
    Info,
    Error,
}

impl LogLevel {
    /// The configuration name of the level.
    pub fn as_str(self) -> (r: &'static str)
        ensures
            (self matches LogLevel::Quiet ==> r@ == "quiet"@) && (self matches LogLevel::Info
                ==> r@ == "info"@) && (self matches LogLevel::Error ==> r@ == "error"@),
    {
        match self {
            LogLevel::Quiet => "quiet",
            LogLevel::Info => "info",
            LogLevel::Error => "error",
        }
    }
}

/// Where version files are looked for: the working directory alone, or
/// every ancestor up to the root.
#[derive(Clone, Copy, Debug, PartialEq, Eq, Structural)]
pub enum VersionFileStrategy {
    Local,
    Recursive,
}

impl VersionFileStrategy {
    /// The configuration name of the strategy.
    pub fn as_str(self) -> (r: &'static str)
        ensures
            (self matches VersionFileStrategy::Local ==> r@ == "local"@) && (
            self matches VersionFileStrategy::Recursive ==> r@ == "recursive"@),
    {
        match self {
            VersionFileStrategy::Local => "local",
            VersionFileStrategy::Recursive => "recursive",
        }
    }
}

/// The configuration a command runs under. The base directory defaults
/// to a caller-supplied data directory; every path below is derived from
/// it by fixed names.
#[derive(Debug, Clone)]
pub struct PactupConfig {
    pub pact_4x_repo: String,
    pub pact_5x_repo: String,
    pub base_dir: Option<String>,
    pub multishell_path: Option<String>,
    pub log_level: LogLevel,
    pub arch: PlatformArch,
    pub version_file_strategy: VersionFileStrategy,
    pub resolve_engines: Option<bool>,
    pub default_base_dir: String,
    pub multishell_storage_dir: String,
}

impl PactupConfig {
    /// The base directory in force: the override, or the default.
    pub open spec fn spec_base_dir(&self) -> Seq<char> {
        match self.base_dir {
            Some(b) => b@,
            None => self.default_base_dir@,
        }
    }

    /// A configuration over the given platform data directories.
    pub fn new(
        default_base_dir: String,
        multishell_storage_dir: String,
        arch: PlatformArch,
    ) -> (r: PactupConfig)
        ensures
            r.pact_4x_repo@ == "kadena-io/pact"@,
            r.pact_5x_repo@ == "kadena-io/pact-5"@,
            r.base_dir is None,
            r.multishell_path is None,
            r.log_level == LogLevel::Info,
            r.arch == arch,
            r.version_file_strategy == VersionFileStrategy::Local,
            r.resolve_engines is None,
            r.default_base_dir@ == default_base_dir@,
            r.multishell_storage_dir@ == multishell_storage_dir@,
    {
        PactupConfig {
            pact_4x_repo: "kadena-io/pact".to_owned(),
            pact_5x_repo: "kadena-io/pact-5".to_owned(),
            base_dir: None,
            multishell_path: None,
            log_level: LogLevel::Info,
            arch,
            version_file_strategy: VersionFileStrategy::Local,
            resolve_engines: None,
            default_base_dir,
            multishell_storage_dir,
        }
    }

    /// The upstream repositories, newest line first.
    pub fn repo_urls(&self) -> (r: Vec<&str>)
        ensures
            r@.len() == 2,
            r@[0]@ == self.pact_5x_repo@,
            r@[1]@ == self.pact_4x_repo@,
    {
        let v = vec![self.pact_5x_repo.as_str(), self.pact_4x_repo.as_str()];
        proof {
            assert(v@[0]@ == self.pact_5x_repo@);
            assert(v@[1]@ == self.pact_4x_repo@);
        }
        v
    }

    /// The version-file strategy in force.
    pub fn version_file_strategy(&self) -> (r: VersionFileStrategy)
        ensures
            r == self.version_file_strategy,
    {
        self.version_file_strategy
    }

    /// Whether `package.json` engine ranges count as version files; on
    /// unless switched off.
    pub fn resolve_engines(&self) -> (r: bool)
        ensures
            r == match self.resolve_engines {
                Some(b) => b,
                None => true,
            },
    {
        match self.resolve_engines {
            Some(b) => b,
            None => true,
        }
    }

    /// The log level in force.
    pub fn log_level(&self) -> (r: LogLevel)
        ensures
            r == self.log_level,
    {
        self.log_level
    }

    /// The per-shell link path, when the environment set one.
    pub fn multishell_path(&self) -> (r: Option<&str>)
        ensures
            match r {
                Some(p) => self.multishell_path matches Some(q) && q@ == p@,
                None => self.multishell_path is None,
            },
    {
        match &self.multishell_path {
            None => None,
            Some(v) => Some(v.as_str()),
        }
    }

    /// The base directory in force.
    pub fn base_dir_with_default(&self) -> (r: String)
        ensures
            r@ == self.spec_base_dir(),
    {
        match &self.base_dir {
            Some(dir) => dir.clone(),
            None => self.default_base_dir.clone(),
        }
    }

    /// The directory that holds one subdirectory per installed version.
    pub fn installations_dir(&self) -> (r: String)
        ensures
            r@ == self.spec_base_dir() + "/pact-versions"@,
    {
        let mut s = self.base_dir_with_default();
        s.append("/pact-versions");
        s
    }

    /// The directory the per-shell links live under.
    pub fn multishell_storage(&self) -> (r: String)
        ensures
            r@ == self.multishell_storage_dir@,
    {
        self.multishell_storage_dir.clone()
    }

    /// The path of the default alias.
    pub fn default_version_dir(&self) -> (r: String)
        ensures
            r@ == self.spec_base_dir() + "/aliases"@ + "/default"@,
    {
        let mut s = self.aliases_dir();
        s.append("/default");
        s
    }

    /// The directory that holds the named aliases.
    pub fn aliases_dir(&self) -> (r: String)
        ensures
            r@ == self.spec_base_dir() + "/aliases"@,
    {
        let mut s = self.base_dir_with_default();
        s.append("/aliases");
        s
    }

    /// The same configuration with the base directory replaced.
    pub fn with_base_dir(self, base_dir: Option<String>) -> (r: PactupConfig)
        ensures
            r.base_dir == base_dir,
            r.pact_4x_repo@ == self.pact_4x_repo@,
            r.pact_5x_repo@ == self.pact_5x_repo@,
            r.default_base_dir@ == self.default_base_dir@,
            r.arch == self.arch,
    {
        PactupConfig { base_dir, ..self }
    }
}

} // verus!
