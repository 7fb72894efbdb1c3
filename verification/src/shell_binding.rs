//! The per-shell active-version indirection: one symbolic link per live
//! shell, created when the environment is set up and retargeted on every
//! version switch, so the shell's PATH never changes again.

use vstd::prelude::*;
use vstd::string::StringExecFns;

use crate::strutil::dec_digits;
use crate::version::{veq, Version};

verus! {

/// The per-invocation link name: the process id and a millisecond
/// timestamp, joined by an underscore; collisions are retried by the
/// caller with a fresh timestamp.
pub fn multishell_link_name(pid: u64, millis: u64) -> (r: String)
    ensures
        r@ == dec_digits(pid as nat) + "_"@ + dec_digits(millis as nat),
{
    proof {
        reveal_strlit("_");
    }
    let mut s = crate::strutil::u64_to_dec(pid);
    s.append("_");
    let m = crate::strutil::u64_to_dec(millis);
    s.append(m.as_str());
    proof {
        assert(s@ =~= dec_digits(pid as nat) + "_"@ + dec_digits(millis as nat));
    }
    s
}

/// Where a shell's link stands: never made, pointing at the default
/// alias, or pinned to one version.
#[derive(Debug)]
pub enum ShellBinding {
    Unset,
    PointsToDefault,
    PointsToVersion(Version),
}

impl ShellBinding {
    /// Setting up the environment points the fresh link at the default
    /// alias.
    pub fn on_env(self) -> (r: ShellBinding)
        ensures
            r matches ShellBinding::PointsToDefault,
    {
        ShellBinding::PointsToDefault
    }

    /// Switching versions repoints the link, whatever it pointed at.
    pub fn on_use(self, version: Version) -> (r: ShellBinding)
        ensures
            r matches ShellBinding::PointsToVersion(v) && veq(v, version),
    {
        ShellBinding::PointsToVersion(version)
    }
}

} // verus!
