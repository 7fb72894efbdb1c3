//! Operating systems and processor families, with the filename aliases
//! each goes by in release assets.

use vstd::prelude::*;

use crate::strutil::str_eq;

verus! {

/// The operating systems a release asset can target.
#[derive(Clone, Copy, PartialEq, Eq, Structural, Debug, Hash)]
pub enum PlatformOS {
    Windows,
    MacOS,
    Linux,
}

/// The processor families a release asset can target.
#[derive(Clone, Copy, PartialEq, Eq, Structural, Debug, Hash)]
pub enum PlatformArch {
    X86,
    X64,
    Arm64,
    Armv7l,
    Ppc64le,
    X64Musl,
    Ppc64,
    S390x,
}

/// The canonical name of an operating system.
pub open spec fn os_str_spec(os: PlatformOS) -> Seq<char> {
    match os {
        PlatformOS::Windows => "windows"@,
        PlatformOS::MacOS => "macos"@,
        PlatformOS::Linux => "linux"@,
    }
}

/// The canonical name of a processor family.
pub open spec fn arch_str_spec(arch: PlatformArch) -> Seq<char> {
    match arch {
        PlatformArch::X86 => "x86"@,
        PlatformArch::X64 => "x64"@,
        PlatformArch::X64Musl => "x64-musl"@,
        PlatformArch::Arm64 => "arm64"@,
        PlatformArch::Armv7l => "armv7l"@,
        PlatformArch::Ppc64le => "ppc64le"@,
        PlatformArch::Ppc64 => "ppc64"@,
        PlatformArch::S390x => "s390x"@,
    }
}

/// The filename aliases of an operating system.
pub open spec fn os_alias_spec(os: PlatformOS) -> Seq<Seq<char>> {
    match os {
        PlatformOS::Linux => seq!["linux"@, "ubuntu"@],
        PlatformOS::MacOS => seq!["darwin"@, "osx"@, "macos"@],
        PlatformOS::Windows => seq!["windows"@, "win"@],
    }
}

/// The filename aliases of a processor family; empty for one that release
/// assets never name.
pub open spec fn arch_alias_spec(arch: PlatformArch) -> Seq<Seq<char>> {
    match arch {
        PlatformArch::X64 => seq!["x64"@, "x86_64"@, "amd64"@],
        PlatformArch::Arm64 => seq!["arm64"@, "aarch64"@],
        PlatformArch::Armv7l => seq!["armv7l"@, "arm"@],
        PlatformArch::X86 => seq!["x86"@, "i386"@],
        PlatformArch::Ppc64le => seq!["ppc64le"@],
        PlatformArch::Ppc64 => seq!["ppc64"@],
        PlatformArch::S390x => seq!["s390x"@],
        PlatformArch::X64Musl => seq![],
    }
}

impl PlatformOS {
    /// The canonical name.
    pub fn as_str(self) -> (r: &'static str)
        ensures
            r@ == os_str_spec(self),
    {
        match self {
            PlatformOS::Windows => "windows",
            PlatformOS::MacOS => "macos",
            PlatformOS::Linux => "linux",
        }
    }

    /// Read an operating system from its canonical name.
    pub fn from_str(s: &str) -> (r: Result<PlatformOS, PlatformError>)
        ensures
            match r {
                Ok(os) => s@ == os_str_spec(os),
                Err(_) => s@ != "windows"@ && s@ != "macos"@ && s@ != "linux"@,
            },
    {
        if str_eq(s, "windows") {
            Ok(PlatformOS::Windows)
        } else if str_eq(s, "macos") {
            Ok(PlatformOS::MacOS)
        } else if str_eq(s, "linux") {
            Ok(PlatformOS::Linux)
        } else {
            Err(PlatformError::unknown("Unknown OS: ", s))
        }
    }

    /// The filename aliases, for the asset matcher.
    pub fn aliases(self) -> (r: Vec<&'static str>)
        ensures
            r@.len() == os_alias_spec(self).len(),
            forall|i: int| 0 <= i < r@.len() ==> (#[trigger] r@[i])@ == os_alias_spec(self)[i],
    {
        match self {
            PlatformOS::Linux => {
                let v = vec!["linux", "ubuntu"];
                proof {
                    assert(v@[0]@ == os_alias_spec(self)[0]);
                    assert(v@[1]@ == os_alias_spec(self)[1]);
                }
                v
            },
            PlatformOS::MacOS => {
                let v = vec!["darwin", "osx", "macos"];
                proof {
                    assert(v@[0]@ == os_alias_spec(self)[0]);
                    assert(v@[1]@ == os_alias_spec(self)[1]);
                    assert(v@[2]@ == os_alias_spec(self)[2]);
                }
                v
            },
            PlatformOS::Windows => {
                let v = vec!["windows", "win"];
                proof {
                    assert(v@[0]@ == os_alias_spec(self)[0]);
                    assert(v@[1]@ == os_alias_spec(self)[1]);
                }
                v
            },
        }
    }
}

impl PlatformArch {
    /// The canonical name.
    pub fn as_str(self) -> (r: &'static str)
        ensures
            r@ == arch_str_spec(self),
    {
        match self {
            PlatformArch::X86 => "x86",
            PlatformArch::X64 => "x64",
            PlatformArch::X64Musl => "x64-musl",
            PlatformArch::Arm64 => "arm64",
            PlatformArch::Armv7l => "armv7l",
            PlatformArch::Ppc64le => "ppc64le",
            PlatformArch::Ppc64 => "ppc64",
            PlatformArch::S390x => "s390x",
        }
    }

    /// Read a processor family from its canonical name.
    pub fn from_str(s: &str) -> (r: Result<PlatformArch, PlatformError>)
        ensures
            match r {
                Ok(arch) => s@ == arch_str_spec(arch) && !(arch matches PlatformArch::X64Musl),
                Err(_) => s@ != "x86"@ && s@ != "x64"@ && s@ != "arm64"@ && s@ != "armv7l"@ && s@
                    != "ppc64le"@ && s@ != "ppc64"@ && s@ != "s390x"@,
            },
    {
        if str_eq(s, "x86") {
            Ok(PlatformArch::X86)
        } else if str_eq(s, "x64") {
            Ok(PlatformArch::X64)
        } else if str_eq(s, "arm64") {
            Ok(PlatformArch::Arm64)
        } else if str_eq(s, "armv7l") {
            Ok(PlatformArch::Armv7l)
        } else if str_eq(s, "ppc64le") {
            Ok(PlatformArch::Ppc64le)
        } else if str_eq(s, "ppc64") {
            Ok(PlatformArch::Ppc64)
        } else if str_eq(s, "s390x") {
            Ok(PlatformArch::S390x)
        } else {
            Err(PlatformError::unknown("Unknown Arch: ", s))
        }
    }

    /// The filename aliases, for the asset matcher.
    pub fn aliases(self) -> (r: Vec<&'static str>)
        ensures
            r@.len() == arch_alias_spec(self).len(),
            forall|i: int| 0 <= i < r@.len() ==> (#[trigger] r@[i])@ == arch_alias_spec(self)[i],
    {
        match self {
            PlatformArch::X64 => {
                let v = vec!["x64", "x86_64", "amd64"];
                proof {
                    assert(v@[0]@ == arch_alias_spec(self)[0]);
                    assert(v@[1]@ == arch_alias_spec(self)[1]);
                    assert(v@[2]@ == arch_alias_spec(self)[2]);
                }
                v
            },
            PlatformArch::Arm64 => {
                let v = vec!["arm64", "aarch64"];
                proof {
                    assert(v@[0]@ == arch_alias_spec(self)[0]);
                    assert(v@[1]@ == arch_alias_spec(self)[1]);
                }
                v
            },
            PlatformArch::Armv7l => {
                let v = vec!["armv7l", "arm"];
                proof {
                    assert(v@[0]@ == arch_alias_spec(self)[0]);
                    assert(v@[1]@ == arch_alias_spec(self)[1]);
                }
                v
            },
            PlatformArch::X86 => {
                let v = vec!["x86", "i386"];
                proof {
                    assert(v@[0]@ == arch_alias_spec(self)[0]);
                    assert(v@[1]@ == arch_alias_spec(self)[1]);
                }
                v
            },
            PlatformArch::Ppc64le => {
                let v = vec!["ppc64le"];
                proof {
                    assert(v@[0]@ == arch_alias_spec(self)[0]);
                }
                v
            },
            PlatformArch::Ppc64 => {
                let v = vec!["ppc64"];
                proof {
                    assert(v@[0]@ == arch_alias_spec(self)[0]);
                }
                v
            },
            PlatformArch::S390x => {
                let v = vec!["s390x"];
                proof {
                    assert(v@[0]@ == arch_alias_spec(self)[0]);
                }
                v
            },
            PlatformArch::X64Musl => {
                let v: Vec<&'static str> = Vec::new();
                v
            },
        }
    }
}

/// An operating system together with a processor family.
#[derive(Clone, Copy, PartialEq, Eq, Structural, Debug)]
pub struct Platform(pub PlatformOS, pub PlatformArch);

impl Platform {
    /// The canonical `os-arch` name of the platform.
    pub fn as_str(&self) -> (r: String)
        ensures
            r@ == os_str_spec(self.0) + "-"@ + arch_str_spec(self.1),
    {
        let mut s = self.0.as_str().to_owned();
        s.append("-");
        s.append(self.1.as_str());
        s
    }
}

/// A platform name that is not recognized.
#[derive(Debug)]
pub struct PlatformError {
    details: String,
}

impl PlatformError {
    /// The message, seen in specifications.
    pub closed spec fn spec_details(&self) -> Seq<char> {
        self.details@
    }

    /// An error whose message is the given text.
    pub fn new(msg: String) -> (r: PlatformError)
        ensures
            r.spec_details() == msg@,
    {
        PlatformError { details: msg }
    }

    fn unknown(what: &str, name: &str) -> (r: PlatformError)
        ensures
            r.spec_details() == what@ + name@,
    {
        let mut s = what.to_owned();
        s.append(name);
        PlatformError { details: s }
    }

    /// The message.
    pub fn details(&self) -> (r: &str)
        ensures
            r@ == self.spec_details(),
    {
        self.details.as_str()
    }
}

} // verus!
