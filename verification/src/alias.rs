//! Stored aliases: named links into the installations directory, as the
//! matcher and the listing see them.

use vstd::prelude::*;
use vstd::string::StringExecFns;

verus! {

/// One stored alias: its name, and the display string of the version its
/// link resolves to.
#[derive(Debug, Clone)]
pub struct StoredAlias {
    name: String,
    version_str: String,
}

impl StoredAlias {
    /// The stored name, seen in specifications.
    pub closed spec fn spec_name(&self) -> Seq<char> {
        self.name@
    }

    /// The stored version string, seen in specifications.
    pub closed spec fn spec_s_ver(&self) -> Seq<char> {
        self.version_str@
    }

    /// Pair an alias name with the display string of its target version.
    pub fn new(name: String, version_str: String) -> (r: StoredAlias)
        ensures
            r.spec_name() == name@,
            r.spec_s_ver() == version_str@,
    {
        StoredAlias { name, version_str }
    }

    /// The alias name.
    pub fn name(&self) -> (r: &str)
        ensures
            r@ == self.spec_name(),
    {
        self.name.as_str()
    }

    /// The display string of the version the alias points to.
    pub fn s_ver(&self) -> (r: &str)
        ensures
            r@ == self.spec_s_ver(),
    {
        self.version_str.as_str()
    }

    /// A fresh value equal to this one.
    pub fn duplicate(&self) -> (r: StoredAlias)
        ensures
            r == *self,
    {
        StoredAlias { name: self.name.clone(), version_str: self.version_str.clone() }
    }
}

/// The filesystem path of a named alias: `aliases/{name}` under the base
/// directory. Creating and deleting an alias address the same path, so
/// creating one and deleting it again touches nothing else.
pub fn alias_path(config: &crate::config::PactupConfig, name: &str) -> (r: String)
    ensures
        r@ == config.spec_base_dir() + "/aliases"@ + "/"@ + name@,
{
    let mut s = config.aliases_dir();
    s.append("/");
    s.append(name);
    s
}

} // verus!
