//! The one outside dependency of the version algebra: semver range syntax
//! (`^`, `~`, `>=`, `*`, hyphen ranges) and range membership, answered by
//! the `node_semver` crate behind named results.

use vstd::prelude::*;

verus! {

/// The text is a valid semver range. Names what
/// `node_semver::Range::parse` accepts; a function of the text alone.
pub uninterp spec fn is_semver_range(s: Seq<char>) -> bool;

/// The numeric version `major.minor.patch` lies in the range the text
/// denotes. Names what `node_semver::Version::satisfies` answers for a
/// version without prerelease or build parts; a function of the range
/// text and the three numbers alone.
pub uninterp spec fn range_allows(s: Seq<char>, major: int, minor: int, patch: int) -> bool;

/// Relies on `node_semver::Range::parse`: whether the text parses as a
/// semver range depends on the text alone.
#[verifier::external_body]
pub(crate) fn parse_range_ok(s: &str) -> (r: bool)
    ensures
        r == is_semver_range(s@),
{
    node_semver::Range::parse(s).is_ok()
}

/// Relies on `node_semver::Range::parse` and
/// `node_semver::Version::satisfies`: whether a plain numeric version
/// lies in a range depends on the range text and the numbers alone, and
/// text that is no range admits nothing.
#[verifier::external_body]
pub(crate) fn range_contains(s: &str, major: u64, minor: u64, patch: u64) -> (r: bool)
    ensures
        r == (is_semver_range(s@) && range_allows(
            s@,
            major as int,
            minor as int,
            patch as int,
        )),
{
    match node_semver::Range::parse(s) {
        Ok(range) => node_semver::Version::new(major, minor, patch).satisfies(&range),
        Err(_) => false,
    }
}

} // verus!
