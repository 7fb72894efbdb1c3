//! Archive kinds, selected by the download URL's suffix.

use vstd::prelude::*;
use vstd::string::StrSliceExecFns;

use crate::strutil::{lower_seq, seg_eq_at};

verus! {

/// The archive formats a release asset can come in.
#[derive(Clone, Copy, Debug, PartialEq, Eq, Structural)]
pub enum Archive {
    Zip,
    TarXz,
    TarGz,
}

/// The URL ends in the given suffix.
pub open spec fn ends_with(url: Seq<char>, suffix: Seq<char>) -> bool {
    url.len() >= suffix.len() && url.skip(url.len() - suffix.len()) == suffix
}

/// The archive kind the URL's suffix names: `.tar.xz`, `.tar.gz`, or a
/// `zip` extension in any letter case.
pub open spec fn archive_kind(url: Seq<char>) -> Option<Archive> {
    if ends_with(url, ".tar.xz"@) {
        Some(Archive::TarXz)
    } else if ends_with(url, ".tar.gz"@) {
        Some(Archive::TarGz)
    } else if ends_with(lower_seq(url), ".zip"@) {
        Some(Archive::Zip)
    } else {
        None
    }
}

fn ends_with_exec(url: &str, suffix: &str) -> (r: bool)
    ensures
        r == ends_with(url@, suffix@),
{
    let ulen = url.unicode_len();
    let slen = suffix.unicode_len();
    if slen > ulen {
        return false;
    }
    let r = seg_eq_at(url, ulen - slen, suffix);
    proof {
        if r {
            assert(url@.skip(url@.len() - suffix@.len()) =~= url@.subrange(
                ulen - slen,
                ulen - slen + suffix@.len(),
            ));
        }
        if ends_with(url@, suffix@) {
            assert(url@.subrange(ulen - slen, ulen - slen + suffix@.len()) =~= url@.skip(
                url@.len() - suffix@.len(),
            ));
        }
    }
    r
}

impl Archive {
    /// The archive kind the URL's suffix names.
    pub fn from_url(url: &str) -> (r: Option<Archive>)
        ensures
            r == archive_kind(url@),
    {
        if ends_with_exec(url, ".tar.xz") {
            Some(Archive::TarXz)
        } else if ends_with_exec(url, ".tar.gz") {
            Some(Archive::TarGz)
        } else {
            let lowered = crate::strutil::to_lower_str(url);
            if ends_with_exec(lowered.as_str(), ".zip") {
                Some(Archive::Zip)
            } else {
                None
            }
        }
    }

    /// The supported archive kinds.
    pub fn supported() -> (r: Vec<Archive>)
        ensures
            r@ =~= seq![Archive::TarXz, Archive::TarGz, Archive::Zip],
    {
        vec![Archive::TarXz, Archive::TarGz, Archive::Zip]
    }
}

} // verus!
