//! The one outside call of the asset matcher: reading the file name out
//! of a download URL, answered by the `url` crate behind a named result.

use vstd::prelude::*;

verus! {

/// The last path segment of the URL the text denotes, or nothing when
/// the text is no URL or its path has no segments. Names what
/// `url::Url::parse` followed by `path_segments` yields; a function of
/// the text alone.
pub uninterp spec fn last_url_segment(url: Seq<char>) -> Option<Seq<char>>;

/// Relies on `url::Url::parse` and `url::Url::path_segments`: the last
/// path segment of a URL depends on the URL text alone.
#[verifier::external_body]
pub(crate) fn last_path_segment(url: &str) -> (r: Option<String>)
    ensures
        match r {
            Some(name) => last_url_segment(url@) == Some(name@),
            None => last_url_segment(url@) is None,
        },
{
    let parsed = url::Url::parse(url).ok()?;
    let segments = parsed.path_segments()?;
    segments.last().map(|s| s.to_string())
}

} // verus!
