//! The remote listing: filtering releases by a selector, ordering them by
//! tag, picking the newest, and the display line of each entry.

use vstd::prelude::*;
use vstd::string::StrSliceExecFns;

use crate::alias::StoredAlias;
use crate::remote_index::{releq, selected_asset, Release};
use crate::strutil::Cmp;
use crate::system_info::Platform;
use crate::user_version::{lemma_version_le_trans, matches_spec, UserVersion};
use crate::version::{display_seq, veq, version_le, version_lt, Version};

verus! {

broadcast use vstd::seq_lib::group_to_multiset_ensures;

/// The direction a listing is ordered in.
#[derive(Clone, Copy, Debug, PartialEq, Eq, Structural)]
pub enum SortingMethod {
    Descending,
    Ascending,
}

/// Why a listing could not answer: there was nothing to list.
#[derive(Debug)]
pub enum Error {
    NoVersionsAvailable,
}

/// Tags ascend with the indices.
pub open spec fn sorted_asc(s: Seq<Release>) -> bool {
    forall|i: int, j: int|
        0 <= i < j < s.len() ==> version_le((#[trigger] s[i]).tag, (#[trigger] s[j]).tag)
}

/// Tags descend with the indices.
pub open spec fn sorted_desc(s: Seq<Release>) -> bool {
    forall|i: int, j: int|
        0 <= i < j < s.len() ==> version_le((#[trigger] s[j]).tag, (#[trigger] s[i]).tag)
}

/// A version is smaller than another and stays smaller than anything at
/// least as large.
proof fn lemma_version_lt_le_trans(a: Version, b: Version, c: Version)
    requires
        version_lt(a, b),
        version_le(b, c),
    ensures
        version_lt(a, c),
{
    if veq(b, c) {
        crate::version::lemma_veq_lt_congruence(b, c, a);
    } else {
        crate::version::lemma_version_lt_trans(a, b, c);
    }
}

fn insertion_point(out: &Vec<Release>, x: &Release) -> (p: usize)
    requires
        sorted_asc(out@),
    ensures
        p <= out@.len(),
        forall|q: int| 0 <= q < p ==> version_le((#[trigger] out@[q]).tag, x.tag),
        p < out@.len() ==> version_lt(x.tag, out@[p as int].tag),
{
    let mut p: usize = 0;
    while p < out.len()
        invariant
            0 <= p <= out@.len(),
            forall|q: int| 0 <= q < p ==> version_le((#[trigger] out@[q]).tag, x.tag),
        decreases out@.len() - p,
    {
        let c = out[p].tag.compare(&x.tag);
        if c == Cmp::Gt {
            proof {
                crate::version::lemma_version_lt_asym(x.tag, out@[p as int].tag);
            }
            return p;
        }
        p = p + 1;
    }
    p
}

/// Order the releases by their tags, in the asked direction. The result
/// holds the same releases.
pub fn sort_releases(releases: Vec<Release>, method: SortingMethod) -> (r: Vec<Release>)
    ensures
        r@.to_multiset() == releases@.to_multiset(),
        method matches SortingMethod::Ascending ==> sorted_asc(r@),
        method matches SortingMethod::Descending ==> sorted_desc(r@),
{
    let ghost orig = releases@;
    let mut src = releases;
    let mut out: Vec<Release> = Vec::new();
    while src.len() > 0
        invariant
            sorted_asc(out@),
            out@.to_multiset().add(src@.to_multiset()) =~= orig.to_multiset(),
        decreases src@.len(),
    {
        let ghost src_before = src@;
        let x = src.remove(0);
        proof {
            assert(src_before.remove(0).to_multiset() =~= src_before.to_multiset().remove(x));
        }
        let p = insertion_point(&out, &x);
        let ghost out_before = out@;
        out.insert(p, x);
        proof {
            let nv = out_before.insert(p as int, x);
            assert(nv.remove(p as int) =~= out_before);
            assert(nv.remove(p as int).to_multiset() =~= nv.to_multiset().remove(nv[p as int]));
            assert(nv[p as int] == x);
            assert(nv.to_multiset().count(x) > 0) by {
                assert(nv.contains(x)) by {
                    assert(nv[p as int] == x);
                }
            }
            assert(out@.to_multiset() =~= out_before.to_multiset().insert(x));
            assert(out@.to_multiset().add(src@.to_multiset()) =~= orig.to_multiset());
            assert forall|i: int, j: int| 0 <= i < j < nv.len() implies version_le(
                (#[trigger] nv[i]).tag,
                (#[trigger] nv[j]).tag,
            ) by {
                if j < p {
                    assert(nv[i] == out_before[i] && nv[j] == out_before[j]);
                } else if i > p {
                    assert(nv[i] == out_before[i - 1] && nv[j] == out_before[j - 1]);
                } else if i == p {
                    assert(nv[j] == out_before[j - 1]);
                    assert(version_lt(x.tag, out_before[p as int].tag));
                    assert(version_le(out_before[p as int].tag, out_before[j - 1].tag));
                    lemma_version_lt_le_trans(x.tag, out_before[p as int].tag, out_before[j - 1].tag);
                } else if j == p {
                    assert(nv[i] == out_before[i]);
                } else {
                    assert(nv[i] == out_before[i]);
                    assert(nv[j] == out_before[j - 1]);
                    if i <= j - 2 {
                        assert(version_le(out_before[i].tag, out_before[j - 1].tag));
                    } else {
                        assert(i == j - 1 && i < p && j > p);
                        assert(false);
                    }
                }
            }
        }
    }
    match method {
        SortingMethod::Ascending => out,
        SortingMethod::Descending => {
            let mut rev: Vec<Release> = Vec::new();
            let ghost sorted = out@;
            let ghost n = out@.len();
            while out.len() > 0
                invariant
                    n == sorted.len(),
                    out@.len() + rev@.len() == n,
                    out@ =~= sorted.take(out@.len() as int),
                    forall|i: int| 0 <= i < rev@.len() ==> #[trigger] rev@[i] == sorted[n - 1 - i],
                    sorted_asc(sorted),
                    sorted.to_multiset() =~= orig.to_multiset(),
                    out@.to_multiset().add(rev@.to_multiset()) =~= sorted.to_multiset(),
                decreases out@.len(),
            {
                let ghost out_before = out@;
                let x = match out.pop() {
                    Some(x) => x,
                    None => {
                        proof {
                            assert(false);
                        }
                        continue ;
                    },
                };
                let ghost rev_before = rev@;
                rev.push(x);
                proof {
                    assert(out_before.remove(out_before.len() - 1) =~= out@);
                    assert(out_before.remove(out_before.len() - 1).to_multiset()
                        =~= out_before.to_multiset().remove(x));
                    assert(out_before.to_multiset().count(x) > 0) by {
                        assert(out_before.contains(x)) by {
                            assert(out_before[out_before.len() - 1] == x);
                        }
                    }
                    assert(rev@.to_multiset() =~= rev_before.to_multiset().insert(x));
                    assert(out@.to_multiset().add(rev@.to_multiset()) =~= sorted.to_multiset());
                    assert(out_before =~= sorted.take(out_before.len() as int));
                    assert(x == out_before[out_before.len() - 1]);
                    assert(sorted.take(out_before.len() as int)[out_before.len() - 1]
                        == sorted[out_before.len() - 1]);
                    assert(x == sorted[n - 1 - rev_before.len() as int]);
                    assert(out@ =~= out_before.drop_last());
                    assert forall|i: int| 0 <= i < out@.len() implies out@[i] == sorted[i] by {
                        assert(out_before[i] == sorted.take(out_before.len() as int)[i]);
                    }
                    assert(out@ =~= sorted.take(out@.len() as int));
                    assert forall|i: int| 0 <= i < rev@.len() implies #[trigger] rev@[i] == sorted[n
                        - 1 - i] by {
                        if i < rev_before.len() {
                            assert(rev@[i] == rev_before[i]);
                        } else {
                            assert(rev@[i] == x);
                        }
                    }
                }
            }
            proof {
                assert(rev@.to_multiset() =~= orig.to_multiset());
                assert forall|i: int, j: int| 0 <= i < j < rev@.len() implies version_le(
                    (#[trigger] rev@[j]).tag,
                    (#[trigger] rev@[i]).tag,
                ) by {
                    assert(rev@[i] == sorted[n - 1 - i]);
                    assert(rev@[j] == sorted[n - 1 - j]);
                }
            }
            rev
        },
    }
}

/// The release with the greatest tag; refused only on an empty list.
pub fn get_latest_version(releases: &Vec<Release>) -> (r: Result<Release, Error>)
    ensures
        match r {
            Ok(rel) => (exists|i: int|
                0 <= i < releases@.len() && releq(rel, #[trigger] releases@[i])) && (forall|
                j: int,
            |
                0 <= j < releases@.len() ==> version_le(
                    (#[trigger] releases@[j]).tag,
                    rel.tag,
                )),
            Err(_) => releases@.len() == 0,
        },
        (r matches Err(_)) == (releases@.len() == 0),
{
    let mut best: Option<Release> = None;
    let mut i: usize = 0;
    while i < releases.len()
        invariant
            0 <= i <= releases@.len(),
            match best {
                Some(rel) => (exists|k: int|
                    0 <= k < i && releq(rel, #[trigger] releases@[k])) && (forall|j: int|
                    0 <= j < i ==> version_le((#[trigger] releases@[j]).tag, rel.tag)),
                None => i == 0,
            },
        decreases releases@.len() - i,
    {
        let rel = &releases[i];
        match &best {
            None => {
                best = Some(rel.duplicate());
            },
            Some(cur) => {
                let c = cur.tag.compare(&rel.tag);
                if c == Cmp::Lt || c == Cmp::Eq {
                    proof {
                        assert forall|j: int| 0 <= j < i + 1 implies version_le(
                            (#[trigger] releases@[j]).tag,
                            releases@[i as int].tag,
                        ) by {
                            if j < i {
                                lemma_version_le_trans(
                                    releases@[j].tag,
                                    cur.tag,
                                    releases@[i as int].tag,
                                );
                            }
                        }
                    }
                    best = Some(rel.duplicate());
                } else {
                    proof {
                        crate::version::lemma_version_lt_asym(releases@[i as int].tag, cur.tag);
                    }
                }
            },
        }
        i = i + 1;
    }
    match best {
        Some(rel) => Ok(rel),
        None => Err(Error::NoVersionsAvailable),
    }
}

/// Keep the releases the selector matches, in their order.
pub fn filter_releases(
    releases: Vec<Release>,
    filter: &UserVersion,
    aliases: &Vec<StoredAlias>,
) -> (r: Vec<Release>)
    ensures
        r@ == releases@.filter((|rel: Release| matches_spec(*filter, rel.tag, aliases@))),
{
    let ghost orig = releases@;
    let ghost pred = (|rel: Release| matches_spec(*filter, rel.tag, aliases@));
    let mut src = releases;
    let total = src.len();
    let mut out: Vec<Release> = Vec::new();
    let mut i: usize = 0;
    while src.len() > 0
        invariant
            orig.len() == total,
            i + src@.len() == orig.len(),
            src@ =~= orig.skip(i as int),
            out@ == orig.take(i as int).filter(pred),
            pred == (|rel: Release| matches_spec(*filter, rel.tag, aliases@)),
        decreases src@.len(),
    {
        let x = src.remove(0);
        proof {
            assert(x == orig[i as int]);
        }
        let keep = filter.matches(&x.tag, aliases);
        proof {
            reveal(Seq::filter);
            let t1 = orig.take(i as int + 1);
            assert(t1.drop_last() =~= orig.take(i as int));
            assert(t1.last() == orig[i as int]);
        }
        if keep {
            out.push(x);
        }
        proof {
            assert(out@ == orig.take(i as int + 1).filter(pred));
            assert(src@ =~= orig.skip(i as int + 1));
        }
        i = i + 1;
    }
    proof {
        assert(orig.take(i as int) =~= orig);
    }
    out
}

/// The listing line of one release: its display string, and annotations
/// for a draft, a prerelease, a development tag, and a release the
/// platform cannot install.
pub struct VersionInfo {
    version: String,
    annotations: Vec<String>,
}

/// The annotations a release's line carries.
pub open spec fn annotations_spec(rel: Release, pf: Platform) -> Seq<Seq<char>> {
    (if rel.draft {
        seq!["(draft)"@]
    } else {
        Seq::empty()
    }) + (if rel.prerelease {
        seq!["(prerelease)"@]
    } else {
        Seq::empty()
    }) + (if rel.tag matches Version::Nightly(_) {
        seq!["(nightly)"@]
    } else {
        Seq::empty()
    }) + (if selected_asset(rel, pf) is None {
        seq!["(can't install)"@]
    } else {
        Seq::empty()
    })
}

/// The annotations joined on, each behind one space.
pub open spec fn suffixed(anns: Seq<Seq<char>>) -> Seq<char>
    decreases anns.len(),
{
    if anns.len() == 0 {
        Seq::empty()
    } else {
        suffixed(anns.drop_last()) + " "@ + anns.last()
    }
}

impl VersionInfo {
    /// The version column, seen in specifications.
    pub closed spec fn spec_version(&self) -> Seq<char> {
        self.version@
    }

    /// The annotation texts, seen in specifications.
    pub closed spec fn ann_views(&self) -> Seq<Seq<char>> {
        self.annotations@.map_values(|s: String| s@)
    }

    /// The listing line of the release on the platform.
    pub fn new(release: &Release, platform: &Platform) -> (r: VersionInfo)
        ensures
            r.spec_version() == display_seq(release.tag),
            r.ann_views() == annotations_spec(*release, *platform),
    {
        let version = release.tag.v_str();
        let mut annotations: Vec<String> = Vec::new();
        if release.draft {
            annotations.push("(draft)".to_owned());
        }
        proof {
            assert(annotations@.map_values(|s: String| s@) =~= (if release.draft {
                seq!["(draft)"@]
            } else {
                Seq::<Seq<char>>::empty()
            }));
        }
        if release.prerelease {
            annotations.push("(prerelease)".to_owned());
        }
        proof {
            assert(annotations@.map_values(|s: String| s@) =~= (if release.draft {
                seq!["(draft)"@]
            } else {
                Seq::<Seq<char>>::empty()
            }) + (if release.prerelease {
                seq!["(prerelease)"@]
            } else {
                Seq::<Seq<char>>::empty()
            }));
        }
        let ghost two = annotations@.map_values(|s: String| s@);
        if release.tag.is_nightly() {
            annotations.push("(nightly)".to_owned());
        }
        proof {
            assert(annotations@.map_values(|s: String| s@) =~= two + (
            if release.tag matches Version::Nightly(_) {
                seq!["(nightly)"@]
            } else {
                Seq::<Seq<char>>::empty()
            }));
        }
        let ghost three = annotations@.map_values(|s: String| s@);
        if !release.has_supported_asset(platform) {
            annotations.push("(can't install)".to_owned());
        }
        proof {
            assert(annotations@.map_values(|s: String| s@) =~= three + (
            if selected_asset(*release, *platform) is None {
                seq!["(can't install)"@]
            } else {
                Seq::<Seq<char>>::empty()
            }));
            assert(annotations@.map_values(|s: String| s@) =~= annotations_spec(
                *release,
                *platform,
            ));
        }
        VersionInfo { version, annotations }
    }

    /// The line as printed: the version, then the annotations separated
    /// by spaces.
    pub fn display(&self) -> (r: String)
        ensures
            r@ == self.spec_version() + suffixed(self.ann_views()),
    {
        let mut out = self.version.clone();
        let ghost anns = self.ann_views();
        let mut i: usize = 0;
        while i < self.annotations.len()
            invariant
                0 <= i <= self.annotations@.len(),
                anns == self.ann_views(),
                anns.len() == self.annotations@.len(),
                out@ == self.spec_version() + suffixed(anns.take(i as int)),
            decreases self.annotations@.len() - i,
        {
            out.append(" ");
            let a = &self.annotations[i];
            out.append(a.as_str());
            proof {
                let t1 = anns.take(i as int + 1);
                assert(t1.drop_last() =~= anns.take(i as int));
                assert(t1.last() == anns[i as int]);
                assert(anns[i as int] == self.annotations@[i as int]@);
                assert(out@ =~= self.spec_version() + suffixed(anns.take(i as int + 1)));
            }
            i = i + 1;
        }
        proof {
            assert(anns.take(i as int) =~= anns);
        }
        out
    }
}

} // verus!
