//! Upstream releases and the asset matcher: picking the one downloadable
//! asset whose file name fits the release tag and the platform.
//!
//! An asset file name fits when it reads
//! `pact-<name>-<middle>[-<d.d>][-<arch>].<ext>`: `<name>` one of the
//! numeric renderings of the tag, `<middle>` an OS alias, an arch alias,
//! or the two joined either way round, then an optional numeric platform
//! version, an optional arch alias again, and an archive suffix.

use vstd::prelude::*;
use vstd::string::StrSliceExecFns;

use crate::strutil::{dec_digits, is_digit, seg_eq_at, u64_to_dec};
use crate::system_info::{arch_alias_spec, os_alias_spec, Platform, PlatformArch, PlatformOS};
use crate::url_util::{last_path_segment, last_url_segment};
use crate::version::{display_seq, veq, version_le, version_lt, Version};

verus! {

/// One downloadable file of a release.
#[derive(Debug, Clone)]
pub struct Asset {
    pub download_url: String,
}

/// One upstream release: its tag, its flags, and its assets.
#[derive(Debug, Clone)]
pub struct Release {
    pub tag: Version,
    pub draft: bool,
    pub prerelease: bool,
    pub assets: Vec<Asset>,
}

/// The sequence is one of the set.
pub open spec fn in_set(x: Seq<char>, set: Seq<Seq<char>>) -> bool {
    exists|i: int| 0 <= i < set.len() && set[i] == x
}

/// The name patterns an asset may render the release tag as: for a
/// semver, the major alone, with the minor, with the patch, or with
/// both; for a symbolic tag, its text.
pub open spec fn name_candidates(tag: Version) -> Seq<Seq<char>> {
    match tag {
        Version::Semver { major, minor, patch } => {
            let m = dec_digits(major as nat);
            let n = dec_digits(minor as nat);
            let p = dec_digits(patch as nat);
            seq![
                m,
                m + seq!['.'] + n,
                m + seq!['.'] + p,
                m + seq!['.'] + n + seq!['.'] + p,
            ]
        },
        Version::Alias(t) => seq![t@],
        Version::Nightly(t) => seq![t@],
        Version::Latest => seq!["latest"@],
        Version::Bypassed => seq!["system"@],
    }
}

/// The middle of an asset name: an OS alias, an arch alias, or the two
/// joined by a dash in either order.
pub open spec fn is_middle(m: Seq<char>, os_al: Seq<Seq<char>>, arch_al: Seq<Seq<char>>) -> bool {
    in_set(m, os_al) || in_set(m, arch_al) || (exists|i: int, j: int|
        0 <= i < os_al.len() && 0 <= j < arch_al.len() && (m == #[trigger] os_al[i] + "-"@
            + #[trigger] arch_al[j] || m == arch_al[j] + "-"@ + os_al[i]))
}

/// An archive suffix.
pub open spec fn is_ext(s: Seq<char>) -> bool {
    s == ".tar.gz"@ || s == ".tar.xz"@ || s == ".zip"@
}

/// A platform-version part: a dash, digits, a dot, digits.
pub open spec fn is_version_part(s: Seq<char>) -> bool {
    s.len() >= 4 && s[0] == '-' && (exists|k: int|
        2 <= k <= s.len() - 2 && #[trigger] s[k] == '.' && (forall|i: int|
            1 <= i < k ==> is_digit(#[trigger] s[i])) && (forall|i: int|
            k < i < s.len() ==> is_digit(#[trigger] s[i])))
}

/// A dash, one of the arch aliases, and an archive suffix.
pub open spec fn arch_ext_with(t: Seq<char>, alias: Seq<char>) -> bool {
    t.len() > 1 + alias.len() && t[0] == '-' && t.subrange(1, 1 + alias.len() as int) == alias
        && is_ext(t.skip(1 + alias.len() as int))
}

/// The tail after an optional platform-version part: an archive suffix,
/// alone or behind a dashed arch alias.
pub open spec fn tail_rest(t: Seq<char>, arch_al: Seq<Seq<char>>) -> bool {
    is_ext(t) || (exists|j: int| 0 <= j < arch_al.len() && arch_ext_with(t, #[trigger] arch_al[j]))
}

/// The tail of an asset name after its middle: an optional
/// platform-version part, an optional dashed arch alias, and an archive
/// suffix.
pub open spec fn tail_match(t: Seq<char>, arch_al: Seq<Seq<char>>) -> bool {
    tail_rest(t, arch_al) || (exists|sp: int|
        4 <= sp <= t.len() && is_version_part(#[trigger] t.take(sp)) && tail_rest(
            t.skip(sp),
            arch_al,
        ))
}

/// The file name decomposes as `pact-`, a name, a dash, a middle, and a
/// tail.
pub open spec fn sdecomp(f: Seq<char>, n: Seq<char>, m: Seq<char>, t: Seq<char>) -> bool {
    f == "pact-"@ + n + "-"@ + m + t
}

/// The file name fits the release tag on the given OS and arch aliases.
pub open spec fn strict_match(
    f: Seq<char>,
    tag: Version,
    os_al: Seq<Seq<char>>,
    arch_al: Seq<Seq<char>>,
) -> bool {
    exists|n: Seq<char>, m: Seq<char>, t: Seq<char>|
        #[trigger] sdecomp(f, n, m, t) && in_set(n, name_candidates(tag)) && is_middle(
            m,
            os_al,
            arch_al,
        ) && tail_match(t, arch_al)
}

fn is_ext_at(f: &str, pos: usize) -> (r: bool)
    requires
        pos <= f@.len(),
    ensures
        r == is_ext(f@.skip(pos as int)),
{
    proof {
        reveal_strlit(".tar.gz");
        reveal_strlit(".tar.xz");
        reveal_strlit(".zip");
    }
    let ghost t = f@.skip(pos as int);
    let len = f.unicode_len();
    let remain = len - pos;
    if remain == 7 {
        if seg_eq_at(f, pos, ".tar.gz") {
            proof {
                assert(t =~= f@.subrange(pos as int, pos + 7));
            }
            return true;
        }
        if seg_eq_at(f, pos, ".tar.xz") {
            proof {
                assert(t =~= f@.subrange(pos as int, pos + 7));
            }
            return true;
        }
        proof {
            assert(t.len() == 7);
            if is_ext(t) {
                assert(t =~= f@.subrange(pos as int, pos + 7));
            }
        }
        false
    } else if remain == 4 {
        if seg_eq_at(f, pos, ".zip") {
            proof {
                assert(t =~= f@.subrange(pos as int, pos + 4));
            }
            return true;
        }
        proof {
            if is_ext(t) {
                assert(t =~= f@.subrange(pos as int, pos + 4));
            }
        }
        false
    } else {
        proof {
            assert(t.len() == remain);
        }
        false
    }
}

/// A tail that an archive suffix can open: its first character is a dot
/// or a dash, and it is at least four characters long.
proof fn lemma_tail_rest_first(t: Seq<char>, arch_al: Seq<Seq<char>>)
    requires
        tail_rest(t, arch_al),
    ensures
        t.len() >= 4,
        t[0] as int == 46 || t[0] as int == 45,
{
    reveal_strlit(".tar.gz");
    reveal_strlit(".tar.xz");
    reveal_strlit(".zip");
    if is_ext(t) {
    } else {
        let j = choose|j: int| 0 <= j < arch_al.len() && arch_ext_with(t, #[trigger] arch_al[j]);
        let a = arch_al[j];
        assert(is_ext(t.skip(1 + a.len() as int)));
        assert(t.skip(1 + a.len() as int).len() >= 4);
    }
}

fn rest_exec(f: &str, pos: usize, arch_v: &Vec<&'static str>, Ghost(arch_s): Ghost<Seq<Seq<char>>>) -> (r: bool)
    requires
        pos <= f@.len(),
        arch_v@.len() == arch_s.len(),
        forall|i: int| 0 <= i < arch_v@.len() ==> (#[trigger] arch_v@[i])@ == arch_s[i],
    ensures
        r == tail_rest(f@.skip(pos as int), arch_s),
{
    let ghost t = f@.skip(pos as int);
    let ghost aset = arch_s;
    if is_ext_at(f, pos) {
        return true;
    }
    let len = f.unicode_len();
    if pos >= len || f.get_char(pos) != '-' {
        proof {
            assert forall|j: int| 0 <= j < aset.len() implies !arch_ext_with(
                t,
                #[trigger] aset[j],
            ) by {}
        }
        return false;
    }
    let aliases = arch_v;
    let flen = len;
    let mut j: usize = 0;
    while j < aliases.len()
        invariant
            0 <= j <= aliases@.len(),
            aliases@.len() == aset.len(),
            forall|i: int| 0 <= i < aliases@.len() ==> (#[trigger] aliases@[i])@ == aset[i],
            flen == f@.len(),
            pos < f@.len(),
            t == f@.skip(pos as int),
            aset == arch_s,
            !is_ext(t),
            f@[pos as int] == '-',
            forall|jj: int| 0 <= jj < j ==> !arch_ext_with(t, #[trigger] aset[jj]),
        decreases aliases@.len() - j,
    {
        let a = aliases[j];
        let alen = a.unicode_len();
        let mut hit = false;
        if seg_eq_at(f, pos + 1, a) {
            if is_ext_at(f, pos + 1 + alen) {
                proof {
                    reveal_strlit(".tar.gz");
                    reveal_strlit(".tar.xz");
                    reveal_strlit(".zip");
                    assert(t.subrange(1, 1 + alen as int) =~= f@.subrange(
                        pos + 1,
                        pos + 1 + alen,
                    ));
                    assert(t.skip(1 + alen as int) =~= f@.skip(pos + 1 + alen));
                    assert(f@.skip(pos + 1 + alen).len() >= 4);
                    assert(arch_ext_with(t, aset[j as int]));
                }
                hit = true;
            }
        }
        if hit {
            return true;
        }
        proof {
            if arch_ext_with(t, aset[j as int]) {
                assert(t.subrange(1, 1 + alen as int) =~= f@.subrange(pos + 1, pos + 1 + alen));
                assert(t.skip(1 + alen as int) =~= f@.skip(pos + 1 + alen));
                assert(false);
            }
        }
        j = j + 1;
    }
    false
}

fn scan_digits(f: &str, from: usize) -> (r: usize)
    requires
        from <= f@.len(),
    ensures
        from <= r <= f@.len(),
        forall|k: int| from <= k < r ==> is_digit(#[trigger] f@[k]),
        r < f@.len() ==> !is_digit(f@[r as int]),
{
    let len = f.unicode_len();
    let mut j: usize = from;
    loop
        invariant
            from <= j <= len,
            len == f@.len(),
            forall|k: int| from <= k < j ==> is_digit(#[trigger] f@[k]),
        ensures
            from <= j <= len,
            forall|k: int| from <= k < j ==> is_digit(#[trigger] f@[k]),
            j < len ==> !is_digit(f@[j as int]),
        decreases len - j,
    {
        if j >= len {
            break ;
        }
        let c = f.get_char(j);
        let u = c as u32;
        if !(48 <= u && u <= 57) {
            break ;
        }
        j = j + 1;
    }
    j
}

fn tail_match_exec(f: &str, pos: usize, arch_v: &Vec<&'static str>, Ghost(arch_s): Ghost<Seq<Seq<char>>>) -> (r: bool)
    requires
        pos <= f@.len(),
        arch_v@.len() == arch_s.len(),
        forall|i: int| 0 <= i < arch_v@.len() ==> (#[trigger] arch_v@[i])@ == arch_s[i],
    ensures
        r == tail_match(f@.skip(pos as int), arch_s),
{
    let ghost t = f@.skip(pos as int);
    let ghost aset = arch_s;
    if rest_exec(f, pos, arch_v, Ghost(arch_s)) {
        return true;
    }
    let len = f.unicode_len();
    if pos >= len || f.get_char(pos) != '-' {
        proof {
            assert forall|sp: int|
                4 <= sp <= t.len() && is_version_part(#[trigger] t.take(sp)) implies false by {
                assert(t.take(sp)[0] == t[0]);
            }
        }
        return false;
    }
    let j = scan_digits(f, pos + 1);
    if j == pos + 1 || j >= len || f.get_char(j) != '.' {
        proof {
            assert forall|sp: int|
                4 <= sp <= t.len() && is_version_part(#[trigger] t.take(sp)) && tail_rest(
                    t.skip(sp),
                    aset,
                ) implies false by {
                let s = t.take(sp);
                let k = choose|k: int|
                    2 <= k <= s.len() - 2 && #[trigger] s[k] == '.' && (forall|i: int|
                        1 <= i < k ==> is_digit(#[trigger] s[i])) && (forall|i: int|
                        k < i < s.len() ==> is_digit(#[trigger] s[i]));
                // The first digit run is forced: the dot sits exactly at
                // the first non-digit after the dash.
                assert(s[1] == f@[pos + 1]);
                assert(is_digit(f@[pos + 1]));
                assert(j > pos + 1);
                if pos + k < j {
                    assert(is_digit(f@[pos + k]));
                    assert(f@[pos + k] == s[k]);
                } else if pos + k > j {
                    assert(is_digit(s[j - pos]));
                    assert(s[j - pos] == f@[j as int]);
                    assert(j < f@.len());
                } else {
                    assert(f@[j as int] == s[k]);
                    assert(j < f@.len());
                }
            }
        }
        return false;
    }
    let k2 = scan_digits(f, j + 1);
    if k2 == j + 1 {
        proof {
            assert forall|sp: int|
                4 <= sp <= t.len() && is_version_part(#[trigger] t.take(sp)) && tail_rest(
                    t.skip(sp),
                    aset,
                ) implies false by {
                let s = t.take(sp);
                let k = choose|k: int|
                    2 <= k <= s.len() - 2 && #[trigger] s[k] == '.' && (forall|i: int|
                        1 <= i < k ==> is_digit(#[trigger] s[i])) && (forall|i: int|
                        k < i < s.len() ==> is_digit(#[trigger] s[i]));
                assert(s[1] == f@[pos + 1]);
                assert(is_digit(f@[pos + 1]));
                if pos + k < j {
                    assert(is_digit(f@[pos + k]));
                    assert(f@[pos + k] == s[k]);
                } else if pos + k > j {
                    assert(is_digit(s[j - pos]));
                    assert(s[j - pos] == f@[j as int]);
                }
                // So k lands on the dot; the second run then starts with
                // a digit, where the scan saw none.
                assert(pos + k == j);
                assert(is_digit(s[k + 1]));
                assert(s[k + 1] == f@[j + 1]);
            }
        }
        return false;
    }
    let r2 = rest_exec(f, k2, arch_v, Ghost(arch_s));
    proof {
        let sp = k2 - pos;
        let s = t.take(sp as int);
        if r2 {
            assert(s[0] == f@[pos as int]);
            let k = j - pos;
            assert(s[k as int] == f@[j as int]);
            assert forall|i: int| 1 <= i < k implies is_digit(#[trigger] s[i]) by {
                assert(s[i] == f@[pos + i]);
            }
            assert forall|i: int| k < i < s.len() implies is_digit(#[trigger] s[i]) by {
                assert(s[i] == f@[pos + i]);
            }
            assert(2 <= k <= s.len() - 2);
            assert(is_version_part(s));
            assert(t.skip(sp as int) =~= f@.skip(k2 as int));
            assert(tail_rest(t.skip(sp as int), aset));
            assert(tail_match(t, aset));
        } else {
            assert forall|sp2: int|
                4 <= sp2 <= t.len() && is_version_part(#[trigger] t.take(sp2)) && tail_rest(
                    t.skip(sp2),
                    aset,
                ) implies false by {
                let s2 = t.take(sp2);
                let k = choose|k: int|
                    2 <= k <= s2.len() - 2 && #[trigger] s2[k] == '.' && (forall|i: int|
                        1 <= i < k ==> is_digit(#[trigger] s2[i])) && (forall|i: int|
                        k < i < s2.len() ==> is_digit(#[trigger] s2[i]));
                assert(s2[1] == f@[pos + 1]);
                if pos + k < j {
                    assert(is_digit(f@[pos + k]));
                    assert(f@[pos + k] == s2[k]);
                } else if pos + k > j {
                    assert(is_digit(s2[j - pos]));
                    assert(s2[j - pos] == f@[j as int]);
                }
                assert(pos + k == j);
                // The second digit run is forced too: the tail after the
                // version part opens with a dot or a dash.
                lemma_tail_rest_first(t.skip(sp2), aset);
                assert(t.skip(sp2)[0] == t[sp2]);
                assert(t[sp2] == f@[pos + sp2]);
                if pos + sp2 > k2 {
                    assert(k2 < f@.len());
                    assert(is_digit(s2[k2 - pos]));
                    assert(s2[k2 - pos] == f@[k2 as int]);
                    assert(!is_digit(f@[k2 as int]));
                } else if pos + sp2 < k2 {
                    assert(is_digit(f@[pos + sp2]));
                }
                assert(pos + sp2 == k2);
                assert(t.skip(sp2) =~= f@.skip(k2 as int));
            }
        }
    }
    r2
}

fn name_candidates_exec(tag: &Version) -> (r: Vec<String>)
    ensures
        r@.len() == name_candidates(*tag).len(),
        forall|i: int| 0 <= i < r@.len() ==> (#[trigger] r@[i])@ == name_candidates(*tag)[i],
{
    proof {
        reveal_strlit(".");
    }
    match tag {
        Version::Semver { major, minor, patch } => {
            let m = u64_to_dec(*major);
            let n = u64_to_dec(*minor);
            let p = u64_to_dec(*patch);
            let mut c2 = m.clone();
            c2.append(".");
            c2.append(n.as_str());
            let mut c3 = m.clone();
            c3.append(".");
            c3.append(p.as_str());
            let mut c4 = c2.clone();
            c4.append(".");
            c4.append(p.as_str());
            let mut v: Vec<String> = Vec::new();
            v.push(m);
            v.push(c2);
            v.push(c3);
            v.push(c4);
            proof {
                let cand = name_candidates(*tag);
                assert("."@ =~= seq!['.']);
                assert(v@[0]@ =~= cand[0]);
                assert(v@[1]@ =~= cand[1]);
                assert(v@[2]@ =~= cand[2]);
                assert(v@[3]@ =~= cand[3]);
            }
            v
        },
        Version::Alias(t) => {
            let v = vec![t.clone()];
            proof {
                assert(v@[0]@ =~= name_candidates(*tag)[0]);
            }
            v
        },
        Version::Nightly(t) => {
            let v = vec![t.clone()];
            proof {
                assert(v@[0]@ =~= name_candidates(*tag)[0]);
            }
            v
        },
        Version::Latest => {
            let v = vec!["latest".to_owned()];
            proof {
                assert(v@[0]@ =~= name_candidates(*tag)[0]);
            }
            v
        },
        Version::Bypassed => {
            let v = vec!["system".to_owned()];
            proof {
                assert(v@[0]@ =~= name_candidates(*tag)[0]);
            }
            v
        },
    }
}

/// Some element of the vector reads as the sequence.
pub open spec fn in_views(v: Seq<String>, m: Seq<char>) -> bool {
    exists|i: int| 0 <= i < v.len() && (#[trigger] v[i])@ == m
}

proof fn lemma_in_views_push(v: Seq<String>, x: String, m: Seq<char>)
    requires
        in_views(v, m),
    ensures
        in_views(v.push(x), m),
{
    let i = choose|i: int| 0 <= i < v.len() && (#[trigger] v[i])@ == m;
    assert((v.push(x)[i])@ == m);
}

fn middle_candidates_exec(
    os_v: &Vec<&'static str>,
    arch_v: &Vec<&'static str>,
    Ghost(os_s): Ghost<Seq<Seq<char>>>,
    Ghost(arch_s): Ghost<Seq<Seq<char>>>,
) -> (r: Vec<String>)
    requires
        os_v@.len() == os_s.len(),
        forall|i: int| 0 <= i < os_v@.len() ==> (#[trigger] os_v@[i])@ == os_s[i],
        arch_v@.len() == arch_s.len(),
        forall|i: int| 0 <= i < arch_v@.len() ==> (#[trigger] arch_v@[i])@ == arch_s[i],
    ensures
        forall|idx: int|
            0 <= idx < r@.len() ==> is_middle((#[trigger] r@[idx])@, os_s, arch_s),
        forall|m: Seq<char>| is_middle(m, os_s, arch_s) ==> in_views(r@, m),
{
    proof {
        reveal_strlit("-");
    }
    let mut v: Vec<String> = Vec::new();
    let mut i: usize = 0;
    while i < os_v.len()
        invariant
            0 <= i <= os_v@.len(),
            os_v@.len() == os_s.len(),
            forall|k: int| 0 <= k < os_v@.len() ==> (#[trigger] os_v@[k])@ == os_s[k],
            arch_v@.len() == arch_s.len(),
            forall|k: int| 0 <= k < arch_v@.len() ==> (#[trigger] arch_v@[k])@ == arch_s[k],
            "-"@ =~= seq!['-'],
            forall|idx: int|
                0 <= idx < v@.len() ==> is_middle((#[trigger] v@[idx])@, os_s, arch_s),
            forall|ii: int| 0 <= ii < i ==> in_views(v@, #[trigger] os_s[ii]),
            forall|ii: int, jj: int|
                0 <= ii < i && 0 <= jj < arch_s.len() ==> in_views(
                    v@,
                    #[trigger] os_s[ii] + "-"@ + #[trigger] arch_s[jj],
                ) && in_views(v@, arch_s[jj] + "-"@ + os_s[ii]),
        decreases os_v@.len() - i,
    {
        let o = os_v[i];
        let ghost before = v@;
        v.push(o.to_owned());
        proof {
            assert(v@[before.len() as int]@ == os_s[i as int]);
            assert(in_set(os_s[i as int], os_s));
            assert forall|ii: int| 0 <= ii < i implies in_views(v@, #[trigger] os_s[ii]) by {
                lemma_in_views_push(before, v@.last(), os_s[ii]);
            }
            assert forall|ii: int, jj: int|
                0 <= ii < i && 0 <= jj < arch_s.len() implies in_views(
                v@,
                #[trigger] os_s[ii] + "-"@ + #[trigger] arch_s[jj],
            ) && in_views(v@, arch_s[jj] + "-"@ + os_s[ii]) by {
                lemma_in_views_push(before, v@.last(), os_s[ii] + "-"@ + arch_s[jj]);
                lemma_in_views_push(before, v@.last(), arch_s[jj] + "-"@ + os_s[ii]);
            }
        }
        let mut j: usize = 0;
        while j < arch_v.len()
            invariant
                0 <= i < os_v@.len(),
                0 <= j <= arch_v@.len(),
                o@ == os_s[i as int],
                os_v@.len() == os_s.len(),
                forall|k: int| 0 <= k < os_v@.len() ==> (#[trigger] os_v@[k])@ == os_s[k],
                arch_v@.len() == arch_s.len(),
                forall|k: int| 0 <= k < arch_v@.len() ==> (#[trigger] arch_v@[k])@ == arch_s[k],
                "-"@ =~= seq!['-'],
                forall|idx: int|
                    0 <= idx < v@.len() ==> is_middle((#[trigger] v@[idx])@, os_s, arch_s),
                forall|ii: int| 0 <= ii <= i ==> in_views(v@, #[trigger] os_s[ii]),
                forall|ii: int, jj: int|
                    0 <= ii < i && 0 <= jj < arch_s.len() ==> in_views(
                        v@,
                        #[trigger] os_s[ii] + "-"@ + #[trigger] arch_s[jj],
                    ) && in_views(v@, arch_s[jj] + "-"@ + os_s[ii]),
                forall|jj: int|
                    0 <= jj < j ==> in_views(
                        v@,
                        #[trigger] os_s[i as int] + "-"@ + #[trigger] arch_s[jj],
                    ) && in_views(v@, arch_s[jj] + "-"@ + os_s[i as int]),
            decreases arch_v@.len() - j,
        {
            let a = arch_v[j];
            let mut oa = o.to_owned();
            oa.append("-");
            oa.append(a);
            let mut ao = a.to_owned();
            ao.append("-");
            ao.append(o);
            let ghost b1 = v@;
            v.push(oa);
            proof {
                assert(v@[b1.len() as int]@ =~= os_s[i as int] + "-"@ + arch_s[j as int]);
                assert forall|idx: int|
                    0 <= idx < v@.len() implies is_middle((#[trigger] v@[idx])@, os_s, arch_s) by {
                    if idx == b1.len() {
                        assert(0 <= i < os_s.len() && 0 <= j < arch_s.len() && (v@[idx]@
                            == #[trigger] os_s[i as int] + "-"@ + #[trigger] arch_s[j as int]
                            || v@[idx]@ == arch_s[j as int] + "-"@ + os_s[i as int]));
                    }
                }
            }
            let ghost b2 = v@;
            v.push(ao);
            proof {
                assert(v@[b2.len() as int]@ =~= arch_s[j as int] + "-"@ + os_s[i as int]);
                assert forall|idx: int|
                    0 <= idx < v@.len() implies is_middle((#[trigger] v@[idx])@, os_s, arch_s) by {
                    if idx == b2.len() {
                        assert(0 <= i < os_s.len() && 0 <= j < arch_s.len() && (v@[idx]@
                            == #[trigger] os_s[i as int] + "-"@ + #[trigger] arch_s[j as int]
                            || v@[idx]@ == arch_s[j as int] + "-"@ + os_s[i as int]));
                    }
                }
                assert(in_views(v@, os_s[i as int] + "-"@ + arch_s[j as int])) by {
                    lemma_in_views_push(b2, v@.last(), os_s[i as int] + "-"@ + arch_s[j as int]);
                    assert(in_views(b2, os_s[i as int] + "-"@ + arch_s[j as int])) by {
                        assert(b2[b1.len() as int]@ == os_s[i as int] + "-"@ + arch_s[j as int]);
                    }
                }
                assert(in_views(v@, arch_s[j as int] + "-"@ + os_s[i as int])) by {
                    assert(v@[b2.len() as int]@ == arch_s[j as int] + "-"@ + os_s[i as int]);
                }
                assert forall|ii: int| 0 <= ii <= i implies in_views(v@, #[trigger] os_s[ii]) by {
                    lemma_in_views_push(b1, b2.last(), os_s[ii]);
                    lemma_in_views_push(b2, v@.last(), os_s[ii]);
                }
                assert forall|ii: int, jj: int|
                    0 <= ii < i && 0 <= jj < arch_s.len() implies in_views(
                    v@,
                    #[trigger] os_s[ii] + "-"@ + #[trigger] arch_s[jj],
                ) && in_views(v@, arch_s[jj] + "-"@ + os_s[ii]) by {
                    lemma_in_views_push(b1, b2.last(), os_s[ii] + "-"@ + arch_s[jj]);
                    lemma_in_views_push(b2, v@.last(), os_s[ii] + "-"@ + arch_s[jj]);
                    lemma_in_views_push(b1, b2.last(), arch_s[jj] + "-"@ + os_s[ii]);
                    lemma_in_views_push(b2, v@.last(), arch_s[jj] + "-"@ + os_s[ii]);
                }
                assert forall|jj: int|
                    0 <= jj < j implies in_views(
                    v@,
                    #[trigger] os_s[i as int] + "-"@ + #[trigger] arch_s[jj],
                ) && in_views(v@, arch_s[jj] + "-"@ + os_s[i as int]) by {
                    lemma_in_views_push(b1, b2.last(), os_s[i as int] + "-"@ + arch_s[jj]);
                    lemma_in_views_push(b2, v@.last(), os_s[i as int] + "-"@ + arch_s[jj]);
                    lemma_in_views_push(b1, b2.last(), arch_s[jj] + "-"@ + os_s[i as int]);
                    lemma_in_views_push(b2, v@.last(), arch_s[jj] + "-"@ + os_s[i as int]);
                }
            }
            j = j + 1;
        }
        i = i + 1;
    }
    let mut j: usize = 0;
    while j < arch_v.len()
        invariant
            0 <= j <= arch_v@.len(),
            os_v@.len() == os_s.len(),
            arch_v@.len() == arch_s.len(),
            forall|k: int| 0 <= k < arch_v@.len() ==> (#[trigger] arch_v@[k])@ == arch_s[k],
            forall|idx: int|
                0 <= idx < v@.len() ==> is_middle((#[trigger] v@[idx])@, os_s, arch_s),
            forall|ii: int| 0 <= ii < os_s.len() ==> in_views(v@, #[trigger] os_s[ii]),
            forall|ii: int, jj: int|
                0 <= ii < os_s.len() && 0 <= jj < arch_s.len() ==> in_views(
                    v@,
                    #[trigger] os_s[ii] + "-"@ + #[trigger] arch_s[jj],
                ) && in_views(v@, arch_s[jj] + "-"@ + os_s[ii]),
            forall|jj: int| 0 <= jj < j ==> in_views(v@, #[trigger] arch_s[jj]),
        decreases arch_v@.len() - j,
    {
        let a = arch_v[j];
        let ghost before = v@;
        v.push(a.to_owned());
        proof {
            assert(v@[before.len() as int]@ == arch_s[j as int]);
            assert(in_set(arch_s[j as int], arch_s));
            assert forall|ii: int| 0 <= ii < os_s.len() implies in_views(
                v@,
                #[trigger] os_s[ii],
            ) by {
                lemma_in_views_push(before, v@.last(), os_s[ii]);
            }
            assert forall|ii: int, jj: int|
                0 <= ii < os_s.len() && 0 <= jj < arch_s.len() implies in_views(
                v@,
                #[trigger] os_s[ii] + "-"@ + #[trigger] arch_s[jj],
            ) && in_views(v@, arch_s[jj] + "-"@ + os_s[ii]) by {
                lemma_in_views_push(before, v@.last(), os_s[ii] + "-"@ + arch_s[jj]);
                lemma_in_views_push(before, v@.last(), arch_s[jj] + "-"@ + os_s[ii]);
            }
            assert forall|jj: int| 0 <= jj < j implies in_views(v@, #[trigger] arch_s[jj]) by {
                lemma_in_views_push(before, v@.last(), arch_s[jj]);
            }
        }
        j = j + 1;
    }
    proof {
        assert forall|m: Seq<char>| is_middle(m, os_s, arch_s) implies in_views(v@, m) by {
            if in_set(m, os_s) {
                let ii = choose|ii: int| 0 <= ii < os_s.len() && os_s[ii] == m;
                assert(in_views(v@, os_s[ii]));
            } else if in_set(m, arch_s) {
                let jj = choose|jj: int| 0 <= jj < arch_s.len() && arch_s[jj] == m;
                assert(in_views(v@, arch_s[jj]));
            } else {
                let (ii, jj) = choose|ii: int, jj: int|
                    0 <= ii < os_s.len() && 0 <= jj < arch_s.len() && (m == #[trigger] os_s[ii]
                        + "-"@ + #[trigger] arch_s[jj] || m == arch_s[jj] + "-"@ + os_s[ii]);
                assert(in_views(v@, os_s[ii] + "-"@ + arch_s[jj]));
                assert(in_views(v@, arch_s[jj] + "-"@ + os_s[ii]));
            }
        }
    }
    v
}

/// The file name opens with `pact-`, the given name, a dash and the
/// given middle, and its tail fits.
pub open spec fn pm_cond(
    f: Seq<char>,
    n: Seq<char>,
    m: Seq<char>,
    arch_s: Seq<Seq<char>>,
) -> bool {
    let pre = "pact-"@ + n + "-"@ + m;
    pre.len() <= f.len() && f.take(pre.len() as int) == pre && tail_match(
        f.skip(pre.len() as int),
        arch_s,
    )
}

proof fn lemma_pm_cond_iff(f: Seq<char>, tag: Version, os_s: Seq<Seq<char>>, arch_s: Seq<Seq<char>>)
    ensures
        strict_match(f, tag, os_s, arch_s) == (exists|n: Seq<char>, m: Seq<char>|
            in_set(n, name_candidates(tag)) && is_middle(m, os_s, arch_s) && #[trigger] pm_cond(
                f,
                n,
                m,
                arch_s,
            )),
{
    if strict_match(f, tag, os_s, arch_s) {
        let (n, m, t) = choose|n: Seq<char>, m: Seq<char>, t: Seq<char>|
            #[trigger] sdecomp(f, n, m, t) && in_set(n, name_candidates(tag)) && is_middle(
                m,
                os_s,
                arch_s,
            ) && tail_match(t, arch_s);
        let pre = "pact-"@ + n + "-"@ + m;
        assert(f == pre + t);
        assert(f.take(pre.len() as int) =~= pre);
        assert(f.skip(pre.len() as int) =~= t);
        assert(pm_cond(f, n, m, arch_s));
    }
    if exists|n: Seq<char>, m: Seq<char>|
        in_set(n, name_candidates(tag)) && is_middle(m, os_s, arch_s) && #[trigger] pm_cond(
            f,
            n,
            m,
            arch_s,
        ) {
        let (n, m) = choose|n: Seq<char>, m: Seq<char>|
            in_set(n, name_candidates(tag)) && is_middle(m, os_s, arch_s) && #[trigger] pm_cond(
                f,
                n,
                m,
                arch_s,
            );
        let pre = "pact-"@ + n + "-"@ + m;
        let t = f.skip(pre.len() as int);
        assert(f =~= f.take(pre.len() as int) + f.skip(pre.len() as int));
        assert(sdecomp(f, n, m, t));
        assert(strict_match(f, tag, os_s, arch_s));
    }
}

fn strict_core(
    f: &str,
    tag: &Version,
    os_v: &Vec<&'static str>,
    arch_v: &Vec<&'static str>,
    Ghost(os_s): Ghost<Seq<Seq<char>>>,
    Ghost(arch_s): Ghost<Seq<Seq<char>>>,
) -> (r: bool)
    requires
        os_v@.len() == os_s.len(),
        forall|i: int| 0 <= i < os_v@.len() ==> (#[trigger] os_v@[i])@ == os_s[i],
        arch_v@.len() == arch_s.len(),
        forall|i: int| 0 <= i < arch_v@.len() ==> (#[trigger] arch_v@[i])@ == arch_s[i],
    ensures
        r == strict_match(f@, *tag, os_s, arch_s),
{
    proof {
        lemma_pm_cond_iff(f@, *tag, os_s, arch_s);
    }
    let names = name_candidates_exec(tag);
    let middles = middle_candidates_exec(os_v, arch_v, Ghost(os_s), Ghost(arch_s));
    let flen = f.unicode_len();
    let mut i: usize = 0;
    while i < names.len()
        invariant
            0 <= i <= names@.len(),
            flen == f@.len(),
            names@.len() == name_candidates(*tag).len(),
            forall|k: int|
                0 <= k < names@.len() ==> (#[trigger] names@[k])@ == name_candidates(*tag)[k],
            forall|idx: int|
                0 <= idx < middles@.len() ==> is_middle((#[trigger] middles@[idx])@, os_s, arch_s),
            forall|m: Seq<char>| is_middle(m, os_s, arch_s) ==> in_views(middles@, m),
            arch_v@.len() == arch_s.len(),
            forall|k: int| 0 <= k < arch_v@.len() ==> (#[trigger] arch_v@[k])@ == arch_s[k],
            forall|ii: int, jj: int|
                0 <= ii < i && 0 <= jj < middles@.len() ==> !pm_cond(
                    f@,
                    (#[trigger] names@[ii])@,
                    (#[trigger] middles@[jj])@,
                    arch_s,
                ),
        decreases names@.len() - i,
    {
        let n = &names[i];
        let mut j: usize = 0;
        while j < middles.len()
            invariant
                0 <= i < names@.len(),
                0 <= j <= middles@.len(),
                flen == f@.len(),
                n@ == names@[i as int]@,
                i < name_candidates(*tag).len(),
                n@ == name_candidates(*tag)[i as int],
                forall|idx: int|
                    0 <= idx < middles@.len() ==> is_middle(
                        (#[trigger] middles@[idx])@,
                        os_s,
                        arch_s,
                    ),
                arch_v@.len() == arch_s.len(),
                forall|k: int| 0 <= k < arch_v@.len() ==> (#[trigger] arch_v@[k])@ == arch_s[k],
                forall|jj: int|
                    0 <= jj < j ==> !pm_cond(f@, n@, (#[trigger] middles@[jj])@, arch_s),
            decreases middles@.len() - j,
        {
            let m = &middles[j];
            let mut pre = "pact-".to_owned();
            pre.append(n.as_str());
            pre.append("-");
            pre.append(m.as_str());
            let ghost prev = "pact-"@ + n@ + "-"@ + m@;
            proof {
                assert(pre@ == prev);
            }
            let plen = pre.as_str().unicode_len();
            if seg_eq_at(f, 0, pre.as_str()) {
                if tail_match_exec(f, plen, arch_v, Ghost(arch_s)) {
                    proof {
                        lemma_pm_cond_iff(f@, *tag, os_s, arch_s);
                        assert(f@.take(plen as int) =~= f@.subrange(0, 0 + pre@.len() as int));
                        assert(pm_cond(f@, n@, m@, arch_s));
                        assert(in_set(n@, name_candidates(*tag)));
                        assert(is_middle(m@, os_s, arch_s));
                    }
                    return true;
                }
            }
            proof {
                if pm_cond(f@, n@, m@, arch_s) {
                    assert(f@.take(plen as int) =~= f@.subrange(0, 0 + pre@.len() as int));
                    assert(false);
                }
            }
            j = j + 1;
        }
        i = i + 1;
    }
    proof {
        lemma_pm_cond_iff(f@, *tag, os_s, arch_s);
        if strict_match(f@, *tag, os_s, arch_s) {
            let (n, m) = choose|n: Seq<char>, m: Seq<char>|
                in_set(n, name_candidates(*tag)) && is_middle(m, os_s, arch_s) && #[trigger] pm_cond(
                    f@,
                    n,
                    m,
                    arch_s,
                );
            let ii = choose|ii: int| 0 <= ii < name_candidates(*tag).len() && name_candidates(
                *tag,
            )[ii] == n;
            assert(in_views(middles@, m));
            let jj = choose|jj: int| 0 <= jj < middles@.len() && (#[trigger] middles@[jj])@ == m;
            assert(!pm_cond(f@, names@[ii]@, middles@[jj]@, arch_s));
        }
    }
    false
}

/// The URL's file name fits the release tag on the given alias sets.
pub open spec fn url_fits(
    u: Seq<char>,
    tag: Version,
    os_s: Seq<Seq<char>>,
    arch_s: Seq<Seq<char>>,
) -> bool {
    match last_url_segment(u) {
        Some(n) => strict_match(n, tag, os_s, arch_s),
        None => false,
    }
}

/// The asset's file name fits the release tag on the given alias sets.
pub open spec fn asset_fits(
    a: Asset,
    tag: Version,
    os_s: Seq<Seq<char>>,
    arch_s: Seq<Seq<char>>,
) -> bool {
    url_fits(a.download_url@, tag, os_s, arch_s)
}

/// Index of the first asset that fits, or -1 when none does.
pub open spec fn first_fit(
    assets: Seq<Asset>,
    tag: Version,
    os_s: Seq<Seq<char>>,
    arch_s: Seq<Seq<char>>,
) -> int
    decreases assets.len(),
{
    if assets.len() == 0 {
        -1
    } else if asset_fits(assets[0], tag, os_s, arch_s) {
        0
    } else {
        let r = first_fit(assets.skip(1), tag, os_s, arch_s);
        if r < 0 {
            -1
        } else {
            r + 1
        }
    }
}

proof fn lemma_first_fit_at(
    assets: Seq<Asset>,
    tag: Version,
    os_s: Seq<Seq<char>>,
    arch_s: Seq<Seq<char>>,
    i: int,
)
    requires
        0 <= i < assets.len(),
        asset_fits(assets[i], tag, os_s, arch_s),
        forall|j: int| 0 <= j < i ==> !asset_fits(#[trigger] assets[j], tag, os_s, arch_s),
    ensures
        first_fit(assets, tag, os_s, arch_s) == i,
    decreases i,
{
    if i > 0 {
        lemma_first_fit_at(assets.skip(1), tag, os_s, arch_s, i - 1);
    }
}

proof fn lemma_first_fit_none(
    assets: Seq<Asset>,
    tag: Version,
    os_s: Seq<Seq<char>>,
    arch_s: Seq<Seq<char>>,
)
    requires
        forall|j: int|
            0 <= j < assets.len() ==> !asset_fits(#[trigger] assets[j], tag, os_s, arch_s),
    ensures
        first_fit(assets, tag, os_s, arch_s) == -1,
    decreases assets.len(),
{
    if assets.len() > 0 {
        lemma_first_fit_none(assets.skip(1), tag, os_s, arch_s);
    }
}

proof fn lemma_first_fit_props(
    assets: Seq<Asset>,
    tag: Version,
    os_s: Seq<Seq<char>>,
    arch_s: Seq<Seq<char>>,
)
    ensures
        first_fit(assets, tag, os_s, arch_s) == -1 ==> forall|j: int|
            0 <= j < assets.len() ==> !asset_fits(#[trigger] assets[j], tag, os_s, arch_s),
        first_fit(assets, tag, os_s, arch_s) >= 0 ==> {
            let r = first_fit(assets, tag, os_s, arch_s);
            r < assets.len() && asset_fits(assets[r], tag, os_s, arch_s) && (forall|j: int|
                0 <= j < r ==> !asset_fits(#[trigger] assets[j], tag, os_s, arch_s))
        },
    decreases assets.len(),
{
    if assets.len() > 0 {
        lemma_first_fit_props(assets.skip(1), tag, os_s, arch_s);
        let r = first_fit(assets, tag, os_s, arch_s);
        let rs = first_fit(assets.skip(1), tag, os_s, arch_s);
        if !asset_fits(assets[0], tag, os_s, arch_s) {
            if rs == -1 {
                assert forall|j: int| 0 <= j < assets.len() implies !asset_fits(
                    #[trigger] assets[j],
                    tag,
                    os_s,
                    arch_s,
                ) by {
                    if j > 0 {
                        assert(assets[j] == assets.skip(1)[j - 1]);
                    }
                }
            } else {
                assert(assets[r] == assets.skip(1)[rs]);
                assert forall|j: int| 0 <= j < r implies !asset_fits(
                    #[trigger] assets[j],
                    tag,
                    os_s,
                    arch_s,
                ) by {
                    if j > 0 {
                        assert(assets[j] == assets.skip(1)[j - 1]);
                    }
                }
            }
        }
    }
}

/// The asset the matcher selects for a release on a platform: the first
/// strictly fitting one; on the 64-bit default arch, when none fits
/// strictly, the first that fits with the arch group dropped; none when
/// the arch has no aliases.
pub open spec fn selected_asset(rel: Release, pf: Platform) -> Option<int> {
    let os_s = os_alias_spec(pf.0);
    let arch_s = arch_alias_spec(pf.1);
    if arch_s.len() == 0 {
        None
    } else if first_fit(rel.assets@, rel.tag, os_s, arch_s) >= 0 {
        Some(first_fit(rel.assets@, rel.tag, os_s, arch_s))
    } else if pf.1 == PlatformArch::X64 && first_fit(rel.assets@, rel.tag, os_s, Seq::empty())
        >= 0 {
        Some(first_fit(rel.assets@, rel.tag, os_s, Seq::empty()))
    } else {
        None
    }
}

/// A matcher for asset file names, fixed to one release tag and one
/// platform.
pub struct AssetNameMatcher {
    pub tag: Version,
    pub os: PlatformOS,
    pub arch: PlatformArch,
}

impl AssetNameMatcher {
    /// Whether the file name fits the tag on this platform.
    pub fn is_match(&self, name: &str) -> (r: bool)
        ensures
            r == strict_match(name@, self.tag, os_alias_spec(self.os), arch_alias_spec(self.arch)),
    {
        let os_v = self.os.aliases();
        let arch_v = self.arch.aliases();
        strict_core(
            name,
            &self.tag,
            &os_v,
            &arch_v,
            Ghost(os_alias_spec(self.os)),
            Ghost(arch_alias_spec(self.arch)),
        )
    }
}

impl Release {
    /// The file-name matcher for this release on the platform; refused
    /// when the arch is one that release assets never name.
    pub fn version_matcher_for_platform(&self, platform: &Platform) -> (r: Result<
        AssetNameMatcher,
        String,
    >)
        ensures
            match r {
                Ok(m) => arch_alias_spec(platform.1).len() > 0 && veq(m.tag, self.tag) && m.tag
                    == self.tag && m.os == platform.0 && m.arch == platform.1,
                Err(_) => arch_alias_spec(platform.1).len() == 0,
            },
    {
        let Platform(os, arch) = *platform;
        let arch_v = arch.aliases();
        if arch_v.len() == 0 {
            let mut msg = "Unsupported architecture: ".to_owned();
            msg.append(arch.as_str());
            return Err(msg);
        }
        Ok(AssetNameMatcher { tag: self.tag.duplicate(), os, arch })
    }

    /// The asset to download for this release on the given platform.
    pub fn asset_for_current_platform(&self, platform: &Platform) -> (r: Option<&Asset>)
        ensures
            match r {
                Some(a) => selected_asset(*self, *platform) matches Some(i) && 0 <= i
                    < self.assets@.len() && *a == self.assets@[i],
                None => selected_asset(*self, *platform) is None,
            },
    {
        let Platform(os, arch) = *platform;
        let ghost os_s = os_alias_spec(os);
        let ghost arch_s = arch_alias_spec(arch);
        let arch_v = arch.aliases();
        if arch_v.len() == 0 {
            return None;
        }
        let os_v = os.aliases();
        let mut i: usize = 0;
        while i < self.assets.len()
            invariant
                0 <= i <= self.assets@.len(),
                os_s == os_alias_spec(os),
                arch_s == arch_alias_spec(arch),
                os_v@.len() == os_s.len(),
                forall|k: int| 0 <= k < os_v@.len() ==> (#[trigger] os_v@[k])@ == os_s[k],
                arch_v@.len() == arch_s.len(),
                forall|k: int| 0 <= k < arch_v@.len() ==> (#[trigger] arch_v@[k])@ == arch_s[k],
                arch_s.len() > 0,
                os == platform.0 && arch == platform.1,
                forall|j: int|
                    0 <= j < i ==> !asset_fits(
                        #[trigger] self.assets@[j],
                        self.tag,
                        os_s,
                        arch_s,
                    ),
            decreases self.assets@.len() - i,
        {
            let a = &self.assets[i];
            let hit = match last_path_segment(a.download_url.as_str()) {
                Some(fname) => strict_core(
                    fname.as_str(),
                    &self.tag,
                    &os_v,
                    &arch_v,
                    Ghost(os_s),
                    Ghost(arch_s),
                ),
                None => false,
            };
            proof {
                assert(hit == asset_fits(self.assets@[i as int], self.tag, os_s, arch_s));
            }
            if hit {
                proof {
                    lemma_first_fit_at(self.assets@, self.tag, os_s, arch_s, i as int);
                }
                return Some(a);
            }
            i = i + 1;
        }
        proof {
            lemma_first_fit_none(self.assets@, self.tag, os_s, arch_s);
        }
        if matches!(arch, PlatformArch::X64) {
            let empty_v: Vec<&'static str> = Vec::new();
            let ghost empty_s = Seq::<Seq<char>>::empty();
            let mut i: usize = 0;
            while i < self.assets.len()
                invariant
                    0 <= i <= self.assets@.len(),
                    os_s == os_alias_spec(os),
                    arch_s == arch_alias_spec(arch),
                    os_v@.len() == os_s.len(),
                    forall|k: int| 0 <= k < os_v@.len() ==> (#[trigger] os_v@[k])@ == os_s[k],
                    empty_v@.len() == 0,
                    empty_s == Seq::<Seq<char>>::empty(),
                    arch_s.len() > 0,
                    arch == PlatformArch::X64,
                    os == platform.0 && arch == platform.1,
                    first_fit(self.assets@, self.tag, os_s, arch_s) == -1,
                    forall|j: int|
                        0 <= j < i ==> !asset_fits(
                            #[trigger] self.assets@[j],
                            self.tag,
                            os_s,
                            empty_s,
                        ),
                decreases self.assets@.len() - i,
            {
                let a = &self.assets[i];
                let hit = match last_path_segment(a.download_url.as_str()) {
                    Some(fname) => strict_core(
                        fname.as_str(),
                        &self.tag,
                        &os_v,
                        &empty_v,
                        Ghost(os_s),
                        Ghost(empty_s),
                    ),
                    None => false,
                };
                proof {
                    assert(hit == asset_fits(self.assets@[i as int], self.tag, os_s, empty_s));
                }
                if hit {
                    proof {
                        lemma_first_fit_at(self.assets@, self.tag, os_s, empty_s, i as int);
                    }
                    return Some(a);
                }
                i = i + 1;
            }
            proof {
                lemma_first_fit_none(self.assets@, self.tag, os_s, empty_s);
            }
        }
        None
    }

    /// The download URL of the selected asset.
    pub fn download_url(&self, platform: &Platform) -> (r: Option<String>)
        ensures
            match r {
                Some(u) => selected_asset(*self, *platform) matches Some(i) && 0 <= i
                    < self.assets@.len() && u@ == self.assets@[i].download_url@,
                None => selected_asset(*self, *platform) is None,
            },
    {
        match self.asset_for_current_platform(platform) {
            Some(a) => Some(a.download_url.clone()),
            None => None,
        }
    }

    /// Whether any asset of this release fits the platform.
    pub fn has_supported_asset(&self, platform: &Platform) -> (r: bool)
        ensures
            r == (selected_asset(*self, *platform) matches Some(_)),
    {
        self.asset_for_current_platform(platform).is_some()
    }

    /// Whether the release is tagged as a development build.
    pub fn is_nightly(&self) -> (r: bool)
        ensures
            r == (self.tag matches Version::Nightly(_)),
    {
        self.tag.is_nightly()
    }

    /// A fresh release equal to this one field for field.
    pub fn duplicate(&self) -> (r: Release)
        ensures
            releq(r, *self),
    {
        let mut assets: Vec<Asset> = Vec::new();
        let mut i: usize = 0;
        while i < self.assets.len()
            invariant
                0 <= i <= self.assets@.len(),
                assets@.len() == i,
                forall|k: int|
                    0 <= k < i ==> (#[trigger] assets@[k]).download_url@
                        == self.assets@[k].download_url@,
            decreases self.assets@.len() - i,
        {
            let a = &self.assets[i];
            assets.push(Asset { download_url: a.download_url.clone() });
            i = i + 1;
        }
        Release { tag: self.tag.duplicate(), draft: self.draft, prerelease: self.prerelease, assets }
    }
}

/// Two releases carry the same data: equal tags, equal flags, and assets
/// with the same URLs in the same order.
pub open spec fn releq(a: Release, b: Release) -> bool {
    veq(a.tag, b.tag) && a.draft == b.draft && a.prerelease == b.prerelease && a.assets@.len()
        == b.assets@.len() && (forall|i: int|
        0 <= i < a.assets@.len() ==> (#[trigger] a.assets@[i]).download_url@
            == b.assets@[i].download_url@)
}

/// The download URLs of a release's assets.
pub open spec fn asset_urls(rel: Release) -> Seq<Seq<char>> {
    rel.assets@.map_values(|a: Asset| a.download_url@)
}

proof fn lemma_fit_transfer(
    r1: Release,
    r2: Release,
    tag: Version,
    os_s: Seq<Seq<char>>,
    arch_s: Seq<Seq<char>>,
)
    requires
        asset_urls(r1).to_multiset() == asset_urls(r2).to_multiset(),
        first_fit(r1.assets@, tag, os_s, arch_s) >= 0,
    ensures
        first_fit(r2.assets@, tag, os_s, arch_s) >= 0,
        url_fits(
            asset_urls(r1)[first_fit(r1.assets@, tag, os_s, arch_s)],
            tag,
            os_s,
            arch_s,
        ),
{
    broadcast use vstd::seq_lib::group_to_multiset_ensures;

    lemma_first_fit_props(r1.assets@, tag, os_s, arch_s);
    lemma_first_fit_props(r2.assets@, tag, os_s, arch_s);
    let i = first_fit(r1.assets@, tag, os_s, arch_s);
    let u = asset_urls(r1)[i];
    assert(u == r1.assets@[i].download_url@);
    assert(url_fits(u, tag, os_s, arch_s));
    assert(asset_urls(r1).contains(u)) by {
        assert(asset_urls(r1)[i] == u);
    }
    assert(asset_urls(r1).to_multiset().count(u) > 0);
    assert(asset_urls(r2).to_multiset().count(u) > 0);
    assert(asset_urls(r2).contains(u));
    let j = choose|j: int| 0 <= j < asset_urls(r2).len() && asset_urls(r2)[j] == u;
    assert(asset_fits(r2.assets@[j], tag, os_s, arch_s));
    if first_fit(r2.assets@, tag, os_s, arch_s) < 0 {
        assert(!asset_fits(r2.assets@[j], tag, os_s, arch_s));
    }
}

proof fn lemma_fit_agree(
    r1: Release,
    r2: Release,
    tag: Version,
    os_s: Seq<Seq<char>>,
    arch_s: Seq<Seq<char>>,
)
    requires
        asset_urls(r1).to_multiset() == asset_urls(r2).to_multiset(),
        first_fit(r1.assets@, tag, os_s, arch_s) >= 0,
        first_fit(r2.assets@, tag, os_s, arch_s) >= 0,
        forall|i: int, j: int|
            0 <= i < r1.assets@.len() && 0 <= j < r1.assets@.len() && url_fits(
                asset_urls(r1)[i],
                tag,
                os_s,
                arch_s,
            ) && url_fits(asset_urls(r1)[j], tag, os_s, arch_s) ==> asset_urls(r1)[i]
                == asset_urls(r1)[j],
    ensures
        r1.assets@[first_fit(r1.assets@, tag, os_s, arch_s)].download_url@
            == r2.assets@[first_fit(r2.assets@, tag, os_s, arch_s)].download_url@,
{
    broadcast use vstd::seq_lib::group_to_multiset_ensures;

    lemma_first_fit_props(r1.assets@, tag, os_s, arch_s);
    lemma_first_fit_props(r2.assets@, tag, os_s, arch_s);
    let i1 = first_fit(r1.assets@, tag, os_s, arch_s);
    let i2 = first_fit(r2.assets@, tag, os_s, arch_s);
    let u2 = asset_urls(r2)[i2];
    assert(u2 == r2.assets@[i2].download_url@);
    assert(asset_urls(r2).contains(u2)) by {
        assert(asset_urls(r2)[i2] == u2);
    }
    assert(asset_urls(r2).to_multiset().count(u2) > 0);
    assert(asset_urls(r1).to_multiset().count(u2) > 0);
    assert(asset_urls(r1).contains(u2));
    let k = choose|k: int| 0 <= k < asset_urls(r1).len() && asset_urls(r1)[k] == u2;
    assert(url_fits(asset_urls(r1)[k], tag, os_s, arch_s));
    assert(url_fits(asset_urls(r1)[i1], tag, os_s, arch_s));
    assert(asset_urls(r1)[i1] == asset_urls(r1)[k]);
}

/// The matcher does not depend on the order of the assets array: two
/// releases with the same tag whose assets carry the same URLs, however
/// arranged, select the same asset — as long as no two distinct URLs in
/// the release both fit, which is how upstream releases name their
/// files.
pub proof fn lemma_matcher_order_independent(r1: Release, r2: Release, pf: Platform)
    requires
        r1.tag == r2.tag,
        asset_urls(r1).to_multiset() == asset_urls(r2).to_multiset(),
        forall|i: int, j: int|
            0 <= i < r1.assets@.len() && 0 <= j < r1.assets@.len() && url_fits(
                asset_urls(r1)[i],
                r1.tag,
                os_alias_spec(pf.0),
                arch_alias_spec(pf.1),
            ) && url_fits(asset_urls(r1)[j], r1.tag, os_alias_spec(pf.0), arch_alias_spec(pf.1))
                ==> asset_urls(r1)[i] == asset_urls(r1)[j],
        forall|i: int, j: int|
            0 <= i < r1.assets@.len() && 0 <= j < r1.assets@.len() && url_fits(
                asset_urls(r1)[i],
                r1.tag,
                os_alias_spec(pf.0),
                Seq::empty(),
            ) && url_fits(asset_urls(r1)[j], r1.tag, os_alias_spec(pf.0), Seq::empty())
                ==> asset_urls(r1)[i] == asset_urls(r1)[j],
    ensures
        match (selected_asset(r1, pf), selected_asset(r2, pf)) {
            (Some(i), Some(j)) => 0 <= i < r1.assets@.len() && 0 <= j < r2.assets@.len()
                && r1.assets@[i].download_url@ == r2.assets@[j].download_url@,
            (None, None) => true,
            _ => false,
        },
{
    let os_s = os_alias_spec(pf.0);
    let arch_s = arch_alias_spec(pf.1);
    let tag = r1.tag;
    lemma_first_fit_props(r1.assets@, tag, os_s, arch_s);
    lemma_first_fit_props(r2.assets@, tag, os_s, arch_s);
    lemma_first_fit_props(r1.assets@, tag, os_s, Seq::empty());
    lemma_first_fit_props(r2.assets@, tag, os_s, Seq::empty());
    if arch_s.len() == 0 {
    } else {
        if first_fit(r1.assets@, tag, os_s, arch_s) >= 0 {
            lemma_fit_transfer(r1, r2, tag, os_s, arch_s);
            lemma_fit_agree(r1, r2, tag, os_s, arch_s);
        } else if first_fit(r2.assets@, tag, os_s, arch_s) >= 0 {
            lemma_fit_transfer(r2, r1, tag, os_s, arch_s);
        } else if pf.1 == PlatformArch::X64 {
            if first_fit(r1.assets@, tag, os_s, Seq::empty()) >= 0 {
                lemma_fit_transfer(r1, r2, tag, os_s, Seq::empty());
                lemma_fit_agree(r1, r2, tag, os_s, Seq::empty());
            } else if first_fit(r2.assets@, tag, os_s, Seq::empty()) >= 0 {
                lemma_fit_transfer(r2, r1, tag, os_s, Seq::empty());
            }
        }
    }
}

impl crate::user_version::UserVersion {
    /// The best release among those offered: the one with the greatest
    /// tag, under the total order on versions, of the ones this selector
    /// matches.
    pub fn to_release(
        &self,
        available: &Vec<Release>,
        aliases: &Vec<crate::alias::StoredAlias>,
    ) -> (r: Option<Release>)
        ensures
            match r {
                Some(rel) => crate::user_version::matches_spec(*self, rel.tag, aliases@) && (
                exists|i: int|
                    0 <= i < available@.len() && releq(#[trigger] available@[i], rel)) && (forall|
                    i: int,
                |
                    0 <= i < available@.len() && crate::user_version::matches_spec(
                        *self,
                        (#[trigger] available@[i]).tag,
                        aliases@,
                    ) ==> version_le(available@[i].tag, rel.tag)),
                None => forall|i: int|
                    0 <= i < available@.len() ==> !crate::user_version::matches_spec(
                        *self,
                        (#[trigger] available@[i]).tag,
                        aliases@,
                    ),
            },
    {
        let mut best: Option<Release> = None;
        let mut i: usize = 0;
        while i < available.len()
            invariant
                0 <= i <= available@.len(),
                match best {
                    Some(rel) => crate::user_version::matches_spec(*self, rel.tag, aliases@) && (
                    exists|k: int|
                        0 <= k < i && releq(#[trigger] available@[k], rel)) && (forall|j: int|
                        0 <= j < i && crate::user_version::matches_spec(
                            *self,
                            (#[trigger] available@[j]).tag,
                            aliases@,
                        ) ==> version_le(available@[j].tag, rel.tag)),
                    None => forall|j: int|
                        0 <= j < i ==> !crate::user_version::matches_spec(
                            *self,
                            (#[trigger] available@[j]).tag,
                            aliases@,
                        ),
                },
            decreases available@.len() - i,
        {
            let x = &available[i];
            if self.matches(&x.tag, aliases) {
                match &best {
                    None => {
                        let d = x.duplicate();
                        proof {
                            crate::user_version::lemma_matches_congruence(
                                *self,
                                available@[i as int].tag,
                                d.tag,
                                aliases@,
                            );
                        }
                        best = Some(d);
                    },
                    Some(b) => {
                        let c = b.tag.compare(&x.tag);
                        if c == crate::strutil::Cmp::Lt || c == crate::strutil::Cmp::Eq {
                            let d = x.duplicate();
                            proof {
                                crate::user_version::lemma_matches_congruence(
                                    *self,
                                    available@[i as int].tag,
                                    d.tag,
                                    aliases@,
                                );
                                assert forall|j: int|
                                    0 <= j < i + 1 && crate::user_version::matches_spec(
                                        *self,
                                        (#[trigger] available@[j]).tag,
                                        aliases@,
                                    ) implies version_le(available@[j].tag, d.tag) by {
                                    if j < i {
                                        crate::user_version::lemma_version_le_trans(
                                            available@[j].tag,
                                            b.tag,
                                            d.tag,
                                        );
                                    }
                                }
                            }
                            best = Some(d);
                        } else {
                            proof {
                                crate::version::lemma_version_lt_asym(
                                    available@[i as int].tag,
                                    b.tag,
                                );
                            }
                        }
                    },
                }
            }
            i = i + 1;
        }
        best
    }
}

/// The endpoint URL of the release index for a repository: the mirror's
/// fixed prefix, the repository with trailing slashes stripped, and the
/// request path.
pub fn format_ungh_url(repo_url: &str, path: &str) -> (r: String)
    ensures
        r@ == "https://ungh.sashoush.dev/repos/"@ + crate::strutil::trim_trailing(repo_url@, '/')
            + "/"@ + path@,
{
    proof {
        reveal_strlit("/");
    }
    let mut s = "https://ungh.sashoush.dev/repos/".to_owned();
    let repo = crate::strutil::trim_end_char(repo_url, '/');
    s.append(repo);
    s.append("/");
    s.append(path);
    proof {
        assert(s@ =~= "https://ungh.sashoush.dev/repos/"@ + crate::strutil::trim_trailing(
            repo_url@,
            '/',
        ) + "/"@ + path@);
    }
    s
}

/// Why the index could not answer: no release fits the request.
#[derive(Debug)]
pub enum Error {
    NotFound(String),
}

/// The newest non-development release among the per-repository latest
/// candidates, earlier repositories winning ties; an error when every
/// candidate is a development build.
pub fn latest(candidates: &Vec<Release>) -> (r: Result<Release, Error>)
    ensures
        match r {
            Ok(rel) => exists|i: int|
                0 <= i < candidates@.len() && releq(rel, #[trigger] candidates@[i]) && !(
                candidates@[i].tag matches Version::Nightly(_)) && (forall|j: int|
                    0 <= j < i && !((#[trigger] candidates@[j]).tag matches Version::Nightly(_))
                        ==> version_lt(candidates@[j].tag, candidates@[i].tag)) && (forall|j: int|
                    0 <= j < candidates@.len() && !((#[trigger] candidates@[j]).tag
                        matches Version::Nightly(_)) ==> version_le(
                        candidates@[j].tag,
                        candidates@[i].tag,
                    )),
            Err(_) => forall|i: int|
                0 <= i < candidates@.len() ==> (#[trigger] candidates@[i]).tag
                    matches Version::Nightly(_),
        },
        (r matches Err(_)) == (forall|i: int|
            0 <= i < candidates@.len() ==> (#[trigger] candidates@[i]).tag
                matches Version::Nightly(_)),
{
    let mut picked: Option<Release> = None;
    let ghost mut pi: int = 0;
    let mut i: usize = 0;
    while i < candidates.len()
        invariant
            0 <= i <= candidates@.len(),
            match picked {
                Some(rel) => 0 <= pi < i && releq(rel, candidates@[pi]) && !(candidates@[pi].tag
                    matches Version::Nightly(_)) && veq(rel.tag, candidates@[pi].tag) && (forall|
                    j: int,
                |
                    0 <= j < pi && !((#[trigger] candidates@[j]).tag matches Version::Nightly(_))
                        ==> version_lt(candidates@[j].tag, candidates@[pi].tag)) && (forall|j: int|
                    0 <= j < i && !((#[trigger] candidates@[j]).tag matches Version::Nightly(_))
                        ==> version_le(candidates@[j].tag, candidates@[pi].tag)),
                None => forall|j: int|
                    0 <= j < i ==> (#[trigger] candidates@[j]).tag matches Version::Nightly(_),
            },
        decreases candidates@.len() - i,
    {
        let rel = &candidates[i];
        if !rel.tag.is_nightly() {
            match &picked {
                None => {
                    picked = Some(rel.duplicate());
                    proof {
                        pi = i as int;
                    }
                },
                Some(cur) => {
                    if rel.tag.compare(&cur.tag) == crate::strutil::Cmp::Gt {
                        proof {
                            assert forall|j: int|
                                0 <= j < i && !((#[trigger] candidates@[j]).tag
                                    matches Version::Nightly(_)) implies version_lt(
                                candidates@[j].tag,
                                candidates@[i as int].tag,
                            ) by {
                                crate::version::lemma_veq_lt_congruence(
                                    cur.tag,
                                    candidates@[pi].tag,
                                    candidates@[j].tag,
                                );
                                crate::version::lemma_veq_lt_congruence(
                                    cur.tag,
                                    candidates@[pi].tag,
                                    candidates@[i as int].tag,
                                );
                                if version_lt(candidates@[j].tag, candidates@[pi].tag) {
                                    crate::version::lemma_version_lt_trans(
                                        candidates@[j].tag,
                                        candidates@[pi].tag,
                                        candidates@[i as int].tag,
                                    );
                                } else {
                                    assert(veq(candidates@[j].tag, candidates@[pi].tag));
                                    crate::version::lemma_veq_lt_congruence(
                                        candidates@[j].tag,
                                        candidates@[pi].tag,
                                        candidates@[i as int].tag,
                                    );
                                }
                            }
                        }
                        picked = Some(rel.duplicate());
                        proof {
                            pi = i as int;
                        }
                    } else {
                        proof {
                            crate::version::lemma_veq_lt_congruence(
                                cur.tag,
                                candidates@[pi].tag,
                                candidates@[i as int].tag,
                            );
                            crate::version::lemma_version_order_total(
                                candidates@[i as int].tag,
                                candidates@[pi].tag,
                            );
                        }
                    }
                },
            }
        }
        i = i + 1;
    }
    match picked {
        Some(rel) => Ok(rel),
        None => Err(Error::NotFound("latest".to_owned())),
    }
}

/// The first release whose tag displays as the requested text.
pub fn get_by_tag(releases: &Vec<Release>, tag: &str) -> (r: Result<Release, Error>)
    ensures
        match r {
            Ok(rel) => exists|i: int|
                0 <= i < releases@.len() && releq(rel, #[trigger] releases@[i]) && display_seq(
                    releases@[i].tag,
                ) == tag@ && (forall|j: int|
                    0 <= j < i ==> display_seq((#[trigger] releases@[j]).tag) != tag@),
            Err(_) => forall|i: int|
                0 <= i < releases@.len() ==> display_seq((#[trigger] releases@[i]).tag) != tag@,
        },
        (r matches Err(_)) == (forall|i: int|
            0 <= i < releases@.len() ==> display_seq((#[trigger] releases@[i]).tag) != tag@),
{
    let mut i: usize = 0;
    while i < releases.len()
        invariant
            0 <= i <= releases@.len(),
            forall|j: int| 0 <= j < i ==> display_seq((#[trigger] releases@[j]).tag) != tag@,
        decreases releases@.len() - i,
    {
        let rel = &releases[i];
        let shown = rel.tag.v_str();
        if crate::strutil::str_eq(shown.as_str(), tag) {
            let out = rel.duplicate();
            proof {
                assert(releq(out, releases@[i as int]));
            }
            return Ok(out);
        }
        i = i + 1;
    }
    Err(Error::NotFound(tag.to_owned()))
}

} // verus!
