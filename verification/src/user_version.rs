//! User-supplied version selectors: partial semvers, semver ranges, and
//! full versions, with the matching rules against concrete versions.

use vstd::prelude::*;
use vstd::string::StrSliceExecFns;

use crate::alias::StoredAlias;
use crate::semver_range::{is_semver_range, parse_range_ok, range_allows, range_contains};
use crate::strutil::{
    is_digit, str_eq, trim_seq, trim_str, u64_to_dec, Cmp,
};
use crate::version::{
    canon, display_seq, find_char, num, parse_fails, parse_ok, strip_v, veq, version_le,
    version_lt, Version, VersionError,
};

verus! {

/// A version selector as the user writes it: a bare major, a major.minor
/// pair, a semver range (held as its source text), or a full version.
#[derive(Debug, Clone)]
pub enum UserVersion {
    OnlyMajor(u64),
    MajorMinor(u64, u64),
    SemverRange(String),
    Full(Version),
}

/// Structural equality of two selectors.
pub open spec fn uveq(a: UserVersion, b: UserVersion) -> bool {
    match (a, b) {
        (UserVersion::OnlyMajor(x), UserVersion::OnlyMajor(y)) => x == y,
        (UserVersion::MajorMinor(x1, x2), UserVersion::MajorMinor(y1, y2)) => x1 == y1 && x2
            == y2,
        (UserVersion::SemverRange(x), UserVersion::SemverRange(y)) => x@ == y@,
        (UserVersion::Full(x), UserVersion::Full(y)) => veq(x, y),
        _ => false,
    }
}

impl PartialEq for UserVersion {
    fn eq(&self, other: &UserVersion) -> (r: bool) {
        match (self, other) {
            (UserVersion::OnlyMajor(x), UserVersion::OnlyMajor(y)) => *x == *y,
            (UserVersion::MajorMinor(x1, x2), UserVersion::MajorMinor(y1, y2)) => *x1 == *y1
                && *x2 == *y2,
            (UserVersion::SemverRange(x), UserVersion::SemverRange(y)) => str_eq(
                x.as_str(),
                y.as_str(),
            ),
            (UserVersion::Full(x), UserVersion::Full(y)) => x == y,
            _ => false,
        }
    }
}

impl vstd::std_specs::cmp::PartialEqSpecImpl for UserVersion {
    open spec fn obeys_eq_spec() -> bool {
        true
    }

    open spec fn eq_spec(&self, other: &UserVersion) -> bool {
        uveq(*self, *other)
    }
}

/// Every character is a digit or a dot.
pub open spec fn digits_dots(s: Seq<char>) -> bool {
    forall|k: int| 0 <= k < s.len() ==> (is_digit(#[trigger] s[k]) || s[k] == '.')
}

/// The selector parser hands the trimmed text to the range parser: the
/// stripped text is not made of digits and dots alone, and the text is a
/// valid semver range.
pub open spec fn takes_range_case(s: Seq<char>) -> bool {
    !digits_dots(strip_v(trim_seq(s))) && is_semver_range(trim_seq(s))
}

/// The bare-major reading of the input, when it has one.
pub open spec fn only_major_of(s: Seq<char>) -> Option<nat> {
    let nv = strip_v(trim_seq(s));
    if find_char(nv, '.') < 0 {
        num(nv)
    } else {
        None
    }
}

/// The major.minor reading of the input, when it has one.
pub open spec fn major_minor_of(s: Seq<char>) -> Option<(nat, nat)> {
    let nv = strip_v(trim_seq(s));
    let d1 = find_char(nv, '.');
    if d1 >= 0 && find_char(nv.skip(d1 + 1), '.') < 0 {
        match (num(nv.take(d1)), num(nv.skip(d1 + 1))) {
            (Some(m), Some(n)) => Some((m, n)),
            _ => None,
        }
    } else {
        None
    }
}

/// What a successful selector parse of the input yields.
pub open spec fn user_parse_ok(u: UserVersion, s: Seq<char>) -> bool {
    if takes_range_case(s) {
        u matches UserVersion::SemverRange(r) && r@ == trim_seq(s)
    } else if only_major_of(s) is Some {
        u matches UserVersion::OnlyMajor(m) && m == only_major_of(s).unwrap()
    } else if major_minor_of(s) is Some {
        u matches UserVersion::MajorMinor(m, n) && m == major_minor_of(s).unwrap().0 && n
            == major_minor_of(s).unwrap().1
    } else {
        u matches UserVersion::Full(v) && parse_ok(v, canon(s))
    }
}

/// When a selector parse is refused: none of the selector forms applies
/// and the fallback version parse is refused too.
pub open spec fn user_parse_fails(s: Seq<char>) -> bool {
    !takes_range_case(s) && only_major_of(s) is None && major_minor_of(s) is None && parse_fails(
        canon(s),
    )
}

/// The display text of a selector.
pub open spec fn user_display_seq(u: UserVersion) -> Seq<char> {
    match u {
        UserVersion::Full(v) => display_seq(v),
        UserVersion::SemverRange(rng) => rng@,
        UserVersion::OnlyMajor(m) => seq!['v'] + crate::strutil::dec_digits(m as nat) + ".x.x"@,
        UserVersion::MajorMinor(m, n) => seq!['v'] + crate::strutil::dec_digits(m as nat)
            + seq!['.'] + crate::strutil::dec_digits(n as nat) + ".x"@,
    }
}

/// A stored alias of `v` under the name `name` exists.
pub open spec fn has_stored_alias(v: Version, name: Seq<char>, aliases: Seq<StoredAlias>) -> bool {
    exists|i: int|
        0 <= i < aliases.len() && (#[trigger] aliases[i]).spec_s_ver() == display_seq(v)
            && aliases[i].spec_name() == name
}

/// The alias-name rule: the selector is a full version with an alias
/// name, and the candidate has a stored alias of that name.
pub open spec fn matches_alias_spec(
    user_version: Version,
    candidate: Version,
    aliases: Seq<StoredAlias>,
) -> bool {
    match user_version {
        Version::Alias(n) => has_stored_alias(candidate, n@, aliases),
        Version::Nightly(n) => has_stored_alias(candidate, n@, aliases),
        _ => false,
    }
}

/// The matching rules of a selector against a concrete version, in
/// priority order: exact equality, alias name, range membership, then
/// the partial-semver rules; no other pair matches.
pub open spec fn matches_spec(u: UserVersion, v: Version, aliases: Seq<StoredAlias>) -> bool {
    match u {
        UserVersion::Full(a) => veq(a, v) || matches_alias_spec(a, v, aliases),
        UserVersion::SemverRange(r) => match v {
            Version::Semver { major, minor, patch } => is_semver_range(r@) && range_allows(
                r@,
                major as int,
                minor as int,
                patch as int,
            ),
            _ => false,
        },
        UserVersion::OnlyMajor(m) => match v {
            Version::Semver { major, .. } => major == m,
            _ => false,
        },
        UserVersion::MajorMinor(m, n) => match v {
            Version::Semver { major, minor, .. } => major == m && minor == n,
            _ => false,
        },
    }
}

/// Equal versions match the same selectors.
pub proof fn lemma_matches_congruence(
    u: UserVersion,
    v1: Version,
    v2: Version,
    aliases: Seq<StoredAlias>,
)
    requires
        veq(v1, v2),
    ensures
        matches_spec(u, v1, aliases) == matches_spec(u, v2, aliases),
{
    assert(display_seq(v1) == display_seq(v2)) by {
        match (v1, v2) {
            (Version::Semver { .. }, Version::Semver { .. }) => {},
            _ => {},
        }
    }
}

impl UserVersion {
    /// A fresh value equal to this one.
    pub fn duplicate(&self) -> (r: UserVersion)
        ensures
            uveq(r, *self),
    {
        match self {
            UserVersion::OnlyMajor(m) => UserVersion::OnlyMajor(*m),
            UserVersion::MajorMinor(m, n) => UserVersion::MajorMinor(*m, *n),
            UserVersion::SemverRange(r) => UserVersion::SemverRange(r.clone()),
            UserVersion::Full(v) => UserVersion::Full(v.duplicate()),
        }
    }

    /// Parse a selector: trimmed non-numeric text that reads as a semver
    /// range becomes a range; one or two dot-separated numbers become a
    /// partial semver; anything else is read as a full version.
    pub fn from_str(s: &str) -> (r: Result<UserVersion, VersionError>)
        ensures
            match r {
                Ok(u) => user_parse_ok(u, s@),
                Err(_) => user_parse_fails(s@),
            },
            (r matches Err(_)) == user_parse_fails(s@),
    {
        let trimmed = trim_str(s);
        let tlen = trimmed.unicode_len();
        let off: usize = if tlen > 0 && trimmed.get_char(0) == 'v' {
            1
        } else {
            0
        };
        let nv = trimmed.substring_char(off, tlen);
        proof {
            assert(nv@ =~= strip_v(trim_seq(s@)));
        }
        let nvlen = nv.unicode_len();
        let mut dd = true;
        let mut k: usize = 0;
        while k < nvlen
            invariant
                0 <= k <= nvlen,
                nvlen == nv@.len(),
                dd == (forall|j: int|
                    0 <= j < k ==> (is_digit(#[trigger] nv@[j]) || nv@[j] == '.')),
            decreases nvlen - k,
        {
            let c = nv.get_char(k);
            let u = c as u32;
            if !((48 <= u && u <= 57) || c == '.') {
                dd = false;
            }
            k = k + 1;
        }
        proof {
            assert(dd == digits_dots(nv@));
        }
        if !dd {
            if parse_range_ok(trimmed) {
                return Ok(UserVersion::SemverRange(trimmed.to_owned()));
            }
        }
        proof {
            assert(!takes_range_case(s@));
        }
        {
            match crate::version::find_dot(nv, 0) {
                None => {
                    proof {
                        assert(nv@.skip(0) =~= nv@);
                    }
                    match crate::strutil::parse_u64(nv) {
                        Some(m) => {
                            return Ok(UserVersion::OnlyMajor(m));
                        },
                        None => {},
                    }
                },
                Some(d1) => {
                    proof {
                        assert(nv@.skip(0) =~= nv@);
                    }
                    match crate::version::find_dot(nv, d1 + 1) {
                        None => {
                            let p1 = nv.substring_char(0, d1);
                            let p2 = nv.substring_char(d1 + 1, nvlen);
                            proof {
                                assert(p1@ =~= nv@.take(d1 as int));
                                assert(p2@ =~= nv@.skip(d1 + 1));
                            }
                            match (crate::strutil::parse_u64(p1), crate::strutil::parse_u64(p2)) {
                                (Some(m), Some(n)) => {
                                    return Ok(UserVersion::MajorMinor(m, n));
                                },
                                _ => {},
                            }
                        },
                        Some(_) => {},
                    }
                },
            }
        }
        match Version::parse(s) {
            Ok(v) => Ok(UserVersion::Full(v)),
            Err(e) => Err(e),
        }
    }

    /// The alias name the selector carries, if it is a full version with
    /// one.
    pub fn alias_name(&self) -> (r: Option<&str>)
        ensures
            match r {
                Some(name) => (*self) matches UserVersion::Full(v) && ((
                v matches Version::Alias(t) && t@ == name@) || (v matches Version::Nightly(t)
                    && t@ == name@)),
                None => match *self {
                    UserVersion::Full(v) => !(v matches Version::Alias(_)) && !(
                    v matches Version::Nightly(_)),
                    _ => true,
                },
            },
    {
        match self {
            UserVersion::Full(v) => v.alias_name(),
            _ => None,
        }
    }

    /// Whether this selector matches the concrete version, given the
    /// stored aliases.
    pub fn matches(&self, version: &Version, aliases: &Vec<StoredAlias>) -> (r: bool)
        ensures
            r == matches_spec(*self, *version, aliases@),
    {
        match self {
            UserVersion::Full(a) => {
                if a.eq(version) {
                    true
                } else {
                    matches_alias_exec(a, version, aliases)
                }
            },
            UserVersion::SemverRange(rng) => match version {
                Version::Semver { major, minor, patch } => range_contains(
                    rng.as_str(),
                    *major,
                    *minor,
                    *patch,
                ),
                _ => false,
            },
            UserVersion::OnlyMajor(m) => match version {
                Version::Semver { major, .. } => *major == *m,
                _ => false,
            },
            UserVersion::MajorMinor(m, n) => match version {
                Version::Semver { major, minor, .. } => *major == *m && *minor == *n,
                _ => false,
            },
        }
    }

    /// The best concrete version among those offered: the maximum, under
    /// the total order on versions, of the ones this selector matches.
    pub fn to_version(&self, available: &Vec<Version>, aliases: &Vec<StoredAlias>) -> (r: Option<
        Version,
    >)
        ensures
            match r {
                Some(v) => matches_spec(*self, v, aliases@) && (exists|i: int|
                    0 <= i < available@.len() && veq(#[trigger] available@[i], v)) && (forall|
                    i: int,
                |
                    0 <= i < available@.len() && matches_spec(*self, #[trigger] available@[i], aliases@)
                        ==> version_le(available@[i], v)),
                None => forall|i: int|
                    0 <= i < available@.len() ==> !matches_spec(
                        *self,
                        #[trigger] available@[i],
                        aliases@,
                    ),
            },
    {
        let mut best: Option<Version> = None;
        let mut i: usize = 0;
        while i < available.len()
            invariant
                0 <= i <= available@.len(),
                match best {
                    Some(v) => matches_spec(*self, v, aliases@) && (exists|j: int|
                        0 <= j < i && veq(#[trigger] available@[j], v)) && (forall|j: int|
                        0 <= j < i && matches_spec(*self, #[trigger] available@[j], aliases@)
                            ==> version_le(available@[j], v)),
                    None => forall|j: int|
                        0 <= j < i ==> !matches_spec(*self, #[trigger] available@[j], aliases@),
                },
            decreases available@.len() - i,
        {
            let x = &available[i];
            if self.matches(x, aliases) {
                match &best {
                    None => {
                        best = Some(x.duplicate());
                    },
                    Some(b) => {
                        let c = b.compare(x);
                        if c == Cmp::Lt || c == Cmp::Eq {
                            proof {
                                lemma_le_switch(*self, *b, available@[i as int], available@, i as int, aliases@);
                            }
                            best = Some(x.duplicate());
                        } else {
                            proof {
                                assert(version_lt(available@[i as int], *b));
                            }
                        }
                    },
                }
            }
            i = i + 1;
        }
        best
    }

    /// The selector's display text: the full version's display form,
    /// the range's source text, or the partial semver with `x` filling
    /// the open places.
    pub fn display_string(&self) -> (r: String)
        ensures
            r@ == user_display_seq(*self),
    {
        proof {
            reveal_strlit("v");
            reveal_strlit(".");
        }
        match self {
            UserVersion::Full(v) => v.v_str(),
            UserVersion::SemverRange(rng) => rng.clone(),
            UserVersion::OnlyMajor(m) => {
                let mut s = "v".to_owned();
                let d = u64_to_dec(*m);
                s.append(d.as_str());
                s.append(".x.x");
                proof {
                    assert(s@ =~= user_display_seq(*self));
                }
                s
            },
            UserVersion::MajorMinor(m, n) => {
                let mut s = "v".to_owned();
                let dm = u64_to_dec(*m);
                s.append(dm.as_str());
                s.append(".");
                let dn = u64_to_dec(*n);
                s.append(dn.as_str());
                s.append(".x");
                proof {
                    assert(s@ =~= user_display_seq(*self));
                }
                s
            },
        }
    }

    /// The alias the install step should pin when the user asked for a
    /// symbolic version: `latest`, or the development tag itself.
    pub fn inferred_alias(&self) -> (r: Option<Version>)
        ensures
            match r {
                Some(v) => ((*self) matches UserVersion::Full(f) && veq(f, v)) && (
                v matches Version::Latest || v matches Version::Nightly(_)),
                None => match *self {
                    UserVersion::Full(v) => !(v matches Version::Latest) && !(
                    v matches Version::Nightly(_)),
                    _ => true,
                },
            },
    {
        match self {
            UserVersion::Full(Version::Latest) => Some(Version::Latest),
            UserVersion::Full(Version::Nightly(tag)) => Some(Version::Nightly(tag.clone())),
            _ => None,
        }
    }
}

fn has_stored_alias_exec(name: &str, target: &Version, aliases: &Vec<StoredAlias>) -> (r:
    bool)
    ensures
        r == has_stored_alias(*target, name@, aliases@),
{
    let target_str = target.v_str();
    let mut i: usize = 0;
    while i < aliases.len()
        invariant
            0 <= i <= aliases@.len(),
            target_str@ == display_seq(*target),
            forall|j: int|
                0 <= j < i ==> !((#[trigger] aliases@[j]).spec_s_ver() == display_seq(*target)
                    && aliases@[j].spec_name() == name@),
        decreases aliases@.len() - i,
    {
        let a = &aliases[i];
        if str_eq(a.s_ver(), target_str.as_str()) && str_eq(a.name(), name) {
            proof {
                let wi = i as int;
                assert(aliases@[wi].spec_s_ver() == display_seq(*target));
                assert(aliases@[wi].spec_name() == name@);
            }
            return true;
        }
        i = i + 1;
    }
    false
}

fn matches_alias_exec(user_version: &Version, maybe_alias: &Version, aliases: &Vec<StoredAlias>) -> (r:
    bool)
    ensures
        r == matches_alias_spec(*user_version, *maybe_alias, aliases@),
{
    match user_version {
        Version::Alias(n) => has_stored_alias_exec(n.as_str(), maybe_alias, aliases),
        Version::Nightly(n) => has_stored_alias_exec(n.as_str(), maybe_alias, aliases),
        _ => false,
    }
}

proof fn lemma_le_switch(
    u: UserVersion,
    b: Version,
    x: Version,
    available: Seq<Version>,
    i: int,
    aliases: Seq<StoredAlias>,
)
    requires
        version_le(b, x),
        0 <= i < available.len(),
        veq(available[i], x),
        forall|j: int|
            0 <= j < i && matches_spec(u, #[trigger] available[j], aliases) ==> version_le(
                available[j],
                b,
            ),
    ensures
        forall|j: int|
            0 <= j < i && matches_spec(u, #[trigger] available[j], aliases) ==> version_le(
                available[j],
                x,
            ),
{
    assert forall|j: int|
        0 <= j < i && matches_spec(u, #[trigger] available[j], aliases) implies version_le(
        available[j],
        x,
    ) by {
        lemma_version_le_trans(available[j], b, x);
    }
}

/// The non-strict order on versions is transitive.
pub proof fn lemma_version_le_trans(a: Version, b: Version, c: Version)
    requires
        version_le(a, b),
        version_le(b, c),
    ensures
        version_le(a, c),
{
    if veq(a, b) {
        crate::version::lemma_veq_lt_congruence(a, b, c);
    } else if veq(b, c) {
        crate::version::lemma_veq_lt_congruence(b, c, a);
    } else {
        crate::version::lemma_version_lt_trans(a, b, c);
    }
}

} // verus!
