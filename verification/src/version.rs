//! The version algebra: a tagged version value, its parser, its display
//! form, and a total order over all variants.

use vstd::prelude::*;
use vstd::string::StrSliceExecFns;
use vstd::string::StringExecFns;

use crate::strutil::{
    all_digits, contains_str, contains_sub, dec_digits, dec_value, is_digit, is_space, is_upper,
    lex_lt, lower_char, lower_seq, parse_u64, str_cmp, str_eq, to_lower_str, trim_back,
    trim_front, trim_seq, trim_str, u64_to_dec, Cmp,
};

verus! {

/// A version as the user names it: an exact semver triple, a named alias,
/// a development tag, the newest upstream release, or the system-provided
/// binary outside this tool's control.
#[derive(Debug, Clone)]
pub enum Version {
    Semver { major: u64, minor: u64, patch: u64 },
    Alias(String),
    Nightly(String),
    Latest,
    Bypassed,
}

/// Structural equality of two versions: same variant, and the payload
/// (numbers, or the text of a tag) equal.
pub open spec fn veq(a: Version, b: Version) -> bool {
    match (a, b) {
        (
            Version::Semver { major: am, minor: an, patch: ap },
            Version::Semver { major: bm, minor: bn, patch: bp },
        ) => am == bm && an == bn && ap == bp,
        (Version::Alias(x), Version::Alias(y)) => x@ == y@,
        (Version::Nightly(x), Version::Nightly(y)) => x@ == y@,
        (Version::Latest, Version::Latest) => true,
        (Version::Bypassed, Version::Bypassed) => true,
        _ => false,
    }
}

impl PartialEq for Version {
    fn eq(&self, other: &Version) -> (r: bool) {
        match (self, other) {
            (
                Version::Semver { major: am, minor: an, patch: ap },
                Version::Semver { major: bm, minor: bn, patch: bp },
            ) => *am == *bm && *an == *bn && *ap == *bp,
            (Version::Alias(x), Version::Alias(y)) => str_eq(x.as_str(), y.as_str()),
            (Version::Nightly(x), Version::Nightly(y)) => str_eq(x.as_str(), y.as_str()),
            (Version::Latest, Version::Latest) => true,
            (Version::Bypassed, Version::Bypassed) => true,
            _ => false,
        }
    }
}

impl vstd::std_specs::cmp::PartialEqSpecImpl for Version {
    open spec fn obeys_eq_spec() -> bool {
        true
    }

    open spec fn eq_spec(&self, other: &Version) -> bool {
        veq(*self, *other)
    }
}

/// The display form: `v{major}.{minor}.{patch}` for a semver, the bare tag
/// for an alias or a development tag, and the two fixed words otherwise.
pub open spec fn display_seq(v: Version) -> Seq<char> {
    match v {
        Version::Semver { major, minor, patch } => seq!['v'] + dec_digits(major as nat) + seq!['.']
            + dec_digits(minor as nat) + seq!['.'] + dec_digits(patch as nat),
        Version::Alias(s) => s@,
        Version::Nightly(s) => s@,
        Version::Latest => "latest"@,
        Version::Bypassed => "system"@,
    }
}

/// Rank of a variant in the cross-variant order; the order of the variants
/// as declared.
pub open spec fn rank(v: Version) -> int {
    match v {
        Version::Semver { .. } => 0,
        Version::Alias(_) => 1,
        Version::Nightly(_) => 2,
        Version::Latest => 3,
        Version::Bypassed => 4,
    }
}

/// Strict total order on versions: by variant rank, then numerically for
/// semvers and lexicographically for named tags.
pub open spec fn version_lt(a: Version, b: Version) -> bool {
    rank(a) < rank(b) || (rank(a) == rank(b) && match (a, b) {
        (
            Version::Semver { major: am, minor: an, patch: ap },
            Version::Semver { major: bm, minor: bn, patch: bp },
        ) => am < bm || (am == bm && (an < bn || (an == bn && ap < bp))),
        (Version::Alias(x), Version::Alias(y)) => lex_lt(x@, y@),
        (Version::Nightly(x), Version::Nightly(y)) => lex_lt(x@, y@),
        _ => false,
    })
}

/// Non-strict order on versions.
pub open spec fn version_le(a: Version, b: Version) -> bool {
    version_lt(a, b) || veq(a, b)
}

impl Version {
    /// The version's display string.
    pub fn v_str(&self) -> (r: String)
        ensures
            r@ == display_seq(*self),
    {
        proof {
            reveal_strlit("v");
            reveal_strlit(".");
        }
        match self {
            Version::Semver { major, minor, patch } => {
                let mut s = "v".to_owned();
                let m = u64_to_dec(*major);
                s.append(m.as_str());
                s.append(".");
                let n = u64_to_dec(*minor);
                s.append(n.as_str());
                s.append(".");
                let p = u64_to_dec(*patch);
                s.append(p.as_str());
                proof {
                    assert(s@ =~= display_seq(*self));
                }
                s
            },
            Version::Alias(t) => t.clone(),
            Version::Nightly(t) => t.clone(),
            Version::Latest => "latest".to_owned(),
            Version::Bypassed => "system".to_owned(),
        }
    }

    /// A fresh value equal to this one.
    pub fn duplicate(&self) -> (r: Version)
        ensures
            veq(r, *self),
            r == *self,
    {
        match self {
            Version::Semver { major, minor, patch } => Version::Semver {
                major: *major,
                minor: *minor,
                patch: *patch,
            },
            Version::Alias(t) => Version::Alias(t.clone()),
            Version::Nightly(t) => Version::Nightly(t.clone()),
            Version::Latest => Version::Latest,
            Version::Bypassed => Version::Bypassed,
        }
    }

    /// The tag under which this version can be stored as an alias:
    /// the name of an alias or of a development tag.
    pub fn alias_name(&self) -> (r: Option<&str>)
        ensures
            match r {
                Some(name) => (self matches Version::Alias(t) && t@ == name@) || (
                self matches Version::Nightly(t) && t@ == name@),
                None => !(self matches Version::Alias(_)) && !(self matches Version::Nightly(_)),
            },
    {
        match self {
            Version::Alias(t) => Some(t.as_str()),
            Version::Nightly(t) => Some(t.as_str()),
            _ => None,
        }
    }

    /// Where this version lives on disk: the bypass sentinel, the
    /// installation directory for a semver or an installed development
    /// tag, and the alias link otherwise. Every result is the sentinel
    /// or a path under the installations or aliases directory.
    pub fn installation_path(
        &self,
        config: &crate::config::PactupConfig,
        nightly_installed: bool,
    ) -> (r: String)
        ensures
            match *self {
                Version::Bypassed => r@ == "/dev/null"@,
                Version::Semver { .. } => r@ == config.spec_base_dir() + "/pact-versions"@ + "/"@
                    + display_seq(*self),
                Version::Alias(n) => r@ == config.spec_base_dir() + "/aliases"@ + "/"@ + n@,
                Version::Latest => r@ == config.spec_base_dir() + "/aliases"@ + "/"@ + "latest"@,
                Version::Nightly(t) => r@ == (if nightly_installed {
                    config.spec_base_dir() + "/pact-versions"@ + "/"@ + t@
                } else {
                    config.spec_base_dir() + "/aliases"@ + "/"@ + t@
                }),
            },
            r@ == "/dev/null"@ || crate::strutil::starts_with(
                r@,
                config.spec_base_dir() + "/pact-versions"@,
            ) || crate::strutil::starts_with(r@, config.spec_base_dir() + "/aliases"@),
    {
        proof {
            reveal_strlit("/");
        }
        let r = match self {
            Version::Bypassed => crate::system_version::path(),
            Version::Semver { .. } => {
                let mut s = config.installations_dir();
                s.append("/");
                let shown = self.v_str();
                s.append(shown.as_str());
                s
            },
            Version::Alias(n) => {
                let mut s = config.aliases_dir();
                s.append("/");
                s.append(n.as_str());
                s
            },
            Version::Latest => {
                let mut s = config.aliases_dir();
                s.append("/");
                s.append("latest");
                s
            },
            Version::Nightly(t) => {
                if nightly_installed {
                    let mut s = config.installations_dir();
                    s.append("/");
                    s.append(t.as_str());
                    s
                } else {
                    let mut s = config.aliases_dir();
                    s.append("/");
                    s.append(t.as_str());
                    s
                }
            },
        };
        proof {
            let base = config.spec_base_dir();
            let pv = base + "/pact-versions"@;
            let al = base + "/aliases"@;
            match *self {
                Version::Bypassed => {},
                Version::Semver { .. } => {
                    assert(r@.take(pv.len() as int) =~= pv);
                },
                Version::Alias(_) => {
                    assert(r@.take(al.len() as int) =~= al);
                },
                Version::Latest => {
                    assert(r@.take(al.len() as int) =~= al);
                },
                Version::Nightly(_) => {
                    if nightly_installed {
                        assert(r@.take(pv.len() as int) =~= pv);
                    } else {
                        assert(r@.take(al.len() as int) =~= al);
                    }
                },
            }
        }
        r
    }

    /// The stored aliases that point at this version.
    pub fn find_aliases(&self, stored: &Vec<crate::alias::StoredAlias>) -> (r: Vec<
        crate::alias::StoredAlias,
    >)
        ensures
            r@ == stored@.filter(
                (|a: crate::alias::StoredAlias| a.spec_s_ver() == display_seq(*self)),
            ),
    {
        let ghost pred = (|a: crate::alias::StoredAlias|
            a.spec_s_ver() == display_seq(*self));
        let shown = self.v_str();
        let mut out: Vec<crate::alias::StoredAlias> = Vec::new();
        let mut i: usize = 0;
        while i < stored.len()
            invariant
                0 <= i <= stored@.len(),
                shown@ == display_seq(*self),
                out@ == stored@.take(i as int).filter(pred),
                pred == (|a: crate::alias::StoredAlias| a.spec_s_ver() == display_seq(*self)),
            decreases stored@.len() - i,
        {
            let a = &stored[i];
            proof {
                reveal(Seq::filter);
                let t1 = stored@.take(i as int + 1);
                assert(t1.drop_last() =~= stored@.take(i as int));
                assert(t1.last() == stored@[i as int]);
            }
            if str_eq(a.s_ver(), shown.as_str()) {
                let d = a.duplicate();
                proof {
                    assert(d == stored@[i as int]);
                }
                out.push(d);
            }
            proof {
                assert(out@ == stored@.take(i as int + 1).filter(pred));
            }
            i = i + 1;
        }
        proof {
            assert(stored@.take(i as int) =~= stored@);
        }
        out
    }

    /// Whether this is a development tag.
    pub fn is_nightly(&self) -> (r: bool)
        ensures
            r == (self matches Version::Nightly(_)),
    {
        matches!(self, Version::Nightly(_))
    }

    /// Three-way comparison under the total order.
    pub fn compare(&self, other: &Version) -> (r: Cmp)
        ensures
            (r == Cmp::Lt) == version_lt(*self, *other),
            (r == Cmp::Eq) == veq(*self, *other),
            (r == Cmp::Gt) == version_lt(*other, *self),
    {
        proof {
            lemma_version_order_total(*self, *other);
            lemma_version_lt_asym(*self, *other);
            lemma_version_lt_asym(*other, *self);
        }
        match (self, other) {
            (
                Version::Semver { major: am, minor: an, patch: ap },
                Version::Semver { major: bm, minor: bn, patch: bp },
            ) => {
                if *am < *bm {
                    Cmp::Lt
                } else if *bm < *am {
                    Cmp::Gt
                } else if *an < *bn {
                    Cmp::Lt
                } else if *bn < *an {
                    Cmp::Gt
                } else if *ap < *bp {
                    Cmp::Lt
                } else if *bp < *ap {
                    Cmp::Gt
                } else {
                    Cmp::Eq
                }
            },
            (Version::Alias(x), Version::Alias(y)) => str_cmp(x.as_str(), y.as_str()),
            (Version::Nightly(x), Version::Nightly(y)) => str_cmp(x.as_str(), y.as_str()),
            (Version::Latest, Version::Latest) => Cmp::Eq,
            (Version::Bypassed, Version::Bypassed) => Cmp::Eq,
            _ => {
                let ra = self.rank_exec();
                let rb = other.rank_exec();
                if ra < rb {
                    Cmp::Lt
                } else {
                    Cmp::Gt
                }
            },
        }
    }

    fn rank_exec(&self) -> (r: u8)
        ensures
            r as int == rank(*self),
    {
        match self {
            Version::Semver { .. } => 0,
            Version::Alias(_) => 1,
            Version::Nightly(_) => 2,
            Version::Latest => 3,
            Version::Bypassed => 4,
        }
    }
}

/// The order on versions is total: two versions are ordered one way,
/// equal, or ordered the other way.
pub proof fn lemma_version_order_total(a: Version, b: Version)
    ensures
        version_lt(a, b) || veq(a, b) || version_lt(b, a),
{
    if rank(a) == rank(b) {
        match (a, b) {
            (Version::Alias(x), Version::Alias(y)) => {
                crate::strutil::lemma_lex_total(x@, y@);
            },
            (Version::Nightly(x), Version::Nightly(y)) => {
                crate::strutil::lemma_lex_total(x@, y@);
            },
            _ => {},
        }
    }
}

/// The order on versions is asymmetric, and a smaller version is not equal.
pub proof fn lemma_version_lt_asym(a: Version, b: Version)
    ensures
        version_lt(a, b) ==> !version_lt(b, a),
        version_lt(a, b) ==> !veq(a, b),
{
    match (a, b) {
        (Version::Alias(x), Version::Alias(y)) => {
            crate::strutil::lemma_lex_asym(x@, y@);
        },
        (Version::Nightly(x), Version::Nightly(y)) => {
            crate::strutil::lemma_lex_asym(x@, y@);
        },
        _ => {},
    }
}

/// The order on versions is transitive.
pub proof fn lemma_version_lt_trans(a: Version, b: Version, c: Version)
    requires
        version_lt(a, b),
        version_lt(b, c),
    ensures
        version_lt(a, c),
{
    if rank(a) == rank(b) && rank(b) == rank(c) {
        match (a, b) {
            (Version::Alias(x), Version::Alias(y)) => {
                if let Version::Alias(z) = c {
                    crate::strutil::lemma_lex_trans(x@, y@, z@);
                }
            },
            (Version::Nightly(x), Version::Nightly(y)) => {
                if let Version::Nightly(z) = c {
                    crate::strutil::lemma_lex_trans(x@, y@, z@);
                }
            },
            _ => {},
        }
    }
}

/// Equal versions relate to any third version in the same way.
pub proof fn lemma_veq_lt_congruence(a: Version, b: Version, c: Version)
    requires
        veq(a, b),
    ensures
        version_lt(a, c) == version_lt(b, c),
        version_lt(c, a) == version_lt(c, b),
        veq(a, c) == veq(b, c),
{
}

/// The reason a version string is rejected: the numeric branch was taken
/// and the dotted numeric form could not be read.
#[derive(Debug, Clone, Copy, PartialEq, Eq, Structural)]
pub enum VersionError {
    InvalidNumeric,
}

/// First position of `c` in `s`, or -1 when `c` does not occur.
pub open spec fn find_char(s: Seq<char>, c: char) -> int
    decreases s.len(),
{
    if s.len() == 0 {
        -1
    } else if s[0] == c {
        0
    } else {
        let r = find_char(s.skip(1), c);
        if r < 0 {
            -1
        } else {
            r + 1
        }
    }
}

proof fn lemma_find_char_at(s: Seq<char>, c: char, i: int)
    requires
        0 <= i < s.len(),
        s[i] == c,
        forall|k: int| 0 <= k < i ==> s[k] != c,
    ensures
        find_char(s, c) == i,
    decreases i,
{
    if i > 0 {
        assert(s[0] != c);
        lemma_find_char_at(s.skip(1), c, i - 1);
    }
}

proof fn lemma_find_char_none(s: Seq<char>, c: char)
    requires
        forall|k: int| 0 <= k < s.len() ==> s[k] != c,
    ensures
        find_char(s, c) == -1,
    decreases s.len(),
{
    if s.len() > 0 {
        lemma_find_char_none(s.skip(1), c);
    }
}

/// The number a digit part denotes, when it is a non-empty all-digit
/// sequence whose value fits in a `u64`.
pub open spec fn num(s: Seq<char>) -> Option<nat> {
    if s.len() > 0 && all_digits(s) && dec_value(s) <= u64::MAX {
        Some(dec_value(s))
    } else {
        None
    }
}

/// Reading a dotted numeric version: one to three dot-separated numeric
/// parts, missing parts defaulting to zero.
pub open spec fn semver_of(u: Seq<char>) -> Option<(nat, nat, nat)> {
    let d1 = find_char(u, '.');
    if d1 < 0 {
        match num(u) {
            Some(m) => Some((m, 0, 0)),
            None => None,
        }
    } else {
        let p1 = u.take(d1);
        let rest = u.skip(d1 + 1);
        let d2 = find_char(rest, '.');
        if d2 < 0 {
            match (num(p1), num(rest)) {
                (Some(m), Some(n)) => Some((m, n, 0)),
                _ => None,
            }
        } else {
            let p2 = rest.take(d2);
            let p3 = rest.skip(d2 + 1);
            if find_char(p3, '.') >= 0 {
                None
            } else {
                match (num(p1), num(p2), num(p3)) {
                    (Some(m), Some(n), Some(p)) => Some((m, n, p)),
                    _ => None,
                }
            }
        }
    }
}

/// A development tag: the text contains `alpha`, `nightly` or `dev`.
pub open spec fn is_dev_tag(t: Seq<char>) -> bool {
    contains_sub(t, "alpha"@) || contains_sub(t, "nightly"@) || contains_sub(t, "dev"@)
}

/// The text with one optional leading `v` removed.
pub open spec fn strip_v(t: Seq<char>) -> Seq<char> {
    if t.len() > 0 && t[0] == 'v' {
        t.skip(1)
    } else {
        t
    }
}

/// The canonical form of user input: surrounding whitespace stripped,
/// ASCII letters lowercased.
pub open spec fn canon(s: Seq<char>) -> Seq<char> {
    lower_seq(trim_seq(s))
}

/// The parser takes the numeric branch on `t`: `t` is none of the fixed
/// words, is no development tag, and starts (after an optional `v`) with
/// a digit.
pub open spec fn takes_semver_branch(t: Seq<char>) -> bool {
    t != "system"@ && t != "latest"@ && !is_dev_tag(t) && strip_v(t).len() > 0 && is_digit(
        strip_v(t)[0],
    )
}

/// What a successful parse of the canonical text `t` yields.
pub open spec fn parse_ok(v: Version, t: Seq<char>) -> bool {
    if t == "system"@ {
        v matches Version::Bypassed
    } else if t == "latest"@ {
        v matches Version::Latest
    } else if is_dev_tag(t) {
        v matches Version::Nightly(tag) && tag@ == t
    } else if strip_v(t).len() > 0 && is_digit(strip_v(t)[0]) {
        match semver_of(strip_v(t)) {
            Some(mnp) => v matches Version::Semver { major, minor, patch } && major == mnp.0
                && minor == mnp.1 && patch == mnp.2,
            None => false,
        }
    } else {
        v matches Version::Alias(tag) && tag@ == t
    }
}

/// When a parse is refused: the numeric branch was taken and the dotted
/// numeric form could not be read.
pub open spec fn parse_fails(t: Seq<char>) -> bool {
    takes_semver_branch(t) && semver_of(strip_v(t)) is None
}

proof fn lemma_trim_front_props(s: Seq<char>)
    ensures
        trim_front(s).len() > 0 ==> !is_space(trim_front(s)[0]),
    decreases s.len(),
{
    if s.len() > 0 && is_space(s[0]) {
        lemma_trim_front_props(s.skip(1));
    }
}

proof fn lemma_trim_back_props(s: Seq<char>)
    ensures
        trim_back(s).len() > 0 ==> !is_space(trim_back(s).last()),
        trim_back(s).len() > 0 ==> trim_back(s)[0] == s[0],
    decreases s.len(),
{
    if s.len() > 0 && is_space(s.last()) {
        lemma_trim_back_props(s.drop_last());
    }
}

/// The canonical form of any text is itself canonical: no capital ASCII
/// letter, and no whitespace at either end.
proof fn lemma_canon_canonical(s: Seq<char>)
    ensures
        forall|k: int| 0 <= k < canon(s).len() ==> !is_upper(#[trigger] canon(s)[k]),
        canon(s).len() > 0 ==> !is_space(canon(s)[0]),
        canon(s).len() > 0 ==> !is_space(canon(s).last()),
{
    let t = trim_seq(s);
    let c = canon(s);
    lemma_trim_front_props(s);
    lemma_trim_back_props(trim_front(s));
    assert(c.len() == t.len());
    assert forall|k: int| 0 <= k < c.len() implies !is_upper(#[trigger] c[k]) by {
        assert(c[k] == lower_char(t[k]));
    }
    if c.len() > 0 {
        assert(c[0] == lower_char(t[0]));
        assert(c.last() == lower_char(t.last()));
    }
}

/// A canonical text is its own canonical form.
proof fn lemma_canon_id(t: Seq<char>)
    requires
        forall|k: int| 0 <= k < t.len() ==> !is_upper(#[trigger] t[k]),
        t.len() > 0 ==> !is_space(t[0]),
        t.len() > 0 ==> !is_space(t.last()),
    ensures
        canon(t) == t,
{
    assert(trim_front(t) == t);
    assert(trim_back(t) == t);
    assert(lower_seq(t) =~= t);
}

/// Two versions read from the same canonical text are equal.
pub proof fn lemma_parse_ok_unique(t: Seq<char>, v: Version, w: Version)
    requires
        parse_ok(v, t),
        parse_ok(w, t),
    ensures
        veq(v, w),
{
}

#[verifier::rlimit(60)]
proof fn lemma_semver_display_parses(major: u64, minor: u64, patch: u64)
    ensures
        canon(display_seq(Version::Semver { major, minor, patch })) == display_seq(
            Version::Semver { major, minor, patch },
        ),
        parse_ok(
            Version::Semver { major, minor, patch },
            display_seq(Version::Semver { major, minor, patch }),
        ),
{
    let v = Version::Semver { major, minor, patch };
    let a = dec_digits(major as nat);
    let b = dec_digits(minor as nat);
    let c = dec_digits(patch as nat);
    crate::strutil::lemma_dec_round_trip(major as nat);
    crate::strutil::lemma_dec_round_trip(minor as nat);
    crate::strutil::lemma_dec_round_trip(patch as nat);
    let d = display_seq(v);
    let la = a.len() as int;
    let lb = b.len() as int;
    let lc = c.len() as int;
    assert(d.len() == 3 + la + lb + lc);
    assert(d[0] == 'v');
    assert forall|k: int| 1 <= k < 1 + la implies #[trigger] d[k] == a[k - 1] by {}
    assert(d[1 + la] == '.');
    assert forall|k: int| 2 + la <= k < 2 + la + lb implies #[trigger] d[k] == b[k - 2 - la] by {}
    assert(d[2 + la + lb] == '.');
    assert forall|k: int| 3 + la + lb <= k < d.len() implies #[trigger] d[k] == c[k - 3 - la
        - lb] by {}
    assert forall|k: int| 0 <= k < d.len() implies (#[trigger] d[k] == 'v' || d[k] == '.'
        || is_digit(d[k])) by {
        if 1 <= k < 1 + la {
            assert(is_digit(a[k - 1]));
        } else if 2 + la <= k < 2 + la + lb {
            assert(is_digit(b[k - 2 - la]));
        } else if 3 + la + lb <= k {
            assert(is_digit(c[k - 3 - la - lb]));
        }
    }
    // The display form is canonical.
    assert forall|k: int| 0 <= k < d.len() implies !is_upper(#[trigger] d[k]) by {}
    assert(d.last() == c[lc - 1]);
    assert(is_digit(d.last()));
    assert(!is_space(d[0]) && !is_space(d.last()));
    lemma_canon_id(d);
    // It is none of the fixed words and no development tag.
    reveal_strlit("system");
    reveal_strlit("latest");
    reveal_strlit("alpha");
    reveal_strlit("nightly");
    reveal_strlit("dev");
    assert(d != "system"@) by {
        if d == "system"@ {
            assert(d[0] == 's');
        }
    }
    assert(d != "latest"@) by {
        if d == "latest"@ {
            assert(d[0] == 'l');
        }
    }
    assert(!contains_sub(d, "alpha"@)) by {
        if contains_sub(d, "alpha"@) {
            let i = choose|i: int|
                0 <= i && i + "alpha"@.len() <= d.len() && #[trigger] d.subrange(
                    i,
                    i + "alpha"@.len(),
                ) == "alpha"@;
            assert(d.subrange(i, i + "alpha"@.len())[0] == d[i]);
            assert(d[i] == 'a');
        }
    }
    assert(!contains_sub(d, "nightly"@)) by {
        if contains_sub(d, "nightly"@) {
            let i = choose|i: int|
                0 <= i && i + "nightly"@.len() <= d.len() && #[trigger] d.subrange(
                    i,
                    i + "nightly"@.len(),
                ) == "nightly"@;
            assert(d.subrange(i, i + "nightly"@.len())[0] == d[i]);
            assert(d[i] == 'n');
        }
    }
    assert(!contains_sub(d, "dev"@)) by {
        if contains_sub(d, "dev"@) {
            let i = choose|i: int|
                0 <= i && i + "dev"@.len() <= d.len() && #[trigger] d.subrange(
                    i,
                    i + "dev"@.len(),
                ) == "dev"@;
            assert(d.subrange(i, i + "dev"@.len())[0] == d[i]);
            assert(d[i] == 'd');
        }
    }
    // The numeric branch is taken and reads back the three numbers.
    let u = d.skip(1);
    assert(u =~= a + seq!['.'] + b + seq!['.'] + c);
    assert(strip_v(d) == u);
    assert(u[0] == a[0]);
    assert(is_digit(u[0]));
    assert forall|k: int| 0 <= k < la implies #[trigger] u[k] != '.' by {
        assert(u[k] == a[k]);
        assert(is_digit(a[k]));
    }
    assert(u[la] == '.');
    lemma_find_char_at(u, '.', la);
    assert(u.take(la) =~= a);
    let rest = u.skip(la + 1);
    assert(rest =~= b + seq!['.'] + c);
    assert forall|k: int| 0 <= k < lb implies #[trigger] rest[k] != '.' by {
        assert(rest[k] == b[k]);
        assert(is_digit(b[k]));
    }
    assert(rest[lb] == '.');
    lemma_find_char_at(rest, '.', lb);
    assert(rest.take(lb) =~= b);
    let p3 = rest.skip(lb + 1);
    assert(p3 =~= c);
    assert forall|k: int| 0 <= k < p3.len() implies #[trigger] p3[k] != '.' by {
        assert(is_digit(c[k]));
    }
    lemma_find_char_none(p3, '.');
    assert(num(a) == Some(major as nat));
    assert(num(b) == Some(minor as nat));
    assert(num(c) == Some(patch as nat));
    assert(semver_of(u) == Some((major as nat, minor as nat, patch as nat)));
}

/// Display and parse round-trip: for a version read from some input, the
/// display form parses back, and everything it can parse to is the same
/// version.
pub proof fn lemma_parse_display_round_trip(s: Seq<char>, v: Version)
    requires
        parse_ok(v, canon(s)),
    ensures
        !parse_fails(canon(display_seq(v))),
        forall|w: Version| parse_ok(w, canon(display_seq(v))) ==> veq(w, v),
{
    let t = canon(s);
    let d = display_seq(v);
    lemma_canon_canonical(s);
    match v {
        Version::Semver { major, minor, patch } => {
            lemma_semver_display_parses(major, minor, patch);
        },
        _ => {
            assert(d == t);
            lemma_canon_id(t);
        },
    }
    assert(parse_ok(v, canon(d)));
    assert forall|w: Version| parse_ok(w, canon(d)) implies veq(w, v) by {
        lemma_parse_ok_unique(canon(d), w, v);
    }
}

pub fn find_dot(s: &str, from: usize) -> (r: Option<usize>)
    requires
        from <= s@.len(),
    ensures
        match r {
            Some(i) => from <= i < s@.len() && find_char(s@.skip(from as int), '.') == i - from,
            None => find_char(s@.skip(from as int), '.') == -1,
        },
{
    let len = s.unicode_len();
    let mut j: usize = from;
    while j < len
        invariant
            from <= j <= len,
            len == s@.len(),
            forall|k: int| from <= k < j ==> s@[k] != '.',
        decreases len - j,
    {
        if s.get_char(j) == '.' {
            proof {
                let u = s@.skip(from as int);
                assert forall|k: int| 0 <= k < j - from implies u[k] != '.' by {
                    assert(u[k] == s@[k + from]);
                }
                assert(u[j - from] == s@[j as int]);
                lemma_find_char_at(u, '.', j - from);
            }
            return Some(j);
        }
        j = j + 1;
    }
    proof {
        let u = s@.skip(from as int);
        assert forall|k: int| 0 <= k < u.len() implies u[k] != '.' by {
            assert(u[k] == s@[k + from]);
        }
        lemma_find_char_none(u, '.');
    }
    None
}

impl Version {
    /// Parse a version string: trim and lowercase, recognize the fixed
    /// words and development tags, then read a dotted numeric form with
    /// an optional `v` prefix; anything else is an alias name.
    pub fn parse(s: &str) -> (r: Result<Version, VersionError>)
        ensures
            match r {
                Ok(v) => parse_ok(v, canon(s@)),
                Err(_) => parse_fails(canon(s@)),
            },
            (r matches Err(_)) == parse_fails(canon(s@)),
    {
        let trimmed = trim_str(s);
        let lowered = to_lower_str(trimmed);
        let t = lowered.as_str();
        let ghost tv = canon(s@);
        proof {
            assert(t@ == tv);
        }
        if str_eq(t, "system") {
            return Ok(Version::Bypassed);
        }
        if str_eq(t, "latest") {
            return Ok(Version::Latest);
        }
        if contains_str(t, "alpha") || contains_str(t, "nightly") || contains_str(t, "dev") {
            return Ok(Version::Nightly(lowered));
        }
        let tlen = t.unicode_len();
        let off: usize = if tlen > 0 && t.get_char(0) == 'v' {
            1
        } else {
            0
        };
        proof {
            assert(t@.subrange(off as int, tlen as int) =~= strip_v(tv));
        }
        if off >= tlen {
            return Ok(Version::Alias(lowered));
        }
        let c0 = t.get_char(off);
        let u0 = c0 as u32;
        if !(48 <= u0 && u0 <= 57) {
            return Ok(Version::Alias(lowered));
        }
        let u = t.substring_char(off, tlen);
        let ghost uv = strip_v(tv);
        proof {
            assert(u@ == uv);
        }
        match Self::parse_numeric(u) {
            Some(v) => Ok(v),
            None => Err(VersionError::InvalidNumeric),
        }
    }

    /// Read the dotted numeric form.
    fn parse_numeric(u: &str) -> (r: Option<Version>)
        ensures
            match r {
                Some(v) => semver_of(u@) matches Some(mnp) && v matches Version::Semver {
                    major,
                    minor,
                    patch,
                } && major == mnp.0 && minor == mnp.1 && patch == mnp.2,
                None => semver_of(u@) is None,
            },
    {
        let ulen = u.unicode_len();
        match find_dot(u, 0) {
            None => {
                proof {
                    assert(u@.skip(0) =~= u@);
                }
                match parse_u64(u) {
                    Some(m) => Some(Version::Semver { major: m, minor: 0, patch: 0 }),
                    None => None,
                }
            },
            Some(d1) => {
                proof {
                    assert(u@.skip(0) =~= u@);
                }
                let p1 = u.substring_char(0, d1);
                proof {
                    assert(p1@ =~= u@.take(d1 as int));
                }
                match find_dot(u, d1 + 1) {
                    None => {
                        let p2 = u.substring_char(d1 + 1, ulen);
                        proof {
                            assert(p2@ =~= u@.skip(d1 + 1));
                        }
                        match (parse_u64(p1), parse_u64(p2)) {
                            (Some(m), Some(n)) => Some(
                                Version::Semver { major: m, minor: n, patch: 0 },
                            ),
                            _ => None,
                        }
                    },
                    Some(d2) => {
                        let ghost rest = u@.skip(d1 + 1);
                        proof {
                            assert(find_char(rest, '.') == d2 - (d1 + 1));
                        }
                        match find_dot(u, d2 + 1) {
                            Some(_) => {
                                proof {
                                    assert(rest.skip(d2 - d1) =~= u@.skip(d2 + 1));
                                }
                                None
                            },
                            None => {
                                proof {
                                    assert(rest.skip(d2 - d1) =~= u@.skip(d2 + 1));
                                }
                                let p2 = u.substring_char(d1 + 1, d2);
                                let p3 = u.substring_char(d2 + 1, ulen);
                                proof {
                                    assert(p2@ =~= rest.take(d2 - (d1 + 1)));
                                    assert(p3@ =~= rest.skip(d2 - d1));
                                }
                                match (parse_u64(p1), parse_u64(p2), parse_u64(p3)) {
                                    (Some(m), Some(n), Some(p)) => Some(
                                        Version::Semver { major: m, minor: n, patch: p },
                                    ),
                                    _ => None,
                                }
                            },
                        }
                    },
                }
            },
        }
    }
}

} // verus!
