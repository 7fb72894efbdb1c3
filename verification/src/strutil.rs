//! Character and decimal-string groundwork shared by the version parser,
//! the display form, and the asset-name matcher.

use vstd::prelude::*;
use vstd::string::StrSliceExecFns;

verus! {

/// A character is an ASCII decimal digit.
pub open spec fn is_digit(c: char) -> bool {
    48 <= c as int && c as int <= 57
}

/// Numeric value of an ASCII digit character.
pub open spec fn digit_val(c: char) -> nat {
    (c as int - 48) as nat
}

/// The digit character for a value below ten.
pub open spec fn digit_char(d: nat) -> char {
    if d == 0 {
        '0'
    } else if d == 1 {
        '1'
    } else if d == 2 {
        '2'
    } else if d == 3 {
        '3'
    } else if d == 4 {
        '4'
    } else if d == 5 {
        '5'
    } else if d == 6 {
        '6'
    } else if d == 7 {
        '7'
    } else if d == 8 {
        '8'
    } else {
        '9'
    }
}

/// Decimal rendering of a natural number, most significant digit first.
pub open spec fn dec_digits(n: nat) -> Seq<char>
    decreases n,
{
    if n < 10 {
        seq![digit_char(n)]
    } else {
        dec_digits(n / 10).push(digit_char(n % 10))
    }
}

/// Every character of the sequence is an ASCII digit.
pub open spec fn all_digits(s: Seq<char>) -> bool {
    forall|i: int| 0 <= i < s.len() ==> is_digit(#[trigger] s[i])
}

/// The number denoted by a sequence of ASCII digits.
pub open spec fn dec_value(s: Seq<char>) -> nat
    decreases s.len(),
{
    if s.len() == 0 {
        0
    } else {
        dec_value(s.drop_last()) * 10 + digit_val(s.last())
    }
}

proof fn lemma_digit_char_val(d: nat)
    requires
        d < 10,
    ensures
        is_digit(digit_char(d)),
        digit_val(digit_char(d)) == d,
{
}

proof fn lemma_dec_digits_shape(n: nat)
    ensures
        dec_digits(n).len() >= 1,
        all_digits(dec_digits(n)),
        n >= 1 ==> dec_digits(n).first() != '0',
        n >= 10 ==> dec_digits(n).len() >= 2,
    decreases n,
{
    if n >= 10 {
        lemma_dec_digits_shape(n / 10);
    }
}

/// Rendering a number and reading it back gives the number again.
pub proof fn lemma_dec_round_trip(n: nat)
    ensures
        dec_digits(n).len() >= 1,
        all_digits(dec_digits(n)),
        dec_value(dec_digits(n)) == n,
        n >= 1 ==> dec_digits(n).first() != '0',
    decreases n,
{
    lemma_dec_digits_shape(n);
    if n < 10 {
        lemma_digit_char_val(n);
        let single = seq![digit_char(n)];
        assert(single.drop_last() =~= Seq::<char>::empty());
        assert(dec_value(Seq::<char>::empty()) == 0);
        assert(single.last() == digit_char(n));
        assert(dec_value(single) == dec_value(single.drop_last()) * 10 + digit_val(single.last()));
        assert(dec_value(single) == digit_val(digit_char(n)));
    } else {
        lemma_dec_round_trip(n / 10);
        lemma_digit_char_val(n % 10);
        let whole = dec_digits(n / 10).push(digit_char(n % 10));
        assert(whole.drop_last() =~= dec_digits(n / 10));
        assert(whole.last() == digit_char(n % 10));
        assert(dec_value(whole) == dec_value(dec_digits(n / 10)) * 10 + digit_val(
            digit_char(n % 10),
        ));
        vstd::arithmetic::div_mod::lemma_fundamental_div_mod(n as int, 10);
    }
}

/// Decimal string of a `u64`, proved equal to the mathematical rendering.
pub fn u64_to_dec(n: u64) -> (s: String)
    ensures
        s@ =~= dec_digits(n as nat),
    decreases n,
{
    proof {
        reveal_strlit("0");
        reveal_strlit("1");
        reveal_strlit("2");
        reveal_strlit("3");
        reveal_strlit("4");
        reveal_strlit("5");
        reveal_strlit("6");
        reveal_strlit("7");
        reveal_strlit("8");
        reveal_strlit("9");
    }
    let d = n % 10;
    let digit: &str = if d == 0 {
        "0"
    } else if d == 1 {
        "1"
    } else if d == 2 {
        "2"
    } else if d == 3 {
        "3"
    } else if d == 4 {
        "4"
    } else if d == 5 {
        "5"
    } else if d == 6 {
        "6"
    } else if d == 7 {
        "7"
    } else if d == 8 {
        "8"
    } else {
        "9"
    };
    if n < 10 {
        let s = digit.to_owned();
        proof {
            assert(s@ =~= seq![digit_char(n as nat)]);
        }
        s
    } else {
        let mut s = u64_to_dec(n / 10);
        s.append(digit);
        proof {
            assert(s@ =~= dec_digits((n / 10) as nat).push(digit_char((n % 10) as nat)));
        }
        s
    }
}

proof fn lemma_dec_value_extend(s: Seq<char>, i: int)
    requires
        0 <= i < s.len(),
    ensures
        dec_value(s.take(i + 1)) == dec_value(s.take(i)) * 10 + digit_val(s[i]),
{
    let t = s.take(i + 1);
    assert(t.drop_last() =~= s.take(i));
    assert(t.last() == s[i]);
}

proof fn lemma_dec_value_grows(s: Seq<char>, i: int, j: int)
    requires
        0 <= i <= j <= s.len(),
    ensures
        dec_value(s.take(i)) <= dec_value(s.take(j)),
    decreases j - i,
{
    if i < j {
        lemma_dec_value_grows(s, i, j - 1);
        lemma_dec_value_extend(s, j - 1);
    }
}

/// Read a `u64` from a string of ASCII digits; `None` when the string is
/// empty, holds a non-digit, or denotes a value above `u64::MAX`.
pub fn parse_u64(s: &str) -> (r: Option<u64>)
    ensures
        match r {
            Some(v) => s@.len() > 0 && all_digits(s@) && v == dec_value(s@),
            None => s@.len() == 0 || !all_digits(s@) || dec_value(s@) > u64::MAX,
        },
{
    let len = s.unicode_len();
    if len == 0 {
        return None;
    }
    let mut acc: u64 = 0;
    let mut i: usize = 0;
    while i < len
        invariant
            0 <= i <= len,
            len == s@.len(),
            all_digits(s@.take(i as int)),
            acc == dec_value(s@.take(i as int)),
        decreases len - i,
    {
        let c = s.get_char(i);
        let code = c as u32;
        if !(48 <= code && code <= 57) {
            assert(!all_digits(s@));
            return None;
        }
        let d = (code - 48) as u64;
        if acc > (u64::MAX - d) / 10 {
            proof {
                lemma_dec_value_extend(s@, i as int);
                assert(dec_value(s@.take(i as int + 1)) > u64::MAX) by (nonlinear_arith)
                    requires
                        dec_value(s@.take(i as int + 1)) == dec_value(s@.take(i as int)) * 10
                            + digit_val(s@[i as int]),
                        dec_value(s@.take(i as int)) == acc,
                        acc > (u64::MAX - d) / 10,
                        d == digit_val(s@[i as int]),
                        d <= 9,
                ;
                lemma_dec_value_grows(s@, i as int + 1, s@.len() as int);
                assert(s@.take(s@.len() as int) =~= s@);
            }
            return None;
        }
        proof {
            lemma_dec_value_extend(s@, i as int);
            assert(acc * 10 + d <= u64::MAX) by (nonlinear_arith)
                requires
                    acc <= (u64::MAX - d) / 10,
                    d <= 9,
            ;
        }
        acc = acc * 10 + d;
        i = i + 1;
    }
    proof {
        assert(s@.take(len as int) =~= s@);
    }
    Some(acc)
}

/// ASCII whitespace, the characters stripped from the ends of user input.
pub open spec fn is_space(c: char) -> bool {
    c as int == 32 || (9 <= c as int && c as int <= 13)
}

/// The sequence with leading whitespace removed.
pub open spec fn trim_front(s: Seq<char>) -> Seq<char>
    decreases s.len(),
{
    if s.len() > 0 && is_space(s[0]) {
        trim_front(s.skip(1))
    } else {
        s
    }
}

/// The sequence with trailing whitespace removed.
pub open spec fn trim_back(s: Seq<char>) -> Seq<char>
    decreases s.len(),
{
    if s.len() > 0 && is_space(s.last()) {
        trim_back(s.drop_last())
    } else {
        s
    }
}

/// The sequence with surrounding whitespace removed.
pub open spec fn trim_seq(s: Seq<char>) -> Seq<char> {
    trim_back(trim_front(s))
}

proof fn lemma_trim_front_skip(s: Seq<char>, i: int)
    requires
        0 <= i <= s.len(),
        forall|k: int| 0 <= k < i ==> is_space(#[trigger] s[k]),
        i < s.len() ==> !is_space(s[i]),
    ensures
        trim_front(s) =~= s.skip(i),
    decreases i,
{
    if i == 0 {
        assert(s.skip(0) =~= s);
    } else {
        lemma_trim_front_skip(s.skip(1), i - 1);
        assert(s.skip(1).skip(i - 1) =~= s.skip(i));
    }
}

proof fn lemma_trim_back_take(s: Seq<char>, j: int)
    requires
        0 <= j <= s.len(),
        forall|k: int| j <= k < s.len() ==> is_space(#[trigger] s[k]),
        j > 0 ==> !is_space(s[j - 1]),
    ensures
        trim_back(s) =~= s.take(j),
    decreases s.len() - j,
{
    if j == s.len() {
        assert(s.take(j) =~= s);
    } else {
        lemma_trim_back_take(s.drop_last(), j);
        assert(s.drop_last().take(j) =~= s.take(j));
    }
}

/// Strip surrounding ASCII whitespace.
pub fn trim_str(s: &str) -> (r: &str)
    ensures
        r@ =~= trim_seq(s@),
{
    let len = s.unicode_len();
    let mut i: usize = 0;
    loop
        invariant
            0 <= i <= len,
            len == s@.len(),
            forall|k: int| 0 <= k < i ==> is_space(#[trigger] s@[k]),
        ensures
            i <= len,
            forall|k: int| 0 <= k < i ==> is_space(#[trigger] s@[k]),
            i < len ==> !is_space(s@[i as int]),
        decreases len - i,
    {
        if i >= len {
            break ;
        }
        let c = s.get_char(i);
        let u = c as u32;
        if !(u == 32 || (9 <= u && u <= 13)) {
            break ;
        }
        i = i + 1;
    }
    let mut j: usize = len;
    loop
        invariant
            i <= j <= len,
            len == s@.len(),
            forall|k: int| j <= k < len ==> is_space(#[trigger] s@[k]),
        ensures
            i <= j <= len,
            forall|k: int| j <= k < len ==> is_space(#[trigger] s@[k]),
            j > i ==> !is_space(s@[j - 1]),
        decreases j,
    {
        if j <= i {
            break ;
        }
        let c = s.get_char(j - 1);
        let u = c as u32;
        if !(u == 32 || (9 <= u && u <= 13)) {
            break ;
        }
        j = j - 1;
    }
    let r = s.substring_char(i, j);
    proof {
        lemma_trim_front_skip(s@, i as int);
        let t = s@.skip(i as int);
        lemma_trim_back_take(t, j - i);
        assert(t.take(j - i) =~= s@.subrange(i as int, j as int));
    }
    r
}

/// A character is an ASCII capital letter.
pub open spec fn is_upper(c: char) -> bool {
    65 <= c as int && c as int <= 90
}

/// The sequence with every trailing `c` removed.
pub open spec fn trim_trailing(s: Seq<char>, c: char) -> Seq<char>
    decreases s.len(),
{
    if s.len() > 0 && s.last() == c {
        trim_trailing(s.drop_last(), c)
    } else {
        s
    }
}

proof fn lemma_trim_trailing_take(s: Seq<char>, c: char, j: int)
    requires
        0 <= j <= s.len(),
        forall|k: int| j <= k < s.len() ==> s[k] == c,
        j > 0 ==> s[j - 1] != c,
    ensures
        trim_trailing(s, c) =~= s.take(j),
    decreases s.len() - j,
{
    if j == s.len() {
        assert(s.take(j) =~= s);
    } else {
        lemma_trim_trailing_take(s.drop_last(), c, j);
        assert(s.drop_last().take(j) =~= s.take(j));
    }
}

/// Strip every trailing occurrence of one character.
pub fn trim_end_char(s: &str, c: char) -> (r: &str)
    ensures
        r@ =~= trim_trailing(s@, c),
{
    let len = s.unicode_len();
    let mut j: usize = len;
    loop
        invariant
            0 <= j <= len,
            len == s@.len(),
            forall|k: int| j <= k < len ==> s@[k] == c,
        ensures
            0 <= j <= len,
            forall|k: int| j <= k < len ==> s@[k] == c,
            j > 0 ==> s@[j - 1] != c,
        decreases j,
    {
        if j == 0 {
            break ;
        }
        if s.get_char(j - 1) != c {
            break ;
        }
        j = j - 1;
    }
    let r = s.substring_char(0, j);
    proof {
        lemma_trim_trailing_take(s@, c, j as int);
        assert(r@ =~= s@.take(j as int));
    }
    r
}

/// ASCII lowercasing of one character; other characters are kept.
pub open spec fn lower_char(c: char) -> char {
    if is_upper(c) {
        (((c as u32) + 32) as u8) as char
    } else {
        c
    }
}

/// ASCII lowercasing of a character sequence.
pub open spec fn lower_seq(s: Seq<char>) -> Seq<char> {
    Seq::new(s.len(), |i: int| lower_char(s[i]))
}

fn lower_letter(c: char) -> (r: &'static str)
    requires
        65 <= c as u32 <= 90,
    ensures
        r@ =~= seq![lower_char(c)],
{
    proof {
        reveal_strlit("a");
        reveal_strlit("b");
        reveal_strlit("c");
        reveal_strlit("d");
        reveal_strlit("e");
        reveal_strlit("f");
        reveal_strlit("g");
        reveal_strlit("h");
        reveal_strlit("i");
        reveal_strlit("j");
        reveal_strlit("k");
        reveal_strlit("l");
        reveal_strlit("m");
        reveal_strlit("n");
        reveal_strlit("o");
        reveal_strlit("p");
        reveal_strlit("q");
        reveal_strlit("r");
        reveal_strlit("s");
        reveal_strlit("t");
        reveal_strlit("u");
        reveal_strlit("v");
        reveal_strlit("w");
        reveal_strlit("x");
        reveal_strlit("y");
        reveal_strlit("z");
    }
    let u = c as u32;
    if u == 65 {
        "a"
    } else if u == 66 {
        "b"
    } else if u == 67 {
        "c"
    } else if u == 68 {
        "d"
    } else if u == 69 {
        "e"
    } else if u == 70 {
        "f"
    } else if u == 71 {
        "g"
    } else if u == 72 {
        "h"
    } else if u == 73 {
        "i"
    } else if u == 74 {
        "j"
    } else if u == 75 {
        "k"
    } else if u == 76 {
        "l"
    } else if u == 77 {
        "m"
    } else if u == 78 {
        "n"
    } else if u == 79 {
        "o"
    } else if u == 80 {
        "p"
    } else if u == 81 {
        "q"
    } else if u == 82 {
        "r"
    } else if u == 83 {
        "s"
    } else if u == 84 {
        "t"
    } else if u == 85 {
        "u"
    } else if u == 86 {
        "v"
    } else if u == 87 {
        "w"
    } else if u == 88 {
        "x"
    } else if u == 89 {
        "y"
    } else {
        "z"
    }
}

/// ASCII lowercasing of a whole string.
pub fn to_lower_str(s: &str) -> (r: String)
    ensures
        r@ =~= lower_seq(s@),
{
    let len = s.unicode_len();
    let mut out = String::new();
    let mut start: usize = 0;
    let mut i: usize = 0;
    while i < len
        invariant
            0 <= start <= i <= len,
            len == s@.len(),
            out@ =~= lower_seq(s@.take(start as int)),
            forall|k: int| start <= k < i ==> !is_upper(#[trigger] s@[k]),
        decreases len - i,
    {
        let c = s.get_char(i);
        let u = c as u32;
        if 65 <= u && u <= 90 {
            let run = s.substring_char(start, i);
            out.append(run);
            proof {
                assert(out@ =~= lower_seq(s@.take(i as int)));
            }
            let low = lower_letter(c);
            out.append(low);
            proof {
                assert(out@ =~= lower_seq(s@.take(i as int + 1)));
            }
            start = i + 1;
        }
        i = i + 1;
    }
    let tail = s.substring_char(start, len);
    out.append(tail);
    proof {
        assert(out@ =~= lower_seq(s@));
    }
    out
}

/// Exact character-for-character equality of two strings.
pub fn str_eq(a: &str, b: &str) -> (r: bool)
    ensures
        r == (a@ == b@),
{
    let alen = a.unicode_len();
    let blen = b.unicode_len();
    if alen != blen {
        return false;
    }
    let mut i: usize = 0;
    while i < alen
        invariant
            0 <= i <= alen,
            alen == a@.len(),
            alen == b@.len(),
            forall|k: int| 0 <= k < i ==> a@[k] == b@[k],
        decreases alen - i,
    {
        if a.get_char(i) != b.get_char(i) {
            return false;
        }
        i = i + 1;
    }
    proof {
        assert(a@ =~= b@);
    }
    true
}

/// Whether `pat` occurs in `s` starting at position `from`.
pub fn seg_eq_at(s: &str, from: usize, pat: &str) -> (r: bool)
    ensures
        r == (from + pat@.len() <= s@.len() && s@.subrange(
            from as int,
            from + pat@.len(),
        ) == pat@),
{
    let slen = s.unicode_len();
    let plen = pat.unicode_len();
    if from > slen || plen > slen - from {
        return false;
    }
    let mut k: usize = 0;
    while k < plen
        invariant
            0 <= k <= plen,
            slen == s@.len(),
            plen == pat@.len(),
            from + plen <= slen,
            forall|t: int| 0 <= t < k ==> s@[from + t] == pat@[t],
        decreases plen - k,
    {
        if s.get_char(from + k) != pat.get_char(k) {
            proof {
                let sub = s@.subrange(from as int, from + pat@.len());
                assert(sub[k as int] != pat@[k as int]);
            }
            return false;
        }
        k = k + 1;
    }
    proof {
        assert(s@.subrange(from as int, from + pat@.len()) =~= pat@);
    }
    true
}

/// `s` opens with `p`.
pub open spec fn starts_with(s: Seq<char>, p: Seq<char>) -> bool {
    p.len() <= s.len() && s.take(p.len() as int) == p
}

/// `pat` occurs somewhere in `s`.
pub open spec fn contains_sub(s: Seq<char>, pat: Seq<char>) -> bool {
    exists|i: int|
        0 <= i && i + pat.len() <= s.len() && #[trigger] s.subrange(i, i + pat.len()) == pat
}

/// Substring search, proved equivalent to `contains_sub`.
pub fn contains_str(s: &str, pat: &str) -> (r: bool)
    ensures
        r == contains_sub(s@, pat@),
{
    let slen = s.unicode_len();
    let plen = pat.unicode_len();
    if plen > slen {
        return false;
    }
    if plen == 0 {
        proof {
            assert(s@.subrange(0, 0 + pat@.len() as int) =~= pat@);
        }
        return true;
    }
    let mut i: usize = 0;
    while i <= slen - plen
        invariant
            0 <= i,
            i <= slen - plen + 1,
            0 < plen <= slen,
            slen == s@.len(),
            plen == pat@.len(),
            forall|j: int|
                0 <= j < i ==> #[trigger] s@.subrange(j, j + pat@.len()) != pat@,
        decreases slen - i,
    {
        if seg_eq_at(s, i, pat) {
            return true;
        }
        i = i + 1;
    }
    false
}

/// Outcome of a three-way comparison.
#[derive(Clone, Copy, PartialEq, Eq, Structural, Debug)]
pub enum Cmp {
    Lt,
    Eq,
    Gt,
}

/// Strict lexicographic order on character sequences, by code point.
pub open spec fn lex_lt(a: Seq<char>, b: Seq<char>) -> bool
    decreases a.len(),
{
    b.len() > 0 && (a.len() == 0 || (a[0] as int) < (b[0] as int) || (a[0] == b[0] && lex_lt(
        a.skip(1),
        b.skip(1),
    )))
}

fn str_cmp_from(a: &str, b: &str, i: usize) -> (r: Cmp)
    requires
        i <= a@.len(),
        i <= b@.len(),
    ensures
        (r == Cmp::Lt) == lex_lt(a@.skip(i as int), b@.skip(i as int)),
        (r == Cmp::Eq) == (a@.skip(i as int) == b@.skip(i as int)),
        (r == Cmp::Gt) == lex_lt(b@.skip(i as int), a@.skip(i as int)),
    decreases a@.len() - i,
{
    let alen = a.unicode_len();
    let blen = b.unicode_len();
    let ghost ar = a@.skip(i as int);
    let ghost br = b@.skip(i as int);
    if i == alen {
        if i == blen {
            proof {
                assert(ar =~= br);
            }
            Cmp::Eq
        } else {
            proof {
                assert(ar.len() == 0 && br.len() > 0);
                assert(!lex_lt(br, ar));
                assert(ar != br);
            }
            Cmp::Lt
        }
    } else if i == blen {
        proof {
            assert(br.len() == 0 && ar.len() > 0);
            assert(!lex_lt(ar, br));
            assert(ar != br);
        }
        Cmp::Gt
    } else {
        let ca = a.get_char(i);
        let cb = b.get_char(i);
        proof {
            assert(ar[0] == a@[i as int] && br[0] == b@[i as int]);
        }
        if (ca as u32) < (cb as u32) {
            proof {
                assert((ar[0] as int) < (br[0] as int));
                assert(lex_lt(ar, br));
                assert(ar != br);
                assert(!lex_lt(br, ar));
            }
            Cmp::Lt
        } else if (cb as u32) < (ca as u32) {
            proof {
                assert((br[0] as int) < (ar[0] as int));
                assert(lex_lt(br, ar));
                assert(ar != br);
                assert(!lex_lt(ar, br));
            }
            Cmp::Gt
        } else {
            proof {
                assert(ca as int == cb as int);
                assert(ca == cb);
            }
            let r = str_cmp_from(a, b, i + 1);
            proof {
                assert(ar.skip(1) =~= a@.skip(i as int + 1));
                assert(br.skip(1) =~= b@.skip(i as int + 1));
                if r == Cmp::Eq {
                    assert(ar.skip(1) == br.skip(1));
                    assert(ar.len() == br.len());
                    assert forall|k: int| 0 <= k < ar.len() implies ar[k] == br[k] by {
                        if k > 0 {
                            assert(ar[k] == ar.skip(1)[k - 1]);
                            assert(br[k] == br.skip(1)[k - 1]);
                        }
                    }
                    assert(ar =~= br);
                }
                if ar == br {
                    assert(ar.skip(1) == br.skip(1));
                }
            }
            r
        }
    }
}

/// Three-way lexicographic comparison of two strings.
pub fn str_cmp(a: &str, b: &str) -> (r: Cmp)
    ensures
        (r == Cmp::Lt) == lex_lt(a@, b@),
        (r == Cmp::Eq) == (a@ == b@),
        (r == Cmp::Gt) == lex_lt(b@, a@),
{
    let r = str_cmp_from(a, b, 0);
    proof {
        assert(a@.skip(0) =~= a@);
        assert(b@.skip(0) =~= b@);
    }
    r
}

/// Lexicographic order is total: of two sequences, one is smaller,
/// or they are equal.
pub proof fn lemma_lex_total(a: Seq<char>, b: Seq<char>)
    ensures
        lex_lt(a, b) || a == b || lex_lt(b, a),
    decreases a.len(),
{
    if b.len() == 0 {
        if a.len() == 0 {
            assert(a =~= b);
        }
    } else if a.len() == 0 {
    } else if (a[0] as int) < (b[0] as int) || (b[0] as int) < (a[0] as int) {
    } else {
        assert(a[0] == b[0]);
        lemma_lex_total(a.skip(1), b.skip(1));
        if a.skip(1) == b.skip(1) {
            assert(a.skip(1).len() == a.len() - 1);
            assert(b.skip(1).len() == b.len() - 1);
            assert(a.len() == b.len());
            assert forall|k: int| 0 <= k < a.len() implies a[k] == b[k] by {
                if k > 0 {
                    assert(a[k] == a.skip(1)[k - 1]);
                    assert(b[k] == b.skip(1)[k - 1]);
                }
            }
            assert(a =~= b);
        }
    }
}

/// Lexicographic order is irreflexive and asymmetric.
pub proof fn lemma_lex_asym(a: Seq<char>, b: Seq<char>)
    ensures
        lex_lt(a, b) ==> !lex_lt(b, a),
        lex_lt(a, b) ==> a != b,
    decreases a.len(),
{
    if a.len() > 0 && b.len() > 0 && a[0] == b[0] {
        lemma_lex_asym(a.skip(1), b.skip(1));
        if lex_lt(a, b) && lex_lt(b, a) {
        }
        if lex_lt(a, b) && a == b {
            assert(a.skip(1) =~= b.skip(1));
        }
    } else if lex_lt(a, b) {
        if a == b {
            assert(a.len() == b.len());
        }
    }
}

/// Lexicographic order is transitive.
pub proof fn lemma_lex_trans(a: Seq<char>, b: Seq<char>, c: Seq<char>)
    requires
        lex_lt(a, b),
        lex_lt(b, c),
    ensures
        lex_lt(a, c),
    decreases a.len(),
{
    if a.len() == 0 {
    } else {
        assert(b.len() > 0 && c.len() > 0);
        if (a[0] as int) < (b[0] as int) {
            if (b[0] as int) < (c[0] as int) {
            } else {
                assert(b[0] == c[0]);
            }
        } else {
            assert(a[0] == b[0]);
            if (b[0] as int) < (c[0] as int) {
            } else {
                assert(b[0] == c[0]);
                lemma_lex_trans(a.skip(1), b.skip(1), c.skip(1));
            }
        }
    }
}

} // verus!
