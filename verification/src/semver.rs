//! The grammar of semantic version strings (SemVer 2.0.0):
//! `MAJOR.MINOR.PATCH` with an optional `-prerelease` part and an optional
//! `+build` part, where the three core components are nonempty digit runs and
//! the prerelease and build parts are dot-separated nonempty runs of
//! alphanumeric-or-hyphen characters.

use vstd::prelude::*;

use crate::text::str_range_eq;

verus! {

pub open spec fn is_digit_char(c: char) -> bool {
    '0' <= c && c <= '9'
}

/// The characters allowed inside prerelease and build labels.
pub open spec fn is_ident_char(c: char) -> bool {
    ||| is_digit_char(c)
    ||| 'A' <= c && c <= 'Z'
    ||| 'a' <= c && c <= 'z'
    ||| c == '-'
}

/// A nonempty run of decimal digits.
pub open spec fn is_digit_run(s: Seq<char>) -> bool {
    s.len() > 0 && (forall|i: int| 0 <= i < s.len() ==> is_digit_char(#[trigger] s[i]))
}

/// One or more nonempty identifier labels separated by single dots.
pub open spec fn is_label_run(s: Seq<char>) -> bool {
    &&& s.len() > 0
    &&& s[0] != '.'
    &&& s[s.len() - 1] != '.'
    &&& forall|i: int| 0 <= i < s.len() ==> is_ident_char(#[trigger] s[i]) || s[i] == '.'
    &&& forall|i: int| 0 <= i < s.len() - 1 ==> ((#[trigger] s[i]) == '.' ==> s[i + 1] != '.')
}

/// `MAJOR.MINOR.PATCH` where `i` and `j` are the positions of the two dots.
pub open spec fn is_core_split(s: Seq<char>, i: int, j: int) -> bool {
    &&& 0 < i < j < s.len()
    &&& s[i] == '.'
    &&& s[j] == '.'
    &&& is_digit_run(s.subrange(0, i))
    &&& is_digit_run(s.subrange(i + 1, j))
    &&& is_digit_run(s.subrange(j + 1, s.len() as int))
}

pub open spec fn is_core(s: Seq<char>) -> bool {
    exists|i: int, j: int| is_core_split(s, i, j)
}

/// The whole grammar: the core ends at `p`, the prerelease part (if any)
/// occupies `p..b` starting with `-`, and the build part (if any) occupies
/// `b..` starting with `+`.
pub open spec fn is_semver_split(s: Seq<char>, p: int, b: int) -> bool {
    &&& 0 <= p <= b <= s.len()
    &&& is_core(s.subrange(0, p))
    &&& (p == b || (s[p] == '-' && is_label_run(s.subrange(p + 1, b))))
    &&& (b == s.len() || (s[b] == '+' && is_label_run(s.subrange(b + 1, s.len() as int))))
}

/// Whether `s` matches the SemVer 2.0.0 grammar.
pub open spec fn is_semver(s: Seq<char>) -> bool {
    exists|p: int, b: int| is_semver_split(s, p, b)
}

/// The first position at or after `from` holding a non-digit, or the length.
pub open spec fn digit_run_end(s: Seq<char>, from: int) -> int
    decreases s.len() - from,
{
    if 0 <= from < s.len() {
        if is_digit_char(s[from]) {
            digit_run_end(s, from + 1)
        } else {
            from
        }
    } else {
        from
    }
}

/// The first position at or after `from` holding `'+'`, or the length.
pub open spec fn plus_scan_end(s: Seq<char>, from: int) -> int
    decreases s.len() - from,
{
    if 0 <= from < s.len() {
        if s[from] == '+' {
            from
        } else {
            plus_scan_end(s, from + 1)
        }
    } else {
        from
    }
}

proof fn lemma_digit_run_end_props(s: Seq<char>, from: int)
    requires
        0 <= from <= s.len(),
    ensures
        from <= digit_run_end(s, from) <= s.len(),
        forall|t: int| from <= t < digit_run_end(s, from) ==> is_digit_char(#[trigger] s[t]),
        digit_run_end(s, from) < s.len() ==> !is_digit_char(s[digit_run_end(s, from)]),
    decreases s.len() - from,
{
    if from < s.len() && is_digit_char(s[from]) {
        lemma_digit_run_end_props(s, from + 1);
    }
}

proof fn lemma_digit_run_end_unique(s: Seq<char>, from: int, e: int)
    requires
        0 <= from <= e <= s.len(),
        forall|t: int| from <= t < e ==> is_digit_char(#[trigger] s[t]),
        e < s.len() ==> !is_digit_char(s[e]),
    ensures
        digit_run_end(s, from) == e,
    decreases s.len() - from,
{
    if from < e {
        lemma_digit_run_end_unique(s, from + 1, e);
    }
}

proof fn lemma_plus_scan_end_props(s: Seq<char>, from: int)
    requires
        0 <= from <= s.len(),
    ensures
        from <= plus_scan_end(s, from) <= s.len(),
        forall|t: int| from <= t < plus_scan_end(s, from) ==> (#[trigger] s[t]) != '+',
        plus_scan_end(s, from) < s.len() ==> s[plus_scan_end(s, from)] == '+',
    decreases s.len() - from,
{
    if from < s.len() && s[from] != '+' {
        lemma_plus_scan_end_props(s, from + 1);
    }
}

proof fn lemma_plus_scan_end_unique(s: Seq<char>, from: int, e: int)
    requires
        0 <= from <= e <= s.len(),
        forall|t: int| from <= t < e ==> (#[trigger] s[t]) != '+',
        e < s.len() ==> s[e] == '+',
    ensures
        plus_scan_end(s, from) == e,
    decreases s.len() - from,
{
    if from < e {
        lemma_plus_scan_end_unique(s, from + 1, e);
    }
}

/// Any valid split of a semver string is pinned down by the three leading
/// digit runs: the core ends exactly where the third run ends, and the build
/// part starts exactly at the first `'+'` after the prerelease marker.
proof fn lemma_semver_split_shape(s: Seq<char>, p: int, b: int)
    requires
        is_semver_split(s, p, b),
    ensures
        ({
            let i = digit_run_end(s, 0);
            let j = digit_run_end(s, i + 1);
            let k = digit_run_end(s, j + 1);
            &&& 0 < i < s.len() && s[i] == '.'
            &&& i + 1 < j < s.len() && s[j] == '.'
            &&& j + 1 < k <= s.len()
            &&& p == k
            &&& (k == s.len() ==> b == s.len())
            &&& (k < s.len() ==> s[k] == '-' || s[k] == '+')
            &&& (k < s.len() && s[k] == '-' ==> p < b && b == plus_scan_end(s, k + 1)
                && is_label_run(s.subrange(k + 1, b)))
            &&& (k < s.len() && s[k] == '+' ==> p == b)
            &&& (b < s.len() ==> s[b] == '+' && is_label_run(s.subrange(b + 1, s.len() as int)))
        }),
{
    let c = s.subrange(0, p);
    let (ci, cj) = choose|ci: int, cj: int| is_core_split(c, ci, cj);
    assert(is_core_split(c, ci, cj));
    assert(c.len() == p);

    // The three digit runs of the core, transported from `c` to `s`.
    assert forall|t: int| 0 <= t < ci implies is_digit_char(#[trigger] s[t]) by {
        assert(c.subrange(0, ci)[t] == c[t]);
        assert(c[t] == s[t]);
    }
    assert(s[ci] == '.');
    lemma_digit_run_end_unique(s, 0, ci);

    assert forall|t: int| ci + 1 <= t < cj implies is_digit_char(#[trigger] s[t]) by {
        assert(c.subrange(ci + 1, cj)[t - (ci + 1)] == c[t]);
        assert(c[t] == s[t]);
    }
    assert(s[cj] == '.');
    lemma_digit_run_end_unique(s, ci + 1, cj);

    assert forall|t: int| cj + 1 <= t < p implies is_digit_char(#[trigger] s[t]) by {
        assert(c.subrange(cj + 1, p)[t - (cj + 1)] == c[t]);
        assert(c[t] == s[t]);
    }
    // Whatever follows the core is not a digit.
    if p < s.len() {
        if p < b {
            assert(s[p] == '-');
        } else {
            // p == b < s.len(), so the build part starts right here.
            assert(s[p] == '+');
        }
        assert(!is_digit_char(s[p]));
    }
    lemma_digit_run_end_unique(s, cj + 1, p);

    let k = p;
    if k < s.len() && s[k] == '-' {
        if p == b {
            // Then b < s.len() and s[b] == '+', contradicting s[p] == '-'.
            assert(s[b] == '+');
            assert(false);
        }
        let labels = s.subrange(p + 1, b);
        assert forall|t: int| p + 1 <= t < b implies (#[trigger] s[t]) != '+' by {
            assert(labels[t - (p + 1)] == s[t]);
            assert(is_ident_char(s[t]) || s[t] == '.');
        }
        lemma_plus_scan_end_unique(s, p + 1, b);
    }
    if k < s.len() && s[k] == '+' {
        if p < b {
            assert(s[p] == '-');
            assert(false);
        }
    }
}

/// Scans a run of digits: returns the position of the first non-digit
/// character at or after `from`, or the length of the string.
fn scan_digit_run(s: &str, from: usize, n: usize) -> (r: usize)
    requires
        n == s@.len(),
        from <= n,
    ensures
        from <= r <= n,
        r == digit_run_end(s@, from as int),
{
    let mut i: usize = from;
    loop
        invariant
            n == s@.len(),
            from <= i <= n,
            digit_run_end(s@, from as int) == digit_run_end(s@, i as int),
        decreases n - i,
    {
        if i == n {
            return i;
        }
        let c = s.get_char(i);
        if !('0' <= c && c <= '9') {
            return i;
        }
        i = i + 1;
    }
}

/// Returns the position of the first `'+'` at or after `from`, or the length.
fn scan_to_plus(s: &str, from: usize, n: usize) -> (r: usize)
    requires
        n == s@.len(),
        from <= n,
    ensures
        from <= r <= n,
        r == plus_scan_end(s@, from as int),
{
    let mut i: usize = from;
    loop
        invariant
            n == s@.len(),
            from <= i <= n,
            plus_scan_end(s@, from as int) == plus_scan_end(s@, i as int),
        decreases n - i,
    {
        if i == n {
            return i;
        }
        let c = s.get_char(i);
        if c == '+' {
            return i;
        }
        i = i + 1;
    }
}

/// Checks that `s[lo..hi]` is a run of dot-separated nonempty labels.
fn check_label_run(s: &str, lo: usize, hi: usize, n: usize) -> (r: bool)
    requires
        n == s@.len(),
        lo <= hi <= n,
    ensures
        r == is_label_run(s@.subrange(lo as int, hi as int)),
{
    let ghost sub = s@.subrange(lo as int, hi as int);
    if lo == hi {
        return false;
    }
    if s.get_char(lo) == '.' {
        proof {
            assert(sub[0] == s@[lo as int]);
        }
        return false;
    }
    if s.get_char(hi - 1) == '.' {
        proof {
            assert(sub[sub.len() - 1] == s@[hi - 1]);
        }
        return false;
    }
    let mut i: usize = lo;
    while i < hi
        invariant
            n == s@.len(),
            lo <= i <= hi <= n,
            sub == s@.subrange(lo as int, hi as int),
            forall|t: int| lo <= t < i ==> is_ident_char(#[trigger] s@[t]) || s@[t] == '.',
            forall|t: int| lo <= t < i && t + 1 < hi ==> ((#[trigger] s@[t]) == '.' ==> s@[t + 1]
                != '.'),
            lo < hi,
            s@[lo as int] != '.',
            s@[hi - 1] != '.',
        decreases hi - i,
    {
        let c = s.get_char(i);
        let is_ident = ('0' <= c && c <= '9') || ('A' <= c && c <= 'Z') || ('a' <= c && c <= 'z')
            || c == '-';
        if !is_ident && c != '.' {
            proof {
                assert(sub[i - lo] == s@[i as int]);
            }
            return false;
        }
        if c == '.' && i + 1 < hi {
            if s.get_char(i + 1) == '.' {
                proof {
                    assert(sub[i - lo] == s@[i as int]);
                    assert(sub[i + 1 - lo] == s@[i + 1]);
                }
                return false;
            }
        }
        i = i + 1;
    }
    proof {
        assert forall|t: int| 0 <= t < sub.len() implies is_ident_char(#[trigger] sub[t])
            || sub[t] == '.' by {
            assert(sub[t] == s@[lo + t]);
        }
        assert forall|t: int| 0 <= t < sub.len() - 1 implies ((#[trigger] sub[t]) == '.' ==> sub[t
            + 1] != '.') by {
            assert(sub[t] == s@[lo + t]);
            assert(sub[t + 1] == s@[lo + t + 1]);
        }
        assert(sub[0] == s@[lo as int]);
        assert(sub[sub.len() - 1] == s@[hi - 1]);
    }
    true
}

/// The core of a semver string, established from the three scans.
proof fn lemma_core_from_scans(s: Seq<char>, i: int, j: int, k: int)
    requires
        i == digit_run_end(s, 0),
        0 < i < s.len(),
        s[i] == '.',
        j == digit_run_end(s, i + 1),
        i + 1 < j < s.len(),
        s[j] == '.',
        k == digit_run_end(s, j + 1),
        j + 1 < k <= s.len(),
    ensures
        is_core(s.subrange(0, k)),
{
    let c = s.subrange(0, k);
    lemma_digit_run_end_props(s, 0);
    lemma_digit_run_end_props(s, i + 1);
    lemma_digit_run_end_props(s, j + 1);
    assert(c[i] == s[i]);
    assert(c[j] == s[j]);
    assert forall|t: int| 0 <= t < i implies is_digit_char(#[trigger] c.subrange(0, i)[t]) by {
        assert(c.subrange(0, i)[t] == s[t]);
    }
    assert forall|t: int| 0 <= t < j - (i + 1) implies is_digit_char(#[trigger] c.subrange(
        i + 1,
        j,
    )[t]) by {
        assert(c.subrange(i + 1, j)[t] == s[i + 1 + t]);
    }
    assert forall|t: int| 0 <= t < k - (j + 1) implies is_digit_char(#[trigger] c.subrange(
        j + 1,
        c.len() as int,
    )[t]) by {
        assert(c.subrange(j + 1, c.len() as int)[t] == s[j + 1 + t]);
    }
    assert(is_core_split(c, i, j));
}

/// Decides whether a string matches the SemVer 2.0.0 grammar.
pub(crate) fn check_semver(s: &str) -> (r: bool)
    ensures
        r == is_semver(s@),
{
    let ghost sv = s@;
    let n = s.unicode_len();
    let i = scan_digit_run(s, 0, n);
    if i == 0 || i == n || s.get_char(i) != '.' {
        proof {
            if is_semver(sv) {
                let (p, b) = choose|p: int, b: int| is_semver_split(sv, p, b);
                lemma_semver_split_shape(sv, p, b);
            }
        }
        return false;
    }
    let j = scan_digit_run(s, i + 1, n);
    if j == i + 1 || j == n || s.get_char(j) != '.' {
        proof {
            if is_semver(sv) {
                let (p, b) = choose|p: int, b: int| is_semver_split(sv, p, b);
                lemma_semver_split_shape(sv, p, b);
            }
        }
        return false;
    }
    let k = scan_digit_run(s, j + 1, n);
    if k == j + 1 {
        proof {
            if is_semver(sv) {
                let (p, b) = choose|p: int, b: int| is_semver_split(sv, p, b);
                lemma_semver_split_shape(sv, p, b);
            }
        }
        return false;
    }
    if k == n {
        proof {
            lemma_core_from_scans(sv, i as int, j as int, k as int);
            assert(sv.subrange(0, n as int) =~= sv);
            assert(is_semver_split(sv, n as int, n as int));
        }
        return true;
    }
    let ck = s.get_char(k);
    if ck == '-' {
        let b = scan_to_plus(s, k + 1, n);
        if !check_label_run(s, k + 1, b, n) {
            proof {
                if is_semver(sv) {
                    let (p, bb) = choose|p: int, bb: int| is_semver_split(sv, p, bb);
                    lemma_semver_split_shape(sv, p, bb);
                }
            }
            return false;
        }
        if b == n {
            proof {
                lemma_core_from_scans(sv, i as int, j as int, k as int);
                assert(is_semver_split(sv, k as int, n as int));
            }
            return true;
        }
        let build_ok = check_label_run(s, b + 1, n, n);
        proof {
            if build_ok {
                lemma_core_from_scans(sv, i as int, j as int, k as int);
                lemma_plus_scan_end_props(sv, k + 1);
                assert(is_semver_split(sv, k as int, b as int));
            } else {
                if is_semver(sv) {
                    let (p, bb) = choose|p: int, bb: int| is_semver_split(sv, p, bb);
                    lemma_semver_split_shape(sv, p, bb);
                }
            }
        }
        return build_ok;
    }
    if ck == '+' {
        let build_ok = check_label_run(s, k + 1, n, n);
        proof {
            if build_ok {
                lemma_core_from_scans(sv, i as int, j as int, k as int);
                assert(is_semver_split(sv, k as int, k as int));
            } else {
                if is_semver(sv) {
                    let (p, bb) = choose|p: int, bb: int| is_semver_split(sv, p, bb);
                    lemma_semver_split_shape(sv, p, bb);
                }
            }
        }
        return build_ok;
    }
    proof {
        if is_semver(sv) {
            let (p, b) = choose|p: int, b: int| is_semver_split(sv, p, b);
            lemma_semver_split_shape(sv, p, b);
        }
    }
    false
}

/// End of the MAJOR digit group.
pub open spec fn major_end(s: Seq<char>) -> int {
    digit_run_end(s, 0)
}

/// End of the MINOR digit group.
pub open spec fn minor_end(s: Seq<char>) -> int {
    digit_run_end(s, major_end(s) + 1)
}

/// End of the PATCH digit group.
pub open spec fn patch_end(s: Seq<char>) -> int {
    digit_run_end(s, minor_end(s) + 1)
}

/// The MAJOR digit group of a semver string.
pub open spec fn major_part(s: Seq<char>) -> Seq<char>
    recommends
        is_semver(s),
{
    s.subrange(0, major_end(s))
}

/// The MINOR digit group of a semver string.
pub open spec fn minor_part(s: Seq<char>) -> Seq<char>
    recommends
        is_semver(s),
{
    s.subrange(major_end(s) + 1, minor_end(s))
}

/// The PATCH digit group of a semver string.
pub open spec fn patch_part(s: Seq<char>) -> Seq<char>
    recommends
        is_semver(s),
{
    s.subrange(minor_end(s) + 1, patch_end(s))
}

/// Whether two semver strings agree on their `MAJOR.MINOR.PATCH` digit
/// groups; prerelease and build metadata play no part.
pub open spec fn same_core_triple(a: Seq<char>, b: Seq<char>) -> bool
    recommends
        is_semver(a),
        is_semver(b),
{
    major_part(a) == major_part(b) && minor_part(a) == minor_part(b) && patch_part(a) == patch_part(
        b,
    )
}

/// Compares the `MAJOR.MINOR.PATCH` digit groups of two semver strings.
pub(crate) fn core_triple_matches(a: &str, b: &str) -> (r: bool)
    requires
        is_semver(a@),
        is_semver(b@),
    ensures
        r == same_core_triple(a@, b@),
{
    proof {
        let (pa, ba) = choose|p: int, b_: int| is_semver_split(a@, p, b_);
        lemma_semver_split_shape(a@, pa, ba);
        let (pb, bb) = choose|p: int, b_: int| is_semver_split(b@, p, b_);
        lemma_semver_split_shape(b@, pb, bb);
    }
    let na = a.unicode_len();
    let ia = scan_digit_run(a, 0, na);
    let ja = scan_digit_run(a, ia + 1, na);
    let ka = scan_digit_run(a, ja + 1, na);
    let nb = b.unicode_len();
    let ib = scan_digit_run(b, 0, nb);
    let jb = scan_digit_run(b, ib + 1, nb);
    let kb = scan_digit_run(b, jb + 1, nb);
    let major_eq = str_range_eq(a, 0, ia, b, 0, ib);
    let minor_eq = str_range_eq(a, ia + 1, ja, b, ib + 1, jb);
    let patch_eq = str_range_eq(a, ja + 1, ka, b, jb + 1, kb);
    major_eq && minor_eq && patch_eq
}

} // verus!
