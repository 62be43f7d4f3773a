//! Plain text utilities: whitespace tokenization of command templates,
//! character-wise string comparison, and the path conventions used for
//! configuration files (the file name is the part after the last `/`, the
//! stem is the file name up to its last dot, the parent directory is the
//! part before the last `/`).

use vstd::prelude::*;

verus! {

pub open spec fn is_space_char(c: char) -> bool {
    c == ' ' || c == '\t' || c == '\n' || c == '\r'
}

/// The whitespace-separated tokens of `s`, accumulated character by
/// character: a space closes the current token, a non-space either extends
/// the token in progress or opens a new one.
pub open spec fn tokens_spec(s: Seq<char>) -> Seq<Seq<char>>
    decreases s.len(),
{
    if s.len() == 0 {
        seq![]
    } else {
        let prev = tokens_spec(s.drop_last());
        let c = s.last();
        if is_space_char(c) {
            prev
        } else if s.len() >= 2 && !is_space_char(s[s.len() - 2]) {
            prev.update(prev.len() - 1, prev.last().push(c))
        } else {
            prev.push(seq![c])
        }
    }
}

pub(crate) fn char_is_space(c: char) -> (r: bool)
    ensures
        r == is_space_char(c),
{
    c == ' ' || c == '\t' || c == '\n' || c == '\r'
}

/// Splits a string into its whitespace-separated tokens.
pub fn tokenize(s: &str) -> (r: Vec<String>)
    ensures
        r.deep_view() == tokens_spec(s@),
{
    let n = s.unicode_len();
    let mut toks: Vec<String> = Vec::new();
    let mut i: usize = 0;
    while i < n
        invariant
            n == s@.len(),
            i <= n,
            toks.deep_view() == tokens_spec(s@.subrange(0, i as int)),
            i > 0 && !is_space_char(s@[i - 1]) && i < n ==> is_space_char(s@[i as int]),
        decreases n - i,
    {
        let ghost prefix = s@.subrange(0, i as int);
        if char_is_space(s.get_char(i)) {
            proof {
                let ext = s@.subrange(0, i + 1);
                assert(ext.drop_last() =~= prefix);
            }
            i = i + 1;
        } else {
            let start = i;
            proof {
                let ext = s@.subrange(0, i + 1);
                assert(ext.drop_last() =~= prefix);
                assert(ext.last() == s@[i as int]);
                if i > 0 {
                    assert(ext[ext.len() - 2] == s@[i - 1]);
                }
                assert(s@.subrange(start as int, i + 1) =~= seq![s@[i as int]]);
            }
            i = i + 1;
            while i < n && !char_is_space(s.get_char(i))
                invariant
                    n == s@.len(),
                    start < i <= n,
                    toks.deep_view() == tokens_spec(s@.subrange(0, start as int)),
                    tokens_spec(s@.subrange(0, i as int)) == toks.deep_view().push(
                        s@.subrange(start as int, i as int),
                    ),
                    forall|t: int| start <= t < i ==> !is_space_char(#[trigger] s@[t]),
                decreases n - i,
            {
                proof {
                    let ext = s@.subrange(0, i + 1);
                    assert(ext.drop_last() =~= s@.subrange(0, i as int));
                    assert(ext.last() == s@[i as int]);
                    assert(ext[ext.len() - 2] == s@[i - 1]);
                    let prev = tokens_spec(s@.subrange(0, i as int));
                    assert(prev.last() == s@.subrange(start as int, i as int));
                    assert(s@.subrange(start as int, i as int).push(s@[i as int]) =~= s@.subrange(
                        start as int,
                        i + 1,
                    ));
                    assert(prev.update(prev.len() - 1, prev.last().push(s@[i as int]))
                        =~= toks.deep_view().push(s@.subrange(start as int, i + 1)));
                }
                i = i + 1;
            }
            let tok = s.substring_char(start, i).to_owned();
            toks.push(tok);
            proof {
                assert(toks.deep_view() =~= tokens_spec(s@.subrange(0, i as int)));
            }
        }
    }
    proof {
        assert(s@.subrange(0, n as int) =~= s@);
    }
    toks
}

/// Compares two character ranges of two strings.
pub(crate) fn str_range_eq(a: &str, al: usize, ah: usize, b: &str, bl: usize, bh: usize) -> (r:
    bool)
    requires
        al <= ah <= a@.len(),
        bl <= bh <= b@.len(),
    ensures
        r == (a@.subrange(al as int, ah as int) == b@.subrange(bl as int, bh as int)),
{
    let ghost sa = a@.subrange(al as int, ah as int);
    let ghost sb = b@.subrange(bl as int, bh as int);
    if ah - al != bh - bl {
        proof {
            assert(sa.len() != sb.len());
        }
        return false;
    }
    let len = ah - al;
    let mut t: usize = 0;
    while t < len
        invariant
            al <= ah <= a@.len(),
            bl <= bh <= b@.len(),
            len == ah - al == bh - bl,
            t <= len,
            sa == a@.subrange(al as int, ah as int),
            sb == b@.subrange(bl as int, bh as int),
            forall|u: int| 0 <= u < t ==> sa[u] == sb[u],
        decreases len - t,
    {
        let ca = a.get_char(al + t);
        let cb = b.get_char(bl + t);
        proof {
            assert(sa[t as int] == a@[al + t]);
            assert(sb[t as int] == b@[bl + t]);
        }
        if ca != cb {
            return false;
        }
        t = t + 1;
    }
    proof {
        assert(sa =~= sb);
    }
    true
}

/// Compares two strings character by character.
pub fn str_eq(a: &str, b: &str) -> (r: bool)
    ensures
        r == (a@ == b@),
{
    let na = a.unicode_len();
    let nb = b.unicode_len();
    let r = str_range_eq(a, 0, na, b, 0, nb);
    proof {
        assert(a@.subrange(0, na as int) =~= a@);
        assert(b@.subrange(0, nb as int) =~= b@);
    }
    r
}

/// Where the file name begins: the position after the last `/`, or 0.
pub open spec fn file_name_start(s: Seq<char>) -> int
    decreases s.len(),
{
    if s.len() == 0 {
        0
    } else if s.last() == '/' {
        s.len() as int
    } else {
        file_name_start(s.drop_last())
    }
}

/// The directory part of a path: everything before the last `/`, or empty.
pub open spec fn parent_dir_spec(s: Seq<char>) -> Seq<char> {
    if file_name_start(s) == 0 {
        Seq::empty()
    } else {
        s.subrange(0, file_name_start(s) - 1)
    }
}

/// The position of the last `.` strictly after `lo`, or -1 when none exists.
pub open spec fn last_dot_after(s: Seq<char>, lo: int) -> int
    decreases s.len(),
{
    if s.len() == 0 || s.len() <= lo + 1 {
        -1
    } else if s.last() == '.' {
        s.len() - 1
    } else {
        last_dot_after(s.drop_last(), lo)
    }
}

/// The stem of a path: its file name without the extension.  A dot that
/// begins the file name marks no extension.
pub open spec fn stem_spec(path: Seq<char>) -> Seq<char> {
    let fstart = file_name_start(path);
    let d = last_dot_after(path, fstart);
    if d == -1 {
        path.subrange(fstart, path.len() as int)
    } else {
        path.subrange(fstart, d)
    }
}

proof fn lemma_file_name_start_unique(s: Seq<char>, k: int)
    requires
        0 <= k <= s.len(),
        forall|t: int| k <= t < s.len() ==> (#[trigger] s[t]) != '/',
        k > 0 ==> s[k - 1] == '/',
    ensures
        file_name_start(s) == k,
    decreases s.len(),
{
    if s.len() == 0 {
    } else if s.last() == '/' {
        assert(k == s.len());
    } else {
        assert(k < s.len());
        lemma_file_name_start_unique(s.drop_last(), k);
    }
}

proof fn lemma_last_dot_after_none(s: Seq<char>, lo: int)
    requires
        0 <= lo,
        forall|t: int| lo < t < s.len() ==> (#[trigger] s[t]) != '.',
    ensures
        last_dot_after(s, lo) == -1,
    decreases s.len(),
{
    if s.len() > lo + 1 {
        assert(s.last() == s[s.len() - 1]);
        assert forall|t: int| lo < t < s.len() - 1 implies (#[trigger] s.drop_last()[t])
            != '.' by {
            assert(s.drop_last()[t] == s[t]);
        }
        lemma_last_dot_after_none(s.drop_last(), lo);
    }
}

proof fn lemma_last_dot_after_unique(s: Seq<char>, lo: int, d: int)
    requires
        0 <= lo < d < s.len(),
        s[d] == '.',
        forall|t: int| d < t < s.len() ==> (#[trigger] s[t]) != '.',
    ensures
        last_dot_after(s, lo) == d,
    decreases s.len(),
{
    if d == s.len() - 1 {
        assert(s.last() == s[d]);
    } else {
        assert(s.last() == s[s.len() - 1]);
        assert(s.drop_last()[d] == s[d]);
        assert forall|t: int| d < t < s.len() - 1 implies (#[trigger] s.drop_last()[t])
            != '.' by {
            assert(s.drop_last()[t] == s[t]);
        }
        lemma_last_dot_after_unique(s.drop_last(), lo, d);
    }
}

/// Finds where the file name begins in `path`.
fn find_file_name_start(path: &str, n: usize) -> (r: usize)
    requires
        n == path@.len(),
    ensures
        r == file_name_start(path@),
        r <= n,
{
    let mut i: usize = n;
    while i > 0 && path.get_char(i - 1) != '/'
        invariant
            n == path@.len(),
            i <= n,
            forall|t: int| i <= t < n ==> (#[trigger] path@[t]) != '/',
        decreases i,
    {
        i = i - 1;
    }
    proof {
        lemma_file_name_start_unique(path@, i as int);
    }
    i
}

/// The directory holding the file that `path` names.
pub(crate) fn parent_of_path(path: &str) -> (r: String)
    ensures
        r@ == parent_dir_spec(path@),
{
    let n = path.unicode_len();
    let fstart = find_file_name_start(path, n);
    if fstart == 0 {
        proof {
            assert(""@ =~= Seq::<char>::empty()) by {
                reveal_strlit("");
            }
        }
        String::new()
    } else {
        path.substring_char(0, fstart - 1).to_owned()
    }
}

/// The stem of the file that `path` names.
pub(crate) fn stem_of_path(path: &str) -> (r: String)
    ensures
        r@ == stem_spec(path@),
{
    let n = path.unicode_len();
    let fstart = find_file_name_start(path, n);
    let mut i: usize = n;
    while i > fstart && path.get_char(i - 1) != '.'
        invariant
            n == path@.len(),
            fstart <= i <= n,
            forall|t: int| i <= t < n ==> (#[trigger] path@[t]) != '.',
        decreases i,
    {
        i = i - 1;
    }
    if i > fstart && i - 1 > fstart {
        proof {
            lemma_last_dot_after_unique(path@, fstart as int, i - 1);
        }
        path.substring_char(fstart, i - 1).to_owned()
    } else {
        proof {
            lemma_last_dot_after_none(path@, fstart as int);
        }
        path.substring_char(fstart, n).to_owned()
    }
}

} // verus!
