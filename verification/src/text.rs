//! Text searching and splitting over character sequences, with executable
//! counterparts used by the request decoder and the response serializer.

use vstd::prelude::*;
use vstd::string::StrSliceExecFns;
use vstd::string::StringExecFns;

verus! {

/// The line terminator used by the wire format.
pub open spec fn crlf() -> Seq<char> {
    seq!['\r', '\n']
}

/// `pat` occurs in `s` at position `i`.
pub open spec fn match_at(s: Seq<char>, pat: Seq<char>, i: int) -> bool {
    0 <= i && i + pat.len() <= s.len() && s.subrange(i, i + pat.len() as int) == pat
}

/// Position of the first occurrence of `pat` in `s`, if any.
pub open spec fn find_pat(s: Seq<char>, pat: Seq<char>) -> Option<int>
    decreases s.len(),
{
    if pat.len() > s.len() {
        None
    } else if s.subrange(0, pat.len() as int) == pat {
        Some(0)
    } else if s.len() == 0 {
        None
    } else {
        match find_pat(s.skip(1), pat) {
            None => None,
            Some(i) => Some(i + 1),
        }
    }
}

/// `find_pat` returns exactly the least position at which `pat` occurs.
pub proof fn lemma_find_pat(s: Seq<char>, pat: Seq<char>)
    ensures
        match find_pat(s, pat) {
            Some(i) => match_at(s, pat, i) && forall|j: int| 0 <= j < i ==> !match_at(s, pat, j),
            None => forall|j: int| !match_at(s, pat, j),
        },
    decreases s.len(),
{
    if pat.len() > s.len() {
        assert(forall|j: int| !match_at(s, pat, j));
    } else if s.subrange(0, pat.len() as int) == pat {
        assert(match_at(s, pat, 0));
    } else if s.len() == 0 {
        assert(forall|j: int| !match_at(s, pat, j));
    } else {
        lemma_find_pat(s.skip(1), pat);
        assert forall|j: int| 0 <= j && j + pat.len() <= s.len() - 1 implies
            match_at(s, pat, j + 1) == match_at(s.skip(1), pat, j) by {
            assert(s.skip(1).subrange(j, j + pat.len() as int)
                =~= s.subrange(j + 1, j + 1 + pat.len() as int));
        }
        match find_pat(s.skip(1), pat) {
            None => {
                assert forall|j: int| !match_at(s, pat, j) by {
                    if 0 <= j && j + pat.len() <= s.len() {
                        if j == 0 {
                            assert(!match_at(s, pat, 0));
                        } else {
                            assert(!match_at(s.skip(1), pat, j - 1));
                        }
                    }
                }
            },
            Some(i) => {
                assert(match_at(s, pat, i + 1));
                assert forall|j: int| 0 <= j < i + 1 implies !match_at(s, pat, j) by {
                    if j != 0 {
                        assert(!match_at(s.skip(1), pat, j - 1));
                    }
                }
            },
        }
    }
}

/// A first match at `k` pins `find_pat` down to `Some(k)`.
pub proof fn lemma_find_pat_is(s: Seq<char>, pat: Seq<char>, k: int)
    requires
        match_at(s, pat, k),
        forall|j: int| 0 <= j < k ==> !match_at(s, pat, j),
    ensures
        find_pat(s, pat) == Some(k),
{
    lemma_find_pat(s, pat);
}

/// Splits `s` at the first occurrence of `pat`: the part before, and the
/// part after the separator.
pub open spec fn split_once(s: Seq<char>, pat: Seq<char>) -> Option<(Seq<char>, Seq<char>)> {
    match find_pat(s, pat) {
        None => None,
        Some(i) => Some((s.subrange(0, i), s.subrange(i + pat.len() as int, s.len() as int))),
    }
}

/// `p` is a prefix of `s`.
pub open spec fn starts_with(s: Seq<char>, p: Seq<char>) -> bool {
    p.len() <= s.len() && s.subrange(0, p.len() as int) == p
}

/// Splitting `a + tail` on `pat` cuts exactly at the boundary, when `a` is
/// free of `pat`'s first character and `tail` starts with `pat`.
pub proof fn lemma_split_at_boundary(a: Seq<char>, tail: Seq<char>, pat: Seq<char>)
    requires
        pat.len() >= 1,
        starts_with(tail, pat),
        forall|i: int| 0 <= i < a.len() ==> a[i] != pat[0],
    ensures
        find_pat(a + tail, pat) == Some(a.len() as int),
        split_once(a + tail, pat) == Some((a, tail.skip(pat.len() as int))),
{
    let s = a + tail;
    assert forall|q: int| 0 <= q < pat.len() implies s.subrange(
        a.len() as int,
        a.len() + pat.len() as int,
    )[q] == pat[q] by {
        assert(s[a.len() + q] == tail[q]);
        assert(tail.subrange(0, pat.len() as int)[q] == tail[q]);
    }
    assert(s.subrange(a.len() as int, a.len() + pat.len() as int) =~= pat);
    assert(match_at(s, pat, a.len() as int));
    assert forall|j: int| 0 <= j < a.len() implies !match_at(s, pat, j) by {
        if match_at(s, pat, j) {
            assert(s.subrange(j, j + pat.len() as int)[0] == s[j]);
            assert(s[j] == a[j]);
        }
    }
    lemma_find_pat_is(s, pat, a.len() as int);
    assert(s.subrange(0, a.len() as int) =~= a);
    assert(s.subrange(a.len() + pat.len() as int, s.len() as int) =~= tail.skip(pat.len() as int));
}

/// Tests whether `pat` occurs in `s` at position `i`.
fn match_at_exec(s: &str, pat: &str, i: usize) -> (r: bool)
    requires
        i + pat@.len() <= s@.len(),
    ensures
        r == match_at(s@, pat@, i as int),
{
    let n: usize = s.unicode_len();
    let m: usize = pat.unicode_len();
    let mut j: usize = 0;
    while j < m
        invariant
            n == s@.len(),
            m == pat@.len(),
            i + m <= n,
            j <= m,
            forall|k: int| 0 <= k < j ==> s@[i + k] == pat@[k],
        decreases m - j,
    {
        if s.get_char(i + j) != pat.get_char(j) {
            proof {
                assert(s@.subrange(i as int, i + m)[j as int] != pat@[j as int]);
            }
            return false;
        }
        j = j + 1;
    }
    proof {
        assert(s@.subrange(i as int, i + m) =~= pat@);
    }
    true
}

/// Finds the first occurrence of `pat` in `s`, as a character index.
pub fn find_pat_exec(s: &str, pat: &str) -> (r: Option<usize>)
    requires
        pat@.len() >= 1,
    ensures
        match r {
            Some(i) => find_pat(s@, pat@) == Some(i as int),
            None => find_pat(s@, pat@) is None,
        },
{
    proof {
        lemma_find_pat(s@, pat@);
    }
    let n: usize = s.unicode_len();
    let m: usize = pat.unicode_len();
    if m > n {
        return None;
    }
    let mut i: usize = 0;
    while i <= n - m
        invariant
            m >= 1,
            m <= n,
            n == s@.len(),
            m == pat@.len(),
            i <= n - m + 1,
            forall|j: int| 0 <= j < i ==> !match_at(s@, pat@, j),
        decreases n - m + 1 - i,
    {
        if match_at_exec(s, pat, i) {
            proof {
                lemma_find_pat(s@, pat@);
            }
            return Some(i);
        }
        i = i + 1;
    }
    proof {
        assert(forall|j: int| !match_at(s@, pat@, j));
    }
    None
}

/// Splits `s` at the first occurrence of `pat`, if any.
pub fn split_once_exec<'a>(s: &'a str, pat: &str) -> (r: Option<(&'a str, &'a str)>)
    requires
        pat@.len() >= 1,
    ensures
        match r {
            Some(p) => split_once(s@, pat@) == Some((p.0@, p.1@)),
            None => split_once(s@, pat@) is None,
        },
{
    match find_pat_exec(s, pat) {
        None => None,
        Some(i) => {
            proof {
                lemma_find_pat(s@, pat@);
            }
            let n: usize = s.unicode_len();
            let m: usize = pat.unicode_len();
            let head = s.substring_char(0, i);
            let tail = s.substring_char(i + m, n);
            Some((head, tail))
        },
    }
}

/// The character for a single decimal digit.
pub open spec fn dec_digit(d: int) -> char {
    if d == 0 { '0' }
    else if d == 1 { '1' }
    else if d == 2 { '2' }
    else if d == 3 { '3' }
    else if d == 4 { '4' }
    else if d == 5 { '5' }
    else if d == 6 { '6' }
    else if d == 7 { '7' }
    else if d == 8 { '8' }
    else { '9' }
}

/// The decimal rendering of `n`, with no leading zeros (a lone zero for 0).
pub open spec fn dec_str(n: nat) -> Seq<char>
    decreases n,
{
    if n < 10 {
        seq![dec_digit(n as int)]
    } else {
        dec_str(n / 10) + seq![dec_digit((n % 10) as int)]
    }
}

/// Appends one decimal digit to `out`.
fn push_digit(out: &mut String, d: usize)
    requires
        d < 10,
    ensures
        final(out)@ == old(out)@ + seq![dec_digit(d as int)],
{
    proof {
        reveal_strlit("0");
        reveal_strlit("1");
        reveal_strlit("2");
        reveal_strlit("3");
        reveal_strlit("4");
        reveal_strlit("5");
        reveal_strlit("6");
        reveal_strlit("7");
        reveal_strlit("8");
        reveal_strlit("9");
    }
    if d == 0 {
        out.append("0");
        proof { assert(final(out)@ =~= old(out)@ + seq![dec_digit(d as int)]); }
    } else if d == 1 {
        out.append("1");
        proof { assert(final(out)@ =~= old(out)@ + seq![dec_digit(d as int)]); }
    } else if d == 2 {
        out.append("2");
        proof { assert(final(out)@ =~= old(out)@ + seq![dec_digit(d as int)]); }
    } else if d == 3 {
        out.append("3");
        proof { assert(final(out)@ =~= old(out)@ + seq![dec_digit(d as int)]); }
    } else if d == 4 {
        out.append("4");
        proof { assert(final(out)@ =~= old(out)@ + seq![dec_digit(d as int)]); }
    } else if d == 5 {
        out.append("5");
        proof { assert(final(out)@ =~= old(out)@ + seq![dec_digit(d as int)]); }
    } else if d == 6 {
        out.append("6");
        proof { assert(final(out)@ =~= old(out)@ + seq![dec_digit(d as int)]); }
    } else if d == 7 {
        out.append("7");
        proof { assert(final(out)@ =~= old(out)@ + seq![dec_digit(d as int)]); }
    } else if d == 8 {
        out.append("8");
        proof { assert(final(out)@ =~= old(out)@ + seq![dec_digit(d as int)]); }
    } else {
        out.append("9");
        proof { assert(final(out)@ =~= old(out)@ + seq![dec_digit(d as int)]); }
    }
}

/// Appends the decimal rendering of `n` to `out`.
fn push_dec(out: &mut String, n: usize)
    ensures
        final(out)@ == old(out)@ + dec_str(n as nat),
    decreases n,
{
    if n >= 10 {
        push_dec(out, n / 10);
        push_digit(out, n % 10);
        proof {
            assert(final(out)@ =~= old(out)@ + dec_str(n as nat));
        }
    } else {
        push_digit(out, n);
    }
}

/// The decimal rendering of `n` as an owned string.
pub fn dec_string(n: usize) -> (r: String)
    ensures
        r@ == dec_str(n as nat),
{
    let mut out = String::new();
    push_dec(&mut out, n);
    proof {
        assert(out@ =~= dec_str(n as nat));
    }
    out
}

/// Tests two string slices for character-for-character equality.
pub fn str_eq(s: &str, p: &str) -> (r: bool)
    ensures
        r == (s@ == p@),
{
    let n: usize = s.unicode_len();
    let m: usize = p.unicode_len();
    if m != n {
        return false;
    }
    let mut j: usize = 0;
    while j < m
        invariant
            m == n,
            n == s@.len(),
            m == p@.len(),
            j <= m,
            forall|k: int| 0 <= k < j ==> s@[k] == p@[k],
        decreases m - j,
    {
        if s.get_char(j) != p.get_char(j) {
            return false;
        }
        j = j + 1;
    }
    proof {
        assert(s@ =~= p@);
    }
    true
}

/// Tests whether `p` is a prefix of `s`.
pub fn starts_with_exec(s: &str, p: &str) -> (r: bool)
    ensures
        r == starts_with(s@, p@),
{
    let n: usize = s.unicode_len();
    let m: usize = p.unicode_len();
    if m > n {
        return false;
    }
    let mut j: usize = 0;
    while j < m
        invariant
            m <= n,
            n == s@.len(),
            m == p@.len(),
            j <= m,
            forall|k: int| 0 <= k < j ==> s@[k] == p@[k],
        decreases m - j,
    {
        if s.get_char(j) != p.get_char(j) {
            proof {
                assert(s@.subrange(0, m as int)[j as int] != p@[j as int]);
            }
            return false;
        }
        j = j + 1;
    }
    proof {
        assert(s@.subrange(0, m as int) =~= p@);
    }
    true
}

} // verus!
