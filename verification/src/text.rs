//! Basic text utilities shared by the scanner, resolver and classifier:
//! character classes, pattern occurrence, trimming, token splitting and
//! substring replacement, each with a spec-level counterpart.

use vstd::prelude::*;

verus! {

/// The characters that count as whitespace when a captured reference is
/// trimmed, mirroring Unicode's White_Space class.
pub open spec fn is_ws_char(c: char) -> bool {
    ||| c == '\u{0009}'
    ||| c == '\u{000A}'
    ||| c == '\u{000B}'
    ||| c == '\u{000C}'
    ||| c == '\u{000D}'
    ||| c == '\u{0020}'
    ||| c == '\u{0085}'
    ||| c == '\u{00A0}'
    ||| c == '\u{1680}'
    ||| c == '\u{2000}'
    ||| c == '\u{2001}'
    ||| c == '\u{2002}'
    ||| c == '\u{2003}'
    ||| c == '\u{2004}'
    ||| c == '\u{2005}'
    ||| c == '\u{2006}'
    ||| c == '\u{2007}'
    ||| c == '\u{2008}'
    ||| c == '\u{2009}'
    ||| c == '\u{200A}'
    ||| c == '\u{2028}'
    ||| c == '\u{2029}'
    ||| c == '\u{202F}'
    ||| c == '\u{205F}'
    ||| c == '\u{3000}'
}

/// Decide whether a character is whitespace.
pub fn is_ws(c: char) -> (b: bool)
    ensures
        b == is_ws_char(c),
{
    c == '\u{0009}' || c == '\u{000A}' || c == '\u{000B}' || c == '\u{000C}' || c == '\u{000D}'
        || c == '\u{0020}' || c == '\u{0085}' || c == '\u{00A0}' || c == '\u{1680}'
        || c == '\u{2000}' || c == '\u{2001}' || c == '\u{2002}' || c == '\u{2003}'
        || c == '\u{2004}' || c == '\u{2005}' || c == '\u{2006}' || c == '\u{2007}'
        || c == '\u{2008}' || c == '\u{2009}' || c == '\u{200A}' || c == '\u{2028}'
        || c == '\u{2029}' || c == '\u{202F}' || c == '\u{205F}' || c == '\u{3000}'
}

/// The pattern `pat` occurs in `s` starting exactly at index `i`.
pub open spec fn occurs_at(s: Seq<char>, pat: Seq<char>, i: int) -> bool {
    &&& 0 <= i
    &&& i + pat.len() <= s.len()
    &&& forall|k: int| 0 <= k < pat.len() ==> s[i + k] == pat[k]
}

/// One character of an occurrence: where `pat` occurs at `i`, the text
/// carries `pat`'s character at each offset `k`.
pub proof fn lemma_occurs_char(s: Seq<char>, pat: Seq<char>, i: int, k: int)
    requires
        occurs_at(s, pat, i),
        0 <= k < pat.len(),
    ensures
        s[i + k] == pat[k],
{
}

/// The pattern `pat` occurs somewhere in `s`.
pub open spec fn contains_seq(s: Seq<char>, pat: Seq<char>) -> bool {
    exists|i: int| occurs_at(s, pat, i)
}

/// `s` begins with the pattern `pat`.
pub open spec fn starts_with_seq(s: Seq<char>, pat: Seq<char>) -> bool {
    occurs_at(s, pat, 0)
}

/// Decide whether `pat` occurs in `s` starting at index `i`.
pub fn match_at(s: &str, pat: &str, i: usize) -> (b: bool)
    ensures
        b == occurs_at(s@, pat@, i as int),
{
    let n = s.unicode_len();
    let m = pat.unicode_len();
    if i > n || m > n - i {
        return false;
    }
    let mut k: usize = 0;
    while k < m
        invariant
            0 <= k <= m,
            i + m <= n,
            n == s@.len(),
            m == pat@.len(),
            forall|j: int| 0 <= j < k ==> s@[i + j] == pat@[j],
        decreases m - k,
    {
        if s.get_char(i + k) != pat.get_char(k) {
            return false;
        }
        k += 1;
    }
    true
}

/// Decide whether `pat` occurs anywhere in `s`.
pub fn contains_sub(s: &str, pat: &str) -> (b: bool)
    ensures
        b == contains_seq(s@, pat@),
{
    let n = s.unicode_len();
    let m = pat.unicode_len();
    if m > n {
        return false;
    }
    if m == 0 {
        assert(occurs_at(s@, pat@, 0));
        return true;
    }
    let mut i: usize = 0;
    while i <= n - m
        invariant
            0 <= i,
            0 < m <= n,
            n == s@.len(),
            m == pat@.len(),
            forall|j: int| 0 <= j < i ==> !occurs_at(s@, pat@, j),
        decreases n - i,
    {
        if match_at(s, pat, i) {
            return true;
        }
        i += 1;
    }
    assert(forall|j: int| occurs_at(s@, pat@, j) ==> 0 <= j <= n - m);
    false
}

/// Index of the first occurrence of `c` in `s` at or after `i`, if any.
pub open spec fn find_idx(s: Seq<char>, i: int, c: char) -> Option<int>
    decreases s.len() - i,
{
    if i < 0 || i >= s.len() {
        None
    } else if s[i] == c {
        Some(i)
    } else {
        find_idx(s, i + 1, c)
    }
}

/// What a found index means: it carries `c`, lies in range, and nothing
/// before it (from `i` on) does.
pub proof fn lemma_find_idx_found(s: Seq<char>, i: int, c: char)
    ensures
        match find_idx(s, i, c) {
            Some(j) => i <= j < s.len() && s[j] == c && forall|k: int| i <= k < j ==> s[k] != c,
            None => true,
        },
    decreases s.len() - i,
{
    if 0 <= i && i < s.len() && s[i] != c {
        lemma_find_idx_found(s, i + 1, c);
    }
}

/// Find the first occurrence of `c` in `s` at or after `from`.
pub fn find_char(s: &str, from: usize, c: char) -> (r: Option<usize>)
    ensures
        match r {
            Some(j) => from <= j < s@.len() && s@[j as int] == c && find_idx(
                s@,
                from as int,
                c,
            ) == Some(j as int),
            None => find_idx(s@, from as int, c) is None,
        },
{
    let n = s.unicode_len();
    let mut i: usize = from;
    while i < n
        invariant
            from <= i,
            n == s@.len(),
            find_idx(s@, from as int, c) == find_idx(s@, i as int, c),
        decreases n - i,
    {
        if s.get_char(i) == c {
            return Some(i);
        }
        i += 1;
    }
    None
}

/// Index of the first occurrence of the pattern `pat` in `s` at or after
/// `i`, if any.
pub open spec fn find_occ_idx(s: Seq<char>, pat: Seq<char>, i: int) -> Option<int>
    decreases s.len() - i,
{
    if i < 0 || i + pat.len() > s.len() {
        None
    } else if occurs_at(s, pat, i) {
        Some(i)
    } else {
        find_occ_idx(s, pat, i + 1)
    }
}

/// `s` with its first occurrence of `from` (if any) replaced by `to`.
pub open spec fn replace_first_seq(s: Seq<char>, from: Seq<char>, to: Seq<char>) -> Seq<char> {
    match find_occ_idx(s, from, 0) {
        Some(p) => s.take(p) + to + s.skip(p + from.len() as int),
        None => s,
    }
}

/// Find the first occurrence of `pat` in `s`.
pub fn find_first(s: &str, pat: &str) -> (r: Option<usize>)
    ensures
        match r {
            Some(p) => find_occ_idx(s@, pat@, 0) == Some(p as int) && p + pat@.len() <= s@.len(),
            None => find_occ_idx(s@, pat@, 0) is None,
        },
{
    let n = s.unicode_len();
    let m = pat.unicode_len();
    if m > n {
        return None;
    }
    if m == 0 {
        assert(occurs_at(s@, pat@, 0));
        return Some(0);
    }
    let mut i: usize = 0;
    while i <= n - m
        invariant
            0 <= i,
            0 < m <= n,
            n == s@.len(),
            m == pat@.len(),
            find_occ_idx(s@, pat@, 0) == find_occ_idx(s@, pat@, i as int),
        decreases n - i,
    {
        if match_at(s, pat, i) {
            return Some(i);
        }
        i += 1;
    }
    None
}

/// Replace the first occurrence of `from` in `s` by `to`; `s` comes back
/// unchanged when `from` does not occur.
pub fn replace_first_str(s: &str, from: &str, to: &str) -> (r: String)
    ensures
        r@ == replace_first_seq(s@, from@, to@),
{
    let n = s.unicode_len();
    let m = from.unicode_len();
    match find_first(s, from) {
        Some(p) => {
            let mut out = String::new();
            out.append(s.substring_char(0, p));
            out.append(to);
            out.append(s.substring_char(p + m, n));
            assert(out@ =~= replace_first_seq(s@, from@, to@));
            out
        },
        None => String::from_str(s),
    }
}

/// Decide whether two strings hold the same characters.
pub fn str_eq(a: &str, b: &str) -> (r: bool)
    ensures
        r == (a@ == b@),
{
    let n = a.unicode_len();
    let m = b.unicode_len();
    if n != m {
        return false;
    }
    if match_at(a, b, 0) {
        assert(a@ =~= b@);
        true
    } else {
        assert(a@ == b@ ==> occurs_at(a@, b@, 0));
        false
    }
}

/// Index of the first non-whitespace character at or after `i` (or the
/// length of `s` if the rest is all whitespace).
pub open spec fn skip_ws_idx(s: Seq<char>, i: int) -> int
    decreases s.len() - i,
{
    if i < 0 || i >= s.len() {
        s.len() as int
    } else if is_ws_char(s[i]) {
        skip_ws_idx(s, i + 1)
    } else {
        i
    }
}

/// One past the last non-whitespace character strictly before `i` (or 0 if
/// everything before `i` is whitespace).
pub open spec fn rskip_ws_idx(s: Seq<char>, i: int) -> int
    decreases i,
{
    if i <= 0 || i > s.len() {
        0
    } else if is_ws_char(s[i - 1]) {
        rskip_ws_idx(s, i - 1)
    } else {
        i
    }
}

/// `s` with leading and trailing whitespace removed.
pub open spec fn trim_seq(s: Seq<char>) -> Seq<char> {
    let a = skip_ws_idx(s, 0);
    let b = rskip_ws_idx(s, s.len() as int);
    if a < b {
        s.subrange(a, b)
    } else {
        Seq::empty()
    }
}

/// Remove leading and trailing whitespace.
pub fn trim_str(s: &str) -> (r: &str)
    ensures
        r@ == trim_seq(s@),
{
    let n = s.unicode_len();
    let mut a: usize = 0;
    while a < n && is_ws(s.get_char(a))
        invariant
            0 <= a <= n,
            n == s@.len(),
            skip_ws_idx(s@, 0) == skip_ws_idx(s@, a as int),
        decreases n - a,
    {
        a += 1;
    }
    assert(skip_ws_idx(s@, 0) == a as int);
    let mut b: usize = n;
    while b > a && is_ws(s.get_char(b - 1))
        invariant
            a <= b <= n,
            n == s@.len(),
            skip_ws_idx(s@, 0) == a as int,
            a < n ==> !is_ws_char(s@[a as int]),
            a < n ==> a < b,
            rskip_ws_idx(s@, n as int) == rskip_ws_idx(s@, b as int),
        decreases b,
    {
        b -= 1;
    }
    if b > a {
        assert(rskip_ws_idx(s@, n as int) == b as int);
        let r = s.substring_char(a, b);
        assert(r@ =~= trim_seq(s@));
        r
    } else {
        assert(a == b && a == n);
        proof {
            lemma_rskip_ws_le(s@, b as int);
        }
        let r = s.substring_char(a, a);
        assert(r@ =~= trim_seq(s@));
        r
    }
}

proof fn lemma_rskip_ws_le(s: Seq<char>, i: int)
    requires
        0 <= i <= s.len(),
    ensures
        rskip_ws_idx(s, i) <= i,
    decreases i,
{
    if i > 0 && is_ws_char(s[i - 1]) {
        lemma_rskip_ws_le(s, i - 1);
    }
}

/// Index of the first whitespace character at or after `i` (or the length
/// of `s` if there is none).
pub open spec fn find_ws_idx(s: Seq<char>, i: int) -> int
    decreases s.len() - i,
{
    if i < 0 || i >= s.len() {
        s.len() as int
    } else if is_ws_char(s[i]) {
        i
    } else {
        find_ws_idx(s, i + 1)
    }
}

/// The prefix of `s` up to (excluding) its first whitespace character.
pub open spec fn first_token(s: Seq<char>) -> Seq<char> {
    s.take(find_ws_idx(s, 0))
}

/// Keep only the leading whitespace-free token of `s`.
pub fn first_token_str(s: &str) -> (r: &str)
    ensures
        r@ == first_token(s@),
{
    let n = s.unicode_len();
    let mut i: usize = 0;
    while i < n && !is_ws(s.get_char(i))
        invariant
            0 <= i <= n,
            n == s@.len(),
            find_ws_idx(s@, 0) == find_ws_idx(s@, i as int),
        decreases n - i,
    {
        i += 1;
    }
    assert(find_ws_idx(s@, 0) == i as int);
    let r = s.substring_char(0, i);
    assert(r@ =~= first_token(s@));
    r
}

} // verus!
