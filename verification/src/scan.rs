//! Surface scanning of README text for raw image references.
//!
//! Two patterns are recognized, scanned independently over the whole text,
//! each yielding its captures in left-to-right order of occurrence, with
//! successive matches non-overlapping:
//!
//! * markdown image syntax `![alt](target)` — the alt text is anything
//!   without `]`, the target anything without `)` and non-empty; the
//!   target is captured verbatim;
//! * an HTML `img` element, `<img` followed by a word boundary (no
//!   letter, digit or underscore directly after it), then at least one
//!   attribute character and a `src` attribute whose value is quoted with
//!   either single or double quotes; the quoted interior is captured
//!   verbatim.
//!   When several `src` attributes occur in one element the scan prefers
//!   the rightmost one that is properly quoted, as a greedy matcher does.
//!
//! This is a surface pattern scan, not a markdown or HTML parser: malformed
//! markup simply yields no capture.

use vstd::prelude::*;

use crate::text::{find_char, find_idx};

verus! {

/// The markdown image match attempted at position `i`: on success, the
/// captured target and the position one past the match.
///
/// A match is `![`, then the first `]` after it, then `(` immediately
/// after, then a non-empty run of characters up to the first `)`.
pub open spec fn md_match(s: Seq<char>, i: int) -> Option<(Seq<char>, int)> {
    if 0 <= i && i + 2 <= s.len() && s[i] == '!' && s[i + 1] == '[' {
        match find_idx(s, i + 2, ']') {
            Some(j) => if j + 1 < s.len() && s[j + 1] == '(' {
                match find_idx(s, j + 2, ')') {
                    Some(k) => if k > j + 2 {
                        Some((s.subrange(j + 2, k), k + 1))
                    } else {
                        None
                    },
                    None => None,
                }
            } else {
                None
            },
            None => None,
        }
    } else {
        None
    }
}

/// All markdown image captures from position `i` on: a match emits its
/// capture and the scan resumes after it, otherwise the scan moves one
/// character right.
pub open spec fn md_scan(s: Seq<char>, i: int) -> Seq<Seq<char>>
    decreases s.len() - i,
{
    if i < 0 || i >= s.len() {
        Seq::empty()
    } else {
        match md_match(s, i) {
            Some(m) => {
                // A match always ends past `i`; the bound on `next` only
                // keeps the recursion visibly well-founded.
                let next = if i < m.1 <= s.len() {
                    m.1
                } else {
                    i + 1
                };
                seq![m.0] + md_scan(s, next)
            },
            None => md_scan(s, i + 1),
        }
    }
}

/// The ordered markdown image captures of the whole text.
pub open spec fn md_caps(s: Seq<char>) -> Seq<Seq<char>> {
    md_scan(s, 0)
}

/// Scan the text for markdown image syntax and return the captured
/// targets in order of occurrence.
pub fn scan_md_images(s: &str) -> (caps: Vec<String>)
    ensures
        caps.deep_view() == md_caps(s@),
{
    let n = s.unicode_len();
    let mut caps: Vec<String> = Vec::new();
    let mut i: usize = 0;
    proof {
        assert(caps.deep_view() + md_scan(s@, 0) =~= md_caps(s@));
    }
    while i < n
        invariant
            0 <= i <= n,
            n == s@.len(),
            caps.deep_view() + md_scan(s@, i as int) == md_caps(s@),
        decreases n - i,
    {
        let mut matched: Option<(usize, usize)> = None;
        if s.get_char(i) == '!' && n - i >= 2 && s.get_char(i + 1) == '[' {
            if let Some(j) = find_char(s, i + 2, ']') {
                if j + 1 < n && s.get_char(j + 1) == '(' {
                    if let Some(k) = find_char(s, j + 2, ')') {
                        if k > j + 2 {
                            matched = Some((j + 2, k));
                        }
                    }
                }
            }
        }
        match matched {
            Some(m) => {
                let cap = s.substring_char(m.0, m.1);
                let ghost dv0 = caps.deep_view();
                assert(md_match(s@, i as int) == Some((cap@, m.1 as int + 1)));
                caps.push(String::from_str(cap));
                proof {
                    assert(caps.deep_view() =~= dv0.push(cap@));
                    assert(md_scan(s@, i as int) == seq![cap@] + md_scan(s@, m.1 as int + 1));
                    assert(dv0.push(cap@) + md_scan(s@, m.1 as int + 1) =~= dv0 + md_scan(
                        s@,
                        i as int,
                    ));
                }
                i = m.1 + 1;
            },
            None => {
                assert(md_match(s@, i as int) is None);
                i += 1;
            },
        }
    }
    proof {
        assert(md_scan(s@, i as int) =~= Seq::<Seq<char>>::empty());
        assert(caps.deep_view() =~= caps.deep_view() + md_scan(s@, i as int));
    }
    caps
}

/// Index of the first single or double quote in `s` at or after `i`.
pub open spec fn find_quote_idx(s: Seq<char>, i: int) -> Option<int>
    decreases s.len() - i,
{
    if i < 0 || i >= s.len() {
        None
    } else if s[i] == '"' || s[i] == '\'' {
        Some(i)
    } else {
        find_quote_idx(s, i + 1)
    }
}

/// Find the first single or double quote in `s` at or after `from`.
fn find_quote(s: &str, from: usize) -> (r: Option<usize>)
    ensures
        match r {
            Some(j) => from <= j < s@.len() && find_quote_idx(s@, from as int) == Some(j as int),
            None => find_quote_idx(s@, from as int) is None,
        },
{
    let n = s.unicode_len();
    let mut i: usize = from;
    while i < n
        invariant
            from <= i,
            n == s@.len(),
            find_quote_idx(s@, from as int) == find_quote_idx(s@, i as int),
        decreases n - i,
    {
        let c = s.get_char(i);
        if c == '"' || c == '\'' {
            return Some(i);
        }
        i += 1;
    }
    None
}

/// A quoted `src` attribute begins at `d`: the literal `src=` followed by
/// an opening quote.
pub open spec fn src_eq_at(s: Seq<char>, d: int) -> bool {
    &&& 0 <= d
    &&& d + 4 < s.len()
    &&& s[d] == 's'
    &&& s[d + 1] == 'r'
    &&& s[d + 2] == 'c'
    &&& s[d + 3] == '='
    &&& (s[d + 4] == '"' || s[d + 4] == '\'')
}

/// The `src` attribute value starting at `d`, if `src=` with a quoted,
/// non-empty value begins there: the captured interior and the position
/// one past the closing quote.
pub open spec fn src_at(s: Seq<char>, d: int) -> Option<(Seq<char>, int)> {
    if src_eq_at(s, d) {
        match find_quote_idx(s, d + 5) {
            Some(k) => if k > d + 5 {
                Some((s.subrange(d + 5, k), k + 1))
            } else {
                None
            },
            None => None,
        }
    } else {
        None
    }
}

/// The rightmost viable `src` attribute for an `<img` element beginning at
/// `i`, among candidate positions `i + 5 ..= d`: candidates are tried from
/// `d` leftwards, as a greedy matcher backtracks.
pub open spec fn html_src(s: Seq<char>, i: int, d: int) -> Option<(Seq<char>, int)>
    decreases d - i,
{
    if d < i + 5 {
        None
    } else {
        match src_at(s, d) {
            Some(m) => Some(m),
            None => html_src(s, i, d - 1),
        }
    }
}

/// A word character, as a word boundary counts them: an ASCII letter,
/// digit or underscore.
pub open spec fn is_word_char(c: char) -> bool {
    ||| 'a' as u32 <= c as u32 && c as u32 <= 'z' as u32
    ||| 'A' as u32 <= c as u32 && c as u32 <= 'Z' as u32
    ||| '0' as u32 <= c as u32 && c as u32 <= '9' as u32
    ||| c == '_'
}

/// Decide whether a character is a word character.
fn is_word(c: char) -> (b: bool)
    ensures
        b == is_word_char(c),
{
    let u = c as u32;
    ('a' as u32) <= u && u <= ('z' as u32) || ('A' as u32) <= u && u <= ('Z' as u32) || ('0'
        as u32) <= u && u <= ('9' as u32) || c == '_'
}

/// The HTML image match attempted at position `i`: `<img`, then a word
/// boundary, then at least one non-`>` attribute character, then the
/// rightmost viable quoted `src` attribute whose `src=` starts no later
/// than the element's first `>` (or the end of the text when there is
/// none).
pub open spec fn html_match(s: Seq<char>, i: int) -> Option<(Seq<char>, int)> {
    if 0 <= i && i + 4 <= s.len() && s[i] == '<' && s[i + 1] == 'i' && s[i + 2] == 'm' && s[i + 3]
        == 'g' && !(i + 4 < s.len() && is_word_char(s[i + 4])) {
        let g = match find_idx(s, i + 4, '>') {
            Some(g0) => g0,
            None => s.len() as int,
        };
        html_src(s, i, g)
    } else {
        None
    }
}

/// All HTML image captures from position `i` on, mirroring `md_scan`.
pub open spec fn html_scan(s: Seq<char>, i: int) -> Seq<Seq<char>>
    decreases s.len() - i,
{
    if i < 0 || i >= s.len() {
        Seq::empty()
    } else {
        match html_match(s, i) {
            Some(m) => {
                // A match always ends past `i`; the bound on `next` only
                // keeps the recursion visibly well-founded.
                let next = if i < m.1 <= s.len() {
                    m.1
                } else {
                    i + 1
                };
                seq![m.0] + html_scan(s, next)
            },
            None => html_scan(s, i + 1),
        }
    }
}

/// The ordered HTML image captures of the whole text.
pub open spec fn html_caps(s: Seq<char>) -> Seq<Seq<char>> {
    html_scan(s, 0)
}

/// Search candidate `src` positions `i + 5 ..= g` from the right, as
/// `html_src` does, and report the capture's bounds within `s`.
fn find_src(s: &str, i: usize, g: usize) -> (r: Option<(usize, usize)>)
    requires
        g <= s@.len(),
    ensures
        match r {
            Some(m) => html_src(s@, i as int, g as int) == Some(
                (s@.subrange(m.0 as int, m.1 as int), m.1 as int + 1),
            ) && i < m.0 <= m.1 && m.1 < s@.len(),
            None => html_src(s@, i as int, g as int) is None,
        },
{
    let n = s.unicode_len();
    let mut d: usize = g;
    while d >= 5 && d - 5 >= i
        invariant
            d <= g <= n,
            n == s@.len(),
            html_src(s@, i as int, g as int) == html_src(s@, i as int, d as int),
        decreases d,
    {
        let mut hit = false;
        if n - d > 4 && s.get_char(d) == 's' && s.get_char(d + 1) == 'r' && s.get_char(d + 2)
            == 'c' && s.get_char(d + 3) == '=' {
            let q = s.get_char(d + 4);
            if q == '"' || q == '\'' {
                assert(src_eq_at(s@, d as int));
                if let Some(k) = find_quote(s, d + 5) {
                    if k > d + 5 {
                        assert(src_at(s@, d as int) == Some(
                            (s@.subrange(d as int + 5, k as int), k as int + 1),
                        ));
                        return Some((d + 5, k));
                    }
                }
            }
        }
        assert(src_at(s@, d as int) is None);
        assert(html_src(s@, i as int, d as int) == html_src(s@, i as int, d as int - 1));
        d -= 1;
    }
    assert(html_src(s@, i as int, d as int) is None);
    None
}

/// Scan the text for HTML `img` elements and return their `src` values in
/// order of occurrence.
pub fn scan_html_images(s: &str) -> (caps: Vec<String>)
    ensures
        caps.deep_view() == html_caps(s@),
{
    let n = s.unicode_len();
    let mut caps: Vec<String> = Vec::new();
    let mut i: usize = 0;
    proof {
        assert(caps.deep_view() + html_scan(s@, 0) =~= html_caps(s@));
    }
    while i < n
        invariant
            0 <= i <= n,
            n == s@.len(),
            caps.deep_view() + html_scan(s@, i as int) == html_caps(s@),
        decreases n - i,
    {
        let mut matched: Option<(usize, usize)> = None;
        if s.get_char(i) == '<' && n - i >= 4 && s.get_char(i + 1) == 'i' && s.get_char(i + 2)
            == 'm' && s.get_char(i + 3) == 'g' && (n - i == 4 || !is_word(s.get_char(i + 4))) {
            let g = match find_char(s, i + 4, '>') {
                Some(g0) => g0,
                None => n,
            };
            matched = find_src(s, i, g);
            assert(html_match(s@, i as int) == html_src(s@, i as int, g as int));
        } else {
            assert(html_match(s@, i as int) is None);
        }
        match matched {
            Some(m) => {
                let cap = s.substring_char(m.0, m.1);
                let ghost dv0 = caps.deep_view();
                assert(html_match(s@, i as int) == Some((cap@, m.1 as int + 1)));
                caps.push(String::from_str(cap));
                proof {
                    assert(caps.deep_view() =~= dv0.push(cap@));
                    assert(html_scan(s@, i as int) == seq![cap@] + html_scan(s@, m.1 as int + 1));
                    assert(dv0.push(cap@) + html_scan(s@, m.1 as int + 1) =~= dv0 + html_scan(
                        s@,
                        i as int,
                    ));
                }
                i = m.1 + 1;
            },
            None => {
                assert(html_match(s@, i as int) is None);
                i += 1;
            },
        }
    }
    proof {
        assert(html_scan(s@, i as int) =~= Seq::<Seq<char>>::empty());
        assert(caps.deep_view() =~= caps.deep_view() + html_scan(s@, i as int));
    }
    caps
}

} // verus!
