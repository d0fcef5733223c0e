//! Image classification: decide whether a resolved URL denotes an image,
//! by case-insensitive substring checks against a fixed set of image file
//! extensions and known image-hosting domain fragments.

use vstd::prelude::*;

use crate::text::{contains_seq, occurs_at};

verus! {

/// ASCII lowercasing of a single character; everything outside `'A'..='Z'`
/// is left unchanged.
pub open spec fn lower_char(c: char) -> char {
    match c {
        'A' => 'a',
        'B' => 'b',
        'C' => 'c',
        'D' => 'd',
        'E' => 'e',
        'F' => 'f',
        'G' => 'g',
        'H' => 'h',
        'I' => 'i',
        'J' => 'j',
        'K' => 'k',
        'L' => 'l',
        'M' => 'm',
        'N' => 'n',
        'O' => 'o',
        'P' => 'p',
        'Q' => 'q',
        'R' => 'r',
        'S' => 's',
        'T' => 't',
        'U' => 'u',
        'V' => 'v',
        'W' => 'w',
        'X' => 'x',
        'Y' => 'y',
        'Z' => 'z',
        _ => c,
    }
}

/// Characterwise ASCII lowercasing of a string.
pub open spec fn lower_seq(s: Seq<char>) -> Seq<char> {
    s.map_values(|c: char| lower_char(c))
}

/// Lowercase a single character (ASCII range only).
fn lower_c(c: char) -> (d: char)
    ensures
        d == lower_char(c),
{
    match c {
        'A' => 'a',
        'B' => 'b',
        'C' => 'c',
        'D' => 'd',
        'E' => 'e',
        'F' => 'f',
        'G' => 'g',
        'H' => 'h',
        'I' => 'i',
        'J' => 'j',
        'K' => 'k',
        'L' => 'l',
        'M' => 'm',
        'N' => 'n',
        'O' => 'o',
        'P' => 'p',
        'Q' => 'q',
        'R' => 'r',
        'S' => 's',
        'T' => 't',
        'U' => 'u',
        'V' => 'v',
        'W' => 'w',
        'X' => 'x',
        'Y' => 'y',
        'Z' => 'z',
        _ => c,
    }
}

/// Decide whether `pat` occurs at index `i` of the lowercased `s`.
fn match_at_ci(s: &str, pat: &str, i: usize) -> (b: bool)
    ensures
        b == occurs_at(lower_seq(s@), pat@, i as int),
{
    let n = s.unicode_len();
    let m = pat.unicode_len();
    assert(lower_seq(s@).len() == s@.len());
    if i > n || m > n - i {
        return false;
    }
    let mut k: usize = 0;
    while k < m
        invariant
            0 <= k <= m,
            i + m <= n,
            n == s@.len(),
            m == pat@.len(),
            forall|j: int| 0 <= j < k ==> lower_seq(s@)[i + j] == pat@[j],
        decreases m - k,
    {
        if lower_c(s.get_char(i + k)) != pat.get_char(k) {
            assert(lower_seq(s@)[i + k] == lower_char(s@[i + k]));
            return false;
        }
        assert(lower_seq(s@)[i + k] == lower_char(s@[i + k]));
        k += 1;
    }
    true
}

/// Decide whether `pat` occurs anywhere in the lowercased `s`. The pattern
/// itself is expected already in lowercase.
fn contains_ci(s: &str, pat: &str) -> (b: bool)
    ensures
        b == contains_seq(lower_seq(s@), pat@),
{
    let n = s.unicode_len();
    let m = pat.unicode_len();
    assert(lower_seq(s@).len() == s@.len());
    if m > n {
        return false;
    }
    if m == 0 {
        assert(occurs_at(lower_seq(s@), pat@, 0));
        return true;
    }
    let mut i: usize = 0;
    while i <= n - m
        invariant
            0 <= i,
            0 < m <= n,
            n == s@.len(),
            m == pat@.len(),
            forall|j: int| 0 <= j < i ==> !occurs_at(lower_seq(s@), pat@, j),
        decreases n - i,
    {
        if match_at_ci(s, pat, i) {
            return true;
        }
        i += 1;
    }
    assert(forall|j: int| occurs_at(lower_seq(s@), pat@, j) ==> 0 <= j <= n - m);
    false
}

/// A URL counts as an image when its lowercased text contains one of the
/// recognized image file extensions or one of the known image-hosting
/// domain fragments.
pub open spec fn is_image_seq(url: Seq<char>) -> bool {
    ||| contains_seq(lower_seq(url), ".png"@)
    ||| contains_seq(lower_seq(url), ".jpg"@)
    ||| contains_seq(lower_seq(url), ".jpeg"@)
    ||| contains_seq(lower_seq(url), ".gif"@)
    ||| contains_seq(lower_seq(url), ".webp"@)
    ||| contains_seq(lower_seq(url), ".svg"@)
    ||| contains_seq(lower_seq(url), ".bmp"@)
    ||| contains_seq(lower_seq(url), ".ico"@)
    ||| contains_seq(lower_seq(url), "imgur.com"@)
    ||| contains_seq(lower_seq(url), "i.imgur.com"@)
    ||| contains_seq(lower_seq(url), "raw.githubusercontent.com"@)
    ||| contains_seq(lower_seq(url), "user-images.githubusercontent.com"@)
    ||| contains_seq(lower_seq(url), "camo.githubusercontent.com"@)
    ||| contains_seq(lower_seq(url), "github.com/user-attachments"@)
}

/// Check whether a URL looks like an image, by file extension or by a
/// known image-hosting domain. Pure text inspection; no network access.
pub fn is_image_url(url: &str) -> (b: bool)
    ensures
        b == is_image_seq(url@),
{
    contains_ci(url, ".png") || contains_ci(url, ".jpg") || contains_ci(url, ".jpeg")
        || contains_ci(url, ".gif") || contains_ci(url, ".webp") || contains_ci(url, ".svg")
        || contains_ci(url, ".bmp") || contains_ci(url, ".ico") || contains_ci(url, "imgur.com")
        || contains_ci(url, "i.imgur.com") || contains_ci(url, "raw.githubusercontent.com")
        || contains_ci(url, "user-images.githubusercontent.com") || contains_ci(
        url,
        "camo.githubusercontent.com",
    ) || contains_ci(url, "github.com/user-attachments")
}

} // verus!
