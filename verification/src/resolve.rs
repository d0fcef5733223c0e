//! URL resolution: turn a possibly-relative image reference plus the owning
//! repository's coordinates into an absolute raw-content URL.
//!
//! An absolute URL is kept as-is, except when its host is the hosting
//! site's web domain and its path contains a `blob` segment (the web UI's
//! HTML view of a file): such a URL is rewritten to the raw-content
//! domain, with the `blob` path segment removed, so that the result
//! serves file bytes. A relative reference is resolved against the
//! repository's default branch through the symbolic `HEAD` reference.

use vstd::prelude::*;

use crate::text::{
    contains_seq, contains_sub, find_char, find_idx, match_at, replace_first_seq,
    replace_first_str, str_eq, starts_with_seq,
};

verus! {

/// The length of the URL's scheme prefix: 8 for `https://`, else 7 for
/// `http://` (only meaningful for a URL that begins with one of the two).
pub open spec fn scheme_end(url: Seq<char>) -> int {
    if starts_with_seq(url, "https://"@) {
        8
    } else {
        7
    }
}

/// One past the URL's host: the index of the first `/` after the scheme,
/// or the end of the URL when no path follows.
pub open spec fn host_end(url: Seq<char>) -> int {
    match find_idx(url, scheme_end(url), '/') {
        Some(j) => j,
        None => url.len() as int,
    }
}

/// The absolute URL is the hosting site's web view of a file: its host is
/// the site's web domain and its path contains a `blob` segment.
pub open spec fn is_blob_url(url: Seq<char>) -> bool {
    &&& url.subrange(scheme_end(url), host_end(url)) == "github.com"@
    &&& contains_seq(url.skip(host_end(url)), "/blob/"@)
}

/// The web view URL rewritten for raw content: the host replaced by the
/// raw-content domain and the first `blob` path segment removed.
pub open spec fn blob_to_raw(url: Seq<char>) -> Seq<char> {
    url.take(scheme_end(url)) + "raw.githubusercontent.com"@ + replace_first_seq(
        url.skip(host_end(url)),
        "/blob/"@,
        "/"@,
    )
}

/// A repository-relative path: the reference with one leading `./` and
/// then one leading `/` stripped.
pub open spec fn strip_relative(url: Seq<char>) -> Seq<char> {
    let a = if starts_with_seq(url, "./"@) {
        url.skip(2)
    } else {
        url
    };
    if starts_with_seq(a, "/"@) {
        a.skip(1)
    } else {
        a
    }
}

/// The resolved absolute URL for a raw reference `url` found in the
/// repository `owner/repo`.
pub open spec fn resolve_seq(url: Seq<char>, owner: Seq<char>, repo: Seq<char>) -> Seq<char> {
    if starts_with_seq(url, "http://"@) || starts_with_seq(url, "https://"@) {
        if is_blob_url(url) {
            blob_to_raw(url)
        } else {
            url
        }
    } else {
        "https://raw.githubusercontent.com/"@ + owner + "/"@ + repo + "/HEAD/"@ + strip_relative(
            url,
        )
    }
}

/// Resolve a raw reference to an absolute raw-content URL. An absolute
/// URL passes through unchanged, unless its host is the web domain
/// `github.com` and its path has a `/blob/` segment: then the host
/// becomes `raw.githubusercontent.com` and the `blob` segment is
/// removed. A relative reference resolves under `owner/repo` at `HEAD`.
pub fn resolve_github_url(url: &str, owner: &str, repo: &str) -> (r: String)
    ensures
        r@ == resolve_seq(url@, owner@, repo@),
{
    let https = match_at(url, "https://", 0);
    let http = match_at(url, "http://", 0);
    if http || https {
        proof {
            // The scheme lengths bound the indexes below.
            reveal_strlit("http://");
            reveal_strlit("https://");
        }
        let n = url.unicode_len();
        let se: usize = if https {
            8
        } else {
            7
        };
        assert(se as int == scheme_end(url@));
        let he: usize = match find_char(url, se, '/') {
            Some(j) => j,
            None => n,
        };
        assert(he as int == host_end(url@));
        let host = url.substring_char(se, he);
        let path = url.substring_char(he, n);
        assert(path@ == url@.skip(he as int)) by {
            assert(url@.subrange(he as int, n as int) =~= url@.skip(he as int));
        }
        if str_eq(host, "github.com") && contains_sub(path, "/blob/") {
            assert(is_blob_url(url@));
            let mut out = String::new();
            out.append(url.substring_char(0, se));
            out.append("raw.githubusercontent.com");
            let tail = replace_first_str(path, "/blob/", "/");
            out.append(tail.as_str());
            assert(out@ =~= blob_to_raw(url@));
            out
        } else {
            assert(!is_blob_url(url@));
            String::from_str(url)
        }
    } else {
        proof {
            // The pattern lengths bound the substring indexes below.
            reveal_strlit("./");
            reveal_strlit("/");
        }
        let n = url.unicode_len();
        let stem = if match_at(url, "./", 0) {
            url.substring_char(2, n)
        } else {
            url
        };
        let n2 = stem.unicode_len();
        let path = if match_at(stem, "/", 0) {
            stem.substring_char(1, n2)
        } else {
            stem
        };
        assert(path@ =~= strip_relative(url@));
        let mut out = String::new();
        out.append("https://raw.githubusercontent.com/");
        out.append(owner);
        out.append("/");
        out.append(repo);
        out.append("/HEAD/");
        out.append(path);
        assert(out@ =~= resolve_seq(url@, owner@, repo@));
        out
    }
}

} // verus!
