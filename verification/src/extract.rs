//! The screenshot extraction pipeline: scan the text for raw image
//! references, resolve each into an absolute URL, keep those classified as
//! images, and collect them in order of first occurrence.
//!
//! The markdown pass runs first and appends every image URL it finds,
//! without deduplicating against itself. The HTML pass runs second and
//! appends an image URL only when it is not already in the list. The
//! pipeline is a total function: malformed input yields fewer matches,
//! never an error.

use vstd::prelude::*;

use crate::classify::{is_image_seq, is_image_url};
use crate::resolve::{resolve_seq, resolve_github_url};
use crate::scan::{html_caps, md_caps, scan_html_images, scan_md_images};
use crate::text::{first_token, first_token_str, trim_seq, trim_str};

verus! {

/// A markdown capture made ready for resolution: whitespace trimmed, then
/// only the first token kept, which discards a trailing markdown title.
pub open spec fn md_clean(c: Seq<char>) -> Seq<char> {
    first_token(trim_seq(c))
}

/// The image URLs of a sequence of markdown captures: each capture is
/// cleaned and resolved, and those classified as images are kept, in
/// order, duplicates included.
pub open spec fn image_urls_of(caps: Seq<Seq<char>>, owner: Seq<char>, repo: Seq<char>) -> Seq<
    Seq<char>,
>
    decreases caps.len(),
{
    if caps.len() == 0 {
        Seq::empty()
    } else {
        let rest = image_urls_of(caps.drop_last(), owner, repo);
        let u = resolve_seq(md_clean(caps.last()), owner, repo);
        if is_image_seq(u) {
            rest.push(u)
        } else {
            rest
        }
    }
}

/// The image URLs contributed by the markdown pass over `text`.
pub open spec fn md_urls(text: Seq<char>, owner: Seq<char>, repo: Seq<char>) -> Seq<Seq<char>> {
    image_urls_of(md_caps(text), owner, repo)
}

/// The HTML pass: each capture is trimmed and resolved, and an image URL
/// is appended to the accumulated list only when not already present.
pub open spec fn html_pass(
    caps: Seq<Seq<char>>,
    owner: Seq<char>,
    repo: Seq<char>,
    acc: Seq<Seq<char>>,
) -> Seq<Seq<char>>
    decreases caps.len(),
{
    if caps.len() == 0 {
        acc
    } else {
        let u = resolve_seq(trim_seq(caps.first()), owner, repo);
        let acc2 = if is_image_seq(u) && !acc.contains(u) {
            acc.push(u)
        } else {
            acc
        };
        html_pass(caps.drop_first(), owner, repo, acc2)
    }
}

/// The full pipeline: the HTML pass appends to what the markdown pass
/// produced.
pub open spec fn extract_seq(text: Seq<char>, owner: Seq<char>, repo: Seq<char>) -> Seq<
    Seq<char>,
> {
    html_pass(html_caps(text), owner, repo, md_urls(text, owner, repo))
}

/// Decide whether the list already holds the string `x`.
fn contains_string(v: &Vec<String>, x: &String) -> (b: bool)
    ensures
        b == v.deep_view().contains(x@),
{
    let mut j: usize = 0;
    while j < v.len()
        invariant
            0 <= j <= v.len(),
            forall|t: int| 0 <= t < j ==> v.deep_view()[t] != x@,
        decreases v.len() - j,
    {
        if v[j] == *x {
            assert(v.deep_view()[j as int] == x@);
            return true;
        }
        assert(v.deep_view()[j as int] != x@);
        j += 1;
    }
    false
}

/// Extract the screenshot image URLs referenced by a README text, for the
/// repository `owner/repo`: markdown image references first, then HTML
/// `img` sources that are not already listed, each resolved to an
/// absolute URL and kept only when classified as an image.
pub fn extract_images_from_markdown(content: &str, owner: &str, repo: &str) -> (urls: Vec<String>)
    ensures
        urls.deep_view() == extract_seq(content@, owner@, repo@),
{
    let md = scan_md_images(content);
    let ghost mdc = md_caps(content@);
    let mut urls: Vec<String> = Vec::new();
    let mut idx: usize = 0;
    proof {
        assert(mdc.take(0) =~= Seq::<Seq<char>>::empty());
        assert(urls.deep_view() =~= image_urls_of(mdc.take(0), owner@, repo@));
    }
    while idx < md.len()
        invariant
            0 <= idx <= md.len(),
            md.deep_view() == mdc,
            urls.deep_view() == image_urls_of(mdc.take(idx as int), owner@, repo@),
        decreases md.len() - idx,
    {
        assert(md.deep_view()[idx as int] == md@[idx as int]@);
        let trimmed = trim_str(md[idx].as_str());
        let tok = first_token_str(trimmed);
        let resolved = resolve_github_url(tok, owner, repo);
        assert(resolved@ == resolve_seq(md_clean(mdc[idx as int]), owner@, repo@));
        let ghost dv0 = urls.deep_view();
        if is_image_url(resolved.as_str()) {
            urls.push(resolved);
            assert(urls.deep_view() =~= dv0.push(resolve_seq(
                md_clean(mdc[idx as int]),
                owner@,
                repo@,
            )));
        }
        proof {
            assert(mdc.take(idx + 1).drop_last() =~= mdc.take(idx as int));
            assert(mdc.take(idx + 1).last() == mdc[idx as int]);
        }
        idx += 1;
    }
    proof {
        assert(mdc.take(md.len() as int) =~= mdc);
        assert(urls.deep_view() == md_urls(content@, owner@, repo@));
    }
    let html = scan_html_images(content);
    let ghost hc = html_caps(content@);
    let mut hdx: usize = 0;
    proof {
        assert(hc.skip(0) =~= hc);
    }
    while hdx < html.len()
        invariant
            0 <= hdx <= html.len(),
            html.deep_view() == hc,
            html_pass(hc.skip(hdx as int), owner@, repo@, urls.deep_view()) == extract_seq(
                content@,
                owner@,
                repo@,
            ),
        decreases html.len() - hdx,
    {
        assert(html.deep_view()[hdx as int] == html@[hdx as int]@);
        let trimmed = trim_str(html[hdx].as_str());
        let resolved = resolve_github_url(trimmed, owner, repo);
        let ghost u = resolve_seq(trim_seq(hc[hdx as int]), owner@, repo@);
        assert(resolved@ == u);
        let ghost dv0 = urls.deep_view();
        proof {
            assert(hc.skip(hdx as int).first() == hc[hdx as int]);
            assert(hc.skip(hdx as int).drop_first() =~= hc.skip(hdx + 1));
        }
        if is_image_url(resolved.as_str()) && !contains_string(&urls, &resolved) {
            urls.push(resolved);
            assert(urls.deep_view() =~= dv0.push(u));
        }
        hdx += 1;
    }
    proof {
        assert(hc.skip(html.len() as int).len() == 0);
    }
    urls
}

} // verus!
