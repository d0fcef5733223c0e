//! Properties of the extraction pipeline that hold for every input,
//! stated and proved once and for all: a text without image markup yields
//! nothing; the resolver passes foreign hosts through and is idempotent;
//! markdown images appear in the result in scan order; the HTML pass
//! never introduces a duplicate.

use vstd::prelude::*;

use crate::classify::is_image_seq;
use crate::extract::{extract_seq, html_pass, image_urls_of, md_clean, md_urls};
use crate::resolve::{host_end, is_blob_url, resolve_seq, scheme_end};
use crate::scan::{html_caps, html_match, html_scan, md_caps, md_match, md_scan};
use crate::text::{
    contains_seq, lemma_find_idx_found, lemma_occurs_char, occurs_at, starts_with_seq, trim_seq,
};

verus! {

/// A text in which `![` never occurs yields no markdown captures.
proof fn lemma_md_scan_empty(s: Seq<char>, i: int)
    requires
        !contains_seq(s, "!["@),
    ensures
        md_scan(s, i) == Seq::<Seq<char>>::empty(),
    decreases s.len() - i,
{
    reveal_strlit("![");
    if 0 <= i && i < s.len() {
        if i + 2 <= s.len() && s[i] == '!' && s[i + 1] == '[' {
            assert(occurs_at(s, "!["@, i));
            assert(contains_seq(s, "!["@));
        }
        assert(md_match(s, i) is None);
        lemma_md_scan_empty(s, i + 1);
    }
}

/// A text in which `<img` never occurs yields no HTML captures.
proof fn lemma_html_scan_empty(s: Seq<char>, i: int)
    requires
        !contains_seq(s, "<img"@),
    ensures
        html_scan(s, i) == Seq::<Seq<char>>::empty(),
    decreases s.len() - i,
{
    reveal_strlit("<img");
    if 0 <= i && i < s.len() {
        if i + 4 <= s.len() && s[i] == '<' && s[i + 1] == 'i' && s[i + 2] == 'm' && s[i + 3]
            == 'g' {
            assert(occurs_at(s, "<img"@, i));
            assert(contains_seq(s, "<img"@));
        }
        assert(html_match(s, i) is None);
        lemma_html_scan_empty(s, i + 1);
    }
}

/// A text with no image markup extracts nothing: when neither `![` nor
/// `<img` occurs in the text, the pipeline's result is empty.
pub proof fn lemma_no_markup_no_images(text: Seq<char>, owner: Seq<char>, repo: Seq<char>)
    requires
        !contains_seq(text, "!["@),
        !contains_seq(text, "<img"@),
    ensures
        extract_seq(text, owner, repo) == Seq::<Seq<char>>::empty(),
{
    lemma_md_scan_empty(text, 0);
    lemma_html_scan_empty(text, 0);
    assert(md_caps(text).len() == 0);
    assert(html_caps(text).len() == 0);
    assert(extract_seq(text, owner, repo) == md_urls(text, owner, repo));
    assert(image_urls_of(md_caps(text), owner, repo) == Seq::<Seq<char>>::empty());
}

/// An absolute URL whose host is not the hosting site's web domain comes
/// back from the resolver unchanged.
pub proof fn lemma_foreign_absolute_passes_through(
    url: Seq<char>,
    owner: Seq<char>,
    repo: Seq<char>,
)
    requires
        starts_with_seq(url, "http://"@) || starts_with_seq(url, "https://"@),
        url.subrange(scheme_end(url), host_end(url)) != "github.com"@,
    ensures
        resolve_seq(url, owner, repo) == url,
{
}

/// A URL of the raw-content domain is never rewritten: its host differs
/// from the web domain in its very first character.
proof fn lemma_raw_host_not_blob(r: Seq<char>)
    requires
        starts_with_seq(r, "http://"@) || starts_with_seq(r, "https://"@),
        scheme_end(r) < r.len(),
        r[scheme_end(r)] == 'r',
    ensures
        !is_blob_url(r),
{
    reveal_strlit("github.com");
    let se = scheme_end(r);
    if is_blob_url(r) {
        let he = host_end(r);
        lemma_find_idx_found(r, se, '/');
        assert(se <= he <= r.len());
        assert(r.subrange(se, he) == "github.com"@);
        assert(r.subrange(se, he)[0] == r[se]);
        assert("github.com"@[0] == 'g');
        assert(false);
    }
}

/// Resolving is idempotent: a resolver output resolves to itself. A
/// rewritten or constructed URL always carries the raw-content host, and
/// an absolute URL on any other host passes through.
pub proof fn lemma_resolve_idempotent(url: Seq<char>, owner: Seq<char>, repo: Seq<char>)
    ensures
        resolve_seq(resolve_seq(url, owner, repo), owner, repo) == resolve_seq(url, owner, repo),
{
    reveal_strlit("http://");
    reveal_strlit("https://");
    reveal_strlit("raw.githubusercontent.com");
    reveal_strlit("https://raw.githubusercontent.com/");
    let r = resolve_seq(url, owner, repo);
    if starts_with_seq(url, "http://"@) || starts_with_seq(url, "https://"@) {
        if is_blob_url(url) {
            let se = scheme_end(url);
            assert(forall|k: int| 0 <= k < se ==> r[k] == url[k]);
            assert(r.len() >= se + 25);
            if starts_with_seq(url, "https://"@) {
                assert(starts_with_seq(r, "https://"@));
            } else {
                assert(starts_with_seq(r, "http://"@));
                lemma_occurs_char(url, "http://"@, 0, 4);
                assert(url[4] == ':');
                assert(r[4] == url[4]);
                assert(!starts_with_seq(r, "https://"@)) by {
                    if occurs_at(r, "https://"@, 0) {
                        lemma_occurs_char(r, "https://"@, 0, 4);
                        assert(false);
                    }
                }
            }
            assert(scheme_end(r) == se);
            assert(r[se] == "raw.githubusercontent.com"@[0]);
            lemma_raw_host_not_blob(r);
            assert(resolve_seq(r, owner, repo) == r);
        } else {
            assert(r == url);
        }
    } else {
        let ltr = "https://raw.githubusercontent.com/"@;
        assert(ltr.len() == 34);
        assert(forall|k: int| 0 <= k < 34 ==> r[k] == ltr[k]);
        assert(starts_with_seq(r, "https://"@));
        assert(scheme_end(r) == 8);
        assert(r[8] == ltr[8]);
        lemma_raw_host_not_blob(r);
        assert(resolve_seq(r, owner, repo) == r);
    }
}

/// The HTML pass only appends: what was accumulated stays, in place.
proof fn lemma_html_pass_extends(
    caps: Seq<Seq<char>>,
    owner: Seq<char>,
    repo: Seq<char>,
    acc: Seq<Seq<char>>,
)
    ensures
        acc.len() <= html_pass(caps, owner, repo, acc).len(),
        html_pass(caps, owner, repo, acc).take(acc.len() as int) == acc,
    decreases caps.len(),
{
    let res = html_pass(caps, owner, repo, acc);
    if caps.len() == 0 {
        assert(res.take(acc.len() as int) =~= acc);
    } else {
        let u = resolve_seq(trim_seq(caps.first()), owner, repo);
        let acc2 = if is_image_seq(u) && !acc.contains(u) {
            acc.push(u)
        } else {
            acc
        };
        lemma_html_pass_extends(caps.drop_first(), owner, repo, acc2);
        assert(res == html_pass(caps.drop_first(), owner, repo, acc2));
        assert(forall|t: int|
            0 <= t < acc2.len() ==> res[t] == #[trigger] acc2[t]) by {
            assert(forall|t: int|
                0 <= t < acc2.len() ==> res.take(acc2.len() as int)[t] == #[trigger] res[t]);
        }
        assert(res.take(acc.len() as int) =~= acc);
    }
}

/// Every entry the HTML pass appends differs from every entry before it,
/// accumulated or appended earlier.
proof fn lemma_html_pass_distinct(
    caps: Seq<Seq<char>>,
    owner: Seq<char>,
    repo: Seq<char>,
    acc: Seq<Seq<char>>,
)
    ensures
        forall|a: int, b: int|
            0 <= a < b < html_pass(caps, owner, repo, acc).len() && b >= acc.len() ==> html_pass(
                caps,
                owner,
                repo,
                acc,
            )[a] != html_pass(caps, owner, repo, acc)[b],
    decreases caps.len(),
{
    let res = html_pass(caps, owner, repo, acc);
    if caps.len() > 0 {
        let u = resolve_seq(trim_seq(caps.first()), owner, repo);
        let acc2 = if is_image_seq(u) && !acc.contains(u) {
            acc.push(u)
        } else {
            acc
        };
        lemma_html_pass_distinct(caps.drop_first(), owner, repo, acc2);
        lemma_html_pass_extends(caps.drop_first(), owner, repo, acc2);
        assert(res == html_pass(caps.drop_first(), owner, repo, acc2));
        assert(forall|t: int|
            0 <= t < acc2.len() ==> res[t] == #[trigger] acc2[t]) by {
            assert(forall|t: int|
                0 <= t < acc2.len() ==> res.take(acc2.len() as int)[t] == #[trigger] res[t]);
        }
        assert forall|a: int, b: int|
            0 <= a < b < res.len() && b >= acc.len() implies res[a] != res[b] by {
            if b < acc2.len() {
                assert(acc2 == acc.push(u));
                assert(b == acc.len());
                assert(res[b] == acc2[b]);
                assert(acc2[b] == u);
                assert(res[a] == acc2[a]);
                assert(acc2[a] == acc[a]);
                assert(!acc.contains(u));
                assert(!(0 <= a < acc.len() && acc[a] == u));
            }
        }
    }
}

/// The markdown pass's contribution stands unchanged at the front of the
/// final list: the HTML pass appends after it and never reorders it.
pub proof fn lemma_markdown_pass_is_prefix(text: Seq<char>, owner: Seq<char>, repo: Seq<char>)
    ensures
        md_urls(text, owner, repo).len() <= extract_seq(text, owner, repo).len(),
        extract_seq(text, owner, repo).take(md_urls(text, owner, repo).len() as int) == md_urls(
            text,
            owner,
            repo,
        ),
{
    lemma_html_pass_extends(html_caps(text), owner, repo, md_urls(text, owner, repo));
}

/// Deduplication: every entry that the HTML pass contributed (the entries
/// after the markdown pass's prefix) differs from every entry before it,
/// so a URL already listed — by the markdown pass, or by an earlier HTML
/// capture — is never listed again.
pub proof fn lemma_html_entries_never_duplicate(
    text: Seq<char>,
    owner: Seq<char>,
    repo: Seq<char>,
    a: int,
    b: int,
)
    requires
        0 <= a < b < extract_seq(text, owner, repo).len(),
        b >= md_urls(text, owner, repo).len(),
    ensures
        extract_seq(text, owner, repo)[a] != extract_seq(text, owner, repo)[b],
{
    lemma_html_pass_distinct(html_caps(text), owner, repo, md_urls(text, owner, repo));
}

/// The number of times the string `u` occurs in the list `s`.
pub open spec fn count_of(s: Seq<Seq<char>>, u: Seq<char>) -> nat
    decreases s.len(),
{
    if s.len() == 0 {
        0
    } else {
        count_of(s.drop_last(), u) + (if s.last() == u {
            1nat
        } else {
            0nat
        })
    }
}

/// The number of markdown captures whose cleaned, resolved target is `u`.
pub open spec fn md_hits(
    caps: Seq<Seq<char>>,
    owner: Seq<char>,
    repo: Seq<char>,
    u: Seq<char>,
) -> nat
    decreases caps.len(),
{
    if caps.len() == 0 {
        0
    } else {
        md_hits(caps.drop_last(), owner, repo, u) + (if resolve_seq(
            md_clean(caps.last()),
            owner,
            repo,
        ) == u {
            1nat
        } else {
            0nat
        })
    }
}

/// For an image URL `u`, the markdown pass lists `u` once per capture
/// that resolves to it.
proof fn lemma_image_urls_count(
    caps: Seq<Seq<char>>,
    owner: Seq<char>,
    repo: Seq<char>,
    u: Seq<char>,
)
    requires
        is_image_seq(u),
    ensures
        count_of(image_urls_of(caps, owner, repo), u) == md_hits(caps, owner, repo, u),
    decreases caps.len(),
{
    if caps.len() > 0 {
        lemma_image_urls_count(caps.drop_last(), owner, repo, u);
        let rest = image_urls_of(caps.drop_last(), owner, repo);
        let v = resolve_seq(md_clean(caps.last()), owner, repo);
        if is_image_seq(v) {
            assert(image_urls_of(caps, owner, repo) == rest.push(v));
            assert(rest.push(v).drop_last() =~= rest);
            assert(rest.push(v).last() == v);
        } else {
            assert(v != u);
        }
    }
}

/// Occurrences add up over a split of the list.
proof fn lemma_count_split(s: Seq<Seq<char>>, u: Seq<char>, k: int)
    requires
        0 <= k <= s.len(),
    ensures
        count_of(s, u) == count_of(s.take(k), u) + count_of(s.skip(k), u),
    decreases s.len(),
{
    if s.len() == k {
        assert(s.take(k) =~= s);
        assert(count_of(s.skip(k), u) == 0);
    } else {
        let dl = s.drop_last();
        lemma_count_split(dl, u, k);
        assert(s.take(k) =~= dl.take(k));
        assert(s.skip(k).drop_last() =~= dl.skip(k));
        assert(s.skip(k).last() == s.last());
    }
}

/// A string that appears nowhere in the list is counted zero times.
proof fn lemma_count_zero(s: Seq<Seq<char>>, u: Seq<char>)
    requires
        forall|p: int| 0 <= p < s.len() ==> s[p] != u,
    ensures
        count_of(s, u) == 0,
    decreases s.len(),
{
    if s.len() > 0 {
        assert(s.last() == s[s.len() - 1]);
        assert(forall|p: int| 0 <= p < s.drop_last().len() ==> s.drop_last()[p] == s[p]);
        lemma_count_zero(s.drop_last(), u);
    }
}

/// A positive count names a position.
proof fn lemma_count_pos(s: Seq<Seq<char>>, u: Seq<char>)
    requires
        count_of(s, u) > 0,
    ensures
        exists|p: int| 0 <= p < s.len() && s[p] == u,
    decreases s.len(),
{
    if s.len() > 0 {
        if s.last() == u {
            assert(s[s.len() - 1] == u);
        } else {
            lemma_count_pos(s.drop_last(), u);
            let p = choose|p: int|
                0 <= p < s.drop_last().len() && s.drop_last()[p] == u;
            assert(s[p] == u);
        }
    }
}

/// Deduplication, completed on the markdown side: when exactly one
/// markdown capture resolves to the image URL `u`, the final list holds
/// `u` exactly once — at the markdown pass's position — however many
/// HTML captures also resolve to `u`.
pub proof fn lemma_unique_markdown_image_listed_once(
    text: Seq<char>,
    owner: Seq<char>,
    repo: Seq<char>,
    u: Seq<char>,
)
    requires
        is_image_seq(u),
        md_hits(md_caps(text), owner, repo, u) == 1,
    ensures
        count_of(extract_seq(text, owner, repo), u) == 1,
        exists|p: int|
            0 <= p < md_urls(text, owner, repo).len() && md_urls(text, owner, repo)[p] == u
                && extract_seq(text, owner, repo)[p] == u,
{
    let m = md_urls(text, owner, repo);
    let res = extract_seq(text, owner, repo);
    lemma_image_urls_count(md_caps(text), owner, repo, u);
    lemma_markdown_pass_is_prefix(text, owner, repo);
    lemma_html_pass_distinct(html_caps(text), owner, repo, m);
    lemma_count_split(res, u, m.len() as int);
    assert(res.take(m.len() as int) == m);
    lemma_count_pos(m, u);
    let p = choose|p: int| 0 <= p < m.len() && m[p] == u;
    assert(res.take(m.len() as int)[p] == res[p]);
    assert(res[p] == u);
    let suf = res.skip(m.len() as int);
    assert(forall|q: int| 0 <= q < suf.len() ==> suf[q] != u) by {
        assert forall|q: int| 0 <= q < suf.len() implies suf[q] != u by {
            let b = m.len() + q;
            assert(suf[q] == res[b]);
            assert(res[p] != res[b]);
        }
    }
    lemma_count_zero(suf, u);
}

/// Every URL the markdown pass keeps classifies as an image.
proof fn lemma_image_urls_all_images(caps: Seq<Seq<char>>, owner: Seq<char>, repo: Seq<char>)
    ensures
        forall|p: int|
            0 <= p < image_urls_of(caps, owner, repo).len() ==> is_image_seq(
                #[trigger] image_urls_of(caps, owner, repo)[p],
            ),
    decreases caps.len(),
{
    if caps.len() > 0 {
        lemma_image_urls_all_images(caps.drop_last(), owner, repo);
        let rest = image_urls_of(caps.drop_last(), owner, repo);
        let res = image_urls_of(caps, owner, repo);
        assert forall|p: int| 0 <= p < res.len() implies is_image_seq(res[p]) by {
            if p < rest.len() {
                assert(res[p] == rest[p]);
            }
        }
    }
}

/// The HTML pass only ever appends URLs that classify as images.
proof fn lemma_html_pass_all_images(
    caps: Seq<Seq<char>>,
    owner: Seq<char>,
    repo: Seq<char>,
    acc: Seq<Seq<char>>,
)
    requires
        forall|p: int| 0 <= p < acc.len() ==> is_image_seq(#[trigger] acc[p]),
    ensures
        forall|p: int|
            0 <= p < html_pass(caps, owner, repo, acc).len() ==> is_image_seq(
                #[trigger] html_pass(caps, owner, repo, acc)[p],
            ),
    decreases caps.len(),
{
    if caps.len() > 0 {
        let u = resolve_seq(trim_seq(caps.first()), owner, repo);
        let acc2 = if is_image_seq(u) && !acc.contains(u) {
            acc.push(u)
        } else {
            acc
        };
        assert forall|p: int| 0 <= p < acc2.len() implies is_image_seq(acc2[p]) by {
            if p < acc.len() {
                assert(acc2[p] == acc[p]);
            }
        }
        lemma_html_pass_all_images(caps.drop_first(), owner, repo, acc2);
        assert(html_pass(caps, owner, repo, acc) == html_pass(caps.drop_first(), owner, repo, acc2));
    }
}

/// Non-image filtering: everything the pipeline lists classifies as an
/// image; a reference whose resolved URL does not classify as an image is
/// never listed.
pub proof fn lemma_only_images_listed(text: Seq<char>, owner: Seq<char>, repo: Seq<char>, p: int)
    requires
        0 <= p < extract_seq(text, owner, repo).len(),
    ensures
        is_image_seq(extract_seq(text, owner, repo)[p]),
{
    lemma_image_urls_all_images(md_caps(text), owner, repo);
    lemma_html_pass_all_images(html_caps(text), owner, repo, md_urls(text, owner, repo));
}

/// A cleaned and resolved markdown capture that classifies as an image is
/// among the markdown pass's URLs.
proof fn lemma_image_urls_contains(
    caps: Seq<Seq<char>>,
    owner: Seq<char>,
    repo: Seq<char>,
    idx: int,
)
    requires
        0 <= idx < caps.len(),
        is_image_seq(resolve_seq(md_clean(caps[idx]), owner, repo)),
    ensures
        image_urls_of(caps, owner, repo).contains(resolve_seq(md_clean(caps[idx]), owner, repo)),
    decreases caps.len(),
{
    let u = resolve_seq(md_clean(caps[idx]), owner, repo);
    let res = image_urls_of(caps, owner, repo);
    let rest = image_urls_of(caps.drop_last(), owner, repo);
    if idx == caps.len() - 1 {
        assert(caps.last() == caps[idx]);
        assert(res == rest.push(u));
        assert(res[res.len() - 1] == u);
        assert(res.contains(u));
    } else {
        assert(caps.drop_last()[idx] == caps[idx]);
        lemma_image_urls_contains(caps.drop_last(), owner, repo, idx);
        let j = choose|j: int| 0 <= j < rest.len() && rest[j] == u;
        assert(res[j] == u);
        assert(res.contains(u));
    }
}

/// Two markdown captures that both resolve to images appear in the
/// markdown pass's URLs in the captures' order.
proof fn lemma_image_urls_ordered(
    caps: Seq<Seq<char>>,
    owner: Seq<char>,
    repo: Seq<char>,
    i1: int,
    i2: int,
)
    requires
        0 <= i1 < i2 < caps.len(),
        is_image_seq(resolve_seq(md_clean(caps[i1]), owner, repo)),
        is_image_seq(resolve_seq(md_clean(caps[i2]), owner, repo)),
    ensures
        exists|p1: int, p2: int|
            0 <= p1 < p2 < image_urls_of(caps, owner, repo).len() && image_urls_of(
                caps,
                owner,
                repo,
            )[p1] == resolve_seq(md_clean(caps[i1]), owner, repo) && image_urls_of(
                caps,
                owner,
                repo,
            )[p2] == resolve_seq(md_clean(caps[i2]), owner, repo),
    decreases caps.len(),
{
    let u1 = resolve_seq(md_clean(caps[i1]), owner, repo);
    let u2 = resolve_seq(md_clean(caps[i2]), owner, repo);
    let res = image_urls_of(caps, owner, repo);
    let rest = image_urls_of(caps.drop_last(), owner, repo);
    if i2 == caps.len() - 1 {
        assert(caps.last() == caps[i2]);
        assert(res == rest.push(u2));
        assert(caps.drop_last()[i1] == caps[i1]);
        lemma_image_urls_contains(caps.drop_last(), owner, repo, i1);
        let p1 = choose|p: int| 0 <= p < rest.len() && rest[p] == u1;
        let p2 = res.len() - 1;
        assert(res[p1] == u1);
        assert(res[p2] == u2);
        assert(0 <= p1 < p2 < res.len());
    } else {
        assert(caps.drop_last()[i1] == caps[i1]);
        assert(caps.drop_last()[i2] == caps[i2]);
        lemma_image_urls_ordered(caps.drop_last(), owner, repo, i1, i2);
        let (p1, p2) = choose|p1: int, p2: int|
            0 <= p1 < p2 < rest.len() && rest[p1] == u1 && rest[p2] == u2;
        assert(res[p1] == u1);
        assert(res[p2] == u2);
        assert(0 <= p1 < p2 < res.len());
    }
}

/// A markdown image reference whose cleaned, resolved target classifies
/// as an image appears in the final result.
pub proof fn lemma_markdown_image_listed(
    text: Seq<char>,
    owner: Seq<char>,
    repo: Seq<char>,
    idx: int,
)
    requires
        0 <= idx < md_caps(text).len(),
        is_image_seq(resolve_seq(md_clean(md_caps(text)[idx]), owner, repo)),
    ensures
        extract_seq(text, owner, repo).contains(
            resolve_seq(md_clean(md_caps(text)[idx]), owner, repo),
        ),
{
    let u = resolve_seq(md_clean(md_caps(text)[idx]), owner, repo);
    let m = md_urls(text, owner, repo);
    lemma_image_urls_contains(md_caps(text), owner, repo, idx);
    lemma_markdown_pass_is_prefix(text, owner, repo);
    let j = choose|j: int| 0 <= j < m.len() && m[j] == u;
    let res = extract_seq(text, owner, repo);
    assert(res.take(m.len() as int)[j] == res[j]);
    assert(res[j] == u);
    assert(res.contains(u));
}

/// Two markdown image references appear in the final result in their
/// left-to-right order of appearance in the text.
pub proof fn lemma_markdown_images_in_order(
    text: Seq<char>,
    owner: Seq<char>,
    repo: Seq<char>,
    i1: int,
    i2: int,
)
    requires
        0 <= i1 < i2 < md_caps(text).len(),
        is_image_seq(resolve_seq(md_clean(md_caps(text)[i1]), owner, repo)),
        is_image_seq(resolve_seq(md_clean(md_caps(text)[i2]), owner, repo)),
    ensures
        exists|p1: int, p2: int|
            0 <= p1 < p2 < extract_seq(text, owner, repo).len() && extract_seq(
                text,
                owner,
                repo,
            )[p1] == resolve_seq(md_clean(md_caps(text)[i1]), owner, repo) && extract_seq(
                text,
                owner,
                repo,
            )[p2] == resolve_seq(md_clean(md_caps(text)[i2]), owner, repo),
{
    let u1 = resolve_seq(md_clean(md_caps(text)[i1]), owner, repo);
    let u2 = resolve_seq(md_clean(md_caps(text)[i2]), owner, repo);
    let m = md_urls(text, owner, repo);
    let res = extract_seq(text, owner, repo);
    lemma_image_urls_ordered(md_caps(text), owner, repo, i1, i2);
    lemma_markdown_pass_is_prefix(text, owner, repo);
    let (p1, p2) = choose|p1: int, p2: int|
        0 <= p1 < p2 < m.len() && m[p1] == u1 && m[p2] == u2;
    assert(res.take(m.len() as int)[p1] == res[p1]);
    assert(res.take(m.len() as int)[p2] == res[p2]);
    assert(res[p1] == u1 && res[p2] == u2);
    assert(0 <= p1 < p2 < res.len());
}

} // verus!
