//! End-to-end tests of the screenshot extraction pipeline.

use readme_images::extract::extract_images_from_markdown;

#[test]
fn plain_text_yields_nothing() {
    let text = "A desktop app.\n\nSee [the docs](docs/guide.txt) for details.\n";
    let urls = extract_images_from_markdown(text, "acme", "app");
    assert!(urls.is_empty());
}

#[test]
fn empty_text_yields_nothing() {
    let urls = extract_images_from_markdown("", "acme", "app");
    assert!(urls.is_empty());
}

#[test]
fn markdown_images_in_order() {
    let text = "![a](http://x.com/a.png) text ![b](http://y.com/b.png)";
    let urls = extract_images_from_markdown(text, "acme", "app");
    assert_eq!(urls, vec!["http://x.com/a.png".to_string(), "http://y.com/b.png".to_string()]);
}

#[test]
fn duplicate_url_from_both_passes_listed_once() {
    let text = "![s](http://x.com/a.png)\n<img src=\"http://x.com/a.png\">";
    let urls = extract_images_from_markdown(text, "acme", "app");
    assert_eq!(urls, vec!["http://x.com/a.png".to_string()]);
}

#[test]
fn markdown_pass_keeps_its_own_duplicates() {
    // The markdown pass does not deduplicate against itself; only the
    // HTML pass checks the accumulated list.
    let text = "![a](http://x.com/a.png) ![b](http://x.com/a.png)";
    let urls = extract_images_from_markdown(text, "acme", "app");
    assert_eq!(
        urls,
        vec!["http://x.com/a.png".to_string(), "http://x.com/a.png".to_string()]
    );
}

#[test]
fn html_pass_deduplicates_against_itself() {
    let text = "<img src=\"http://x.com/a.png\"> <img src=\"http://x.com/a.png\">";
    let urls = extract_images_from_markdown(text, "acme", "app");
    assert_eq!(urls, vec!["http://x.com/a.png".to_string()]);
}

#[test]
fn markdown_title_is_stripped() {
    let text = "![alt](http://x.com/a.png \"My Screenshot\")";
    let urls = extract_images_from_markdown(text, "acme", "app");
    assert_eq!(urls, vec!["http://x.com/a.png".to_string()]);
}

#[test]
fn non_image_reference_is_excluded() {
    let text = "![readme](http://x.com/readme-link)";
    let urls = extract_images_from_markdown(text, "acme", "app");
    assert!(urls.is_empty());
}

#[test]
fn end_to_end_mixed_references() {
    let text = "![s1](./a.png)\n<img src=\"b.jpg\">\n[not an image](c.txt)";
    let urls = extract_images_from_markdown(text, "o", "r");
    assert_eq!(
        urls,
        vec![
            "https://raw.githubusercontent.com/o/r/HEAD/a.png".to_string(),
            "https://raw.githubusercontent.com/o/r/HEAD/b.jpg".to_string(),
        ]
    );
}

#[test]
fn html_single_quoted_src() {
    let text = "<img alt='shot' src='shots/one.png' width='400'>";
    let urls = extract_images_from_markdown(text, "acme", "app");
    assert_eq!(
        urls,
        vec!["https://raw.githubusercontent.com/acme/app/HEAD/shots/one.png".to_string()]
    );
}

#[test]
fn img_tag_without_src_is_ignored() {
    let text = "<img alt=\"no source here\">";
    let urls = extract_images_from_markdown(text, "acme", "app");
    assert!(urls.is_empty());
}

#[test]
fn empty_markdown_target_is_ignored() {
    let text = "![]()";
    let urls = extract_images_from_markdown(text, "acme", "app");
    assert!(urls.is_empty());
}

#[test]
fn empty_alt_text_still_matches() {
    let text = "![](pics/shot.gif)";
    let urls = extract_images_from_markdown(text, "acme", "app");
    assert_eq!(
        urls,
        vec!["https://raw.githubusercontent.com/acme/app/HEAD/pics/shot.gif".to_string()]
    );
}

#[test]
fn whitespace_around_target_is_trimmed() {
    let text = "![s](  http://x.com/a.png  )";
    let urls = extract_images_from_markdown(text, "acme", "app");
    assert_eq!(urls, vec!["http://x.com/a.png".to_string()]);
}

#[test]
fn rightmost_src_attribute_wins() {
    // With two quoted src attributes in one element, a greedy matcher
    // keeps the rightmost one.
    let text = "<img src=\"http://x.com/a.png\" src=\"http://x.com/b.png\">";
    let urls = extract_images_from_markdown(text, "acme", "app");
    assert_eq!(urls, vec!["http://x.com/b.png".to_string()]);
}

#[test]
fn img_followed_by_word_char_is_not_a_tag() {
    // `<img` must end at a word boundary: a letter, digit or underscore
    // directly after it makes a different element name.
    let text = "<img2 src=\"http://x.com/a.png\"> <imgz src=\"http://x.com/b.png\">";
    let urls = extract_images_from_markdown(text, "acme", "app");
    assert!(urls.is_empty());
}

#[test]
fn src_needs_a_separator_after_img() {
    // `<img` must be followed by at least one attribute character before
    // `src=`; a fused `<imgsrc=` does not match.
    let text = "<imgsrc=\"http://x.com/a.png\">";
    let urls = extract_images_from_markdown(text, "acme", "app");
    assert!(urls.is_empty());
}

#[test]
fn markdown_scanned_before_html() {
    let text = "<img src=\"http://x.com/late.png\"> and ![first](http://x.com/early.png)";
    let urls = extract_images_from_markdown(text, "acme", "app");
    assert_eq!(
        urls,
        vec!["http://x.com/early.png".to_string(), "http://x.com/late.png".to_string()]
    );
}
