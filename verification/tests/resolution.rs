//! Tests of the URL resolver and the image classifier.

use readme_images::classify::is_image_url;
use readme_images::resolve::resolve_github_url;

#[test]
fn relative_path_resolves_to_raw_head_url() {
    let r = resolve_github_url("assets/shot.png", "acme", "app");
    assert_eq!(r, "https://raw.githubusercontent.com/acme/app/HEAD/assets/shot.png");
}

#[test]
fn dot_slash_prefix_is_stripped() {
    let r = resolve_github_url("./a.png", "o", "r");
    assert_eq!(r, "https://raw.githubusercontent.com/o/r/HEAD/a.png");
}

#[test]
fn leading_slash_is_stripped() {
    let r = resolve_github_url("/img/a.png", "o", "r");
    assert_eq!(r, "https://raw.githubusercontent.com/o/r/HEAD/img/a.png");
}

#[test]
fn blob_url_rewritten_to_raw() {
    let r = resolve_github_url("https://github.com/acme/app/blob/main/img/shot.png", "acme", "app");
    assert_eq!(r, "https://raw.githubusercontent.com/acme/app/main/img/shot.png");
}

#[test]
fn absolute_url_without_blob_passes_through() {
    let r = resolve_github_url("https://example.com/pic.jpg", "acme", "app");
    assert_eq!(r, "https://example.com/pic.jpg");
}

#[test]
fn github_url_without_blob_segment_passes_through() {
    let r = resolve_github_url("https://github.com/acme/app/releases", "acme", "app");
    assert_eq!(r, "https://github.com/acme/app/releases");
}

#[test]
fn foreign_host_with_blob_in_path_passes_through() {
    let r = resolve_github_url("https://notgithub.com/blob/a.png", "acme", "app");
    assert_eq!(r, "https://notgithub.com/blob/a.png");
}

#[test]
fn subdomain_host_is_not_the_web_domain() {
    let r = resolve_github_url("https://gist.github.com/x/blob/y.png", "acme", "app");
    assert_eq!(r, "https://gist.github.com/x/blob/y.png");
}

#[test]
fn raw_content_url_with_blob_in_path_passes_through() {
    let u = "https://raw.githubusercontent.com/o/r/HEAD/x/blob/github.com.png";
    assert_eq!(resolve_github_url(u, "o", "r"), u);
}

#[test]
fn resolver_is_idempotent_on_examples() {
    let cases = [
        "x/blob/github.com.png",
        "./a.png",
        "https://github.com/acme/app/blob/main/img/shot.png",
        "https://notgithub.com/blob/a.png",
        "http://example.com/shot.webp",
        "",
    ];
    for raw in cases {
        let once = resolve_github_url(raw, "o", "r");
        let twice = resolve_github_url(&once, "o", "r");
        assert_eq!(twice, once);
    }
}

#[test]
fn only_first_blob_segment_is_removed() {
    let r = resolve_github_url("https://github.com/a/b/blob/main/blob/x.png", "a", "b");
    assert_eq!(r, "https://raw.githubusercontent.com/a/b/main/blob/x.png");
}

#[test]
fn blob_rewrite_keeps_the_http_scheme() {
    let r = resolve_github_url("http://github.com/a/b/blob/m/i.png", "a", "b");
    assert_eq!(r, "http://raw.githubusercontent.com/a/b/m/i.png");
}

#[test]
fn http_scheme_also_counts_as_absolute() {
    let r = resolve_github_url("http://example.com/shot.webp", "acme", "app");
    assert_eq!(r, "http://example.com/shot.webp");
}

#[test]
fn classifier_accepts_known_extensions() {
    assert!(is_image_url("http://x.com/a.png"));
    assert!(is_image_url("http://x.com/a.jpg"));
    assert!(is_image_url("http://x.com/a.jpeg"));
    assert!(is_image_url("http://x.com/a.gif"));
    assert!(is_image_url("http://x.com/a.webp"));
    assert!(is_image_url("http://x.com/a.svg"));
    assert!(is_image_url("http://x.com/a.bmp"));
    assert!(is_image_url("http://x.com/a.ico"));
}

#[test]
fn classifier_is_case_insensitive() {
    assert!(is_image_url("http://x.com/SHOT.PNG"));
    assert!(is_image_url("HTTP://I.IMGUR.COM/abc"));
}

#[test]
fn classifier_tolerates_query_after_extension() {
    assert!(is_image_url("http://x.com/a.png?raw=true"));
}

#[test]
fn classifier_accepts_known_hosts_without_extension() {
    assert!(is_image_url("https://i.imgur.com/abc123"));
    assert!(is_image_url("https://raw.githubusercontent.com/o/r/HEAD/shot"));
    assert!(is_image_url("https://user-images.githubusercontent.com/1/2"));
    assert!(is_image_url("https://camo.githubusercontent.com/deadbeef"));
    assert!(is_image_url("https://github.com/user-attachments/assets/xyz"));
}

#[test]
fn classifier_rejects_other_urls() {
    assert!(!is_image_url("http://x.com/readme-link"));
    assert!(!is_image_url(""));
    assert!(!is_image_url("https://github.com/acme/app"));
}

#[test]
fn classifier_is_deterministic_across_calls() {
    let url = "http://x.com/a.png";
    assert_eq!(is_image_url(url), is_image_url(url));
    let other = "http://x.com/readme-link";
    assert_eq!(is_image_url(other), is_image_url(other));
}
