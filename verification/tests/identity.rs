use chapter_crawler::identity::LinkResolutionFailure;
use chapter_crawler::identity::PageIdentity;
use chapter_crawler::identity::StartupError;

#[test]
fn parse_keeps_a_normalized_url() {
    let id = PageIdentity::parse("https://doc.rust-lang.org/stable/book/title-page.html").unwrap();
    assert_eq!(id.as_str(), "https://doc.rust-lang.org/stable/book/title-page.html");
}

#[test]
fn parse_normalizes_scheme_host_and_path() {
    let id = PageIdentity::parse("HTTPS://Example.COM").unwrap();
    assert_eq!(id.as_str(), "https://example.com/");
    let id = PageIdentity::parse("https://example.com/a/../b/./c.html").unwrap();
    assert_eq!(id.as_str(), "https://example.com/b/c.html");
}

#[test]
fn parse_rejects_what_is_no_absolute_url() {
    assert_eq!(PageIdentity::parse("title-page.html").unwrap_err(), StartupError::MalformedUrl);
    assert_eq!(PageIdentity::parse("").unwrap_err(), StartupError::MalformedUrl);
    assert_eq!(PageIdentity::parse("https://").unwrap_err(), StartupError::MalformedUrl);
}

#[test]
fn resolve_follows_a_relative_link() {
    let base = PageIdentity::parse("https://example.net/a/b.html").unwrap();
    assert_eq!(base.resolve("c.png").unwrap().as_str(), "https://example.net/a/c.png");
    let base = PageIdentity::parse("https://example.net/a/b/").unwrap();
    assert_eq!(base.resolve("c.png").unwrap().as_str(), "https://example.net/a/b/c.png");
    assert_eq!(base.resolve("../up.html").unwrap().as_str(), "https://example.net/a/up.html");
}

#[test]
fn resolve_follows_rooted_and_absolute_links() {
    let base = PageIdentity::parse("https://alice.com/a").unwrap();
    assert_eq!(base.resolve("/v1/meta").unwrap().as_str(), "https://alice.com/v1/meta");
    assert_eq!(base.resolve("//eve.com/b").unwrap().as_str(), "https://eve.com/b");
    assert_eq!(base.resolve("http://eve.com/b").unwrap().as_str(), "http://eve.com/b");
}

#[test]
fn resolve_reports_a_link_that_cannot_be_resolved() {
    let base = PageIdentity::parse("https://example.net/a/b.html").unwrap();
    assert_eq!(base.resolve("https://exa mple.net/").unwrap_err(), LinkResolutionFailure);
    let opaque = PageIdentity::parse("mailto:someone@example.net").unwrap();
    assert_eq!(opaque.resolve("c.png").unwrap_err(), LinkResolutionFailure);
}

#[test]
fn same_page_compares_serializations() {
    let a = PageIdentity::parse("https://example.com/book").unwrap();
    let b = PageIdentity::parse("https://EXAMPLE.com/book").unwrap();
    let c = PageIdentity::parse("https://example.com/book/").unwrap();
    assert!(a.same_page(&b));
    assert!(a.same_page(&a.clone()));
    assert!(!a.same_page(&c));
}
