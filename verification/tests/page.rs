use chapter_crawler::identity::LinkResolutionFailure;
use chapter_crawler::identity::PageIdentity;
use chapter_crawler::page::compose_page;
use chapter_crawler::page::extract_page;
use chapter_crawler::page::interpret_response;
use chapter_crawler::page::Response;
use chapter_crawler::page::FetchError;
use chapter_crawler::page::CONTENT_SELECTOR;
use chapter_crawler::page::LINK_ATTRIBUTE;
use chapter_crawler::page::NEXT_LINK_SELECTOR;

fn at(url: &str) -> PageIdentity {
    PageIdentity::parse(url).unwrap()
}

#[test]
fn extract_takes_content_and_successor() {
    let body = "<html><head><title>t</title></head><body><nav>skip</nav>\
        <main><h1>One</h1><p>First chapter.</p></main>\
        <a title=\"Next chapter\" href=\"ch02.html\">next</a></body></html>";
    let page = extract_page(&at("https://example.com/book/ch01.html"), body).unwrap();
    assert_eq!(page.content, "<h1>One</h1><p>First chapter.</p>");
    assert_eq!(page.next.unwrap().as_str(), "https://example.com/book/ch02.html");
}

#[test]
fn extract_takes_the_first_of_several_matches() {
    let body = "<body><main>A</main><main>B</main>\
        <a title=\"Next chapter\" href=\"first.html\">1</a>\
        <a title=\"Next chapter\" href=\"second.html\">2</a></body>";
    let page = extract_page(&at("https://example.com/x/"), body).unwrap();
    assert_eq!(page.content, "A");
    assert_eq!(page.next.unwrap().as_str(), "https://example.com/x/first.html");
}

#[test]
fn extract_without_link_names_no_successor() {
    let body = "<body><main>Last</main><a title=\"Previous chapter\" href=\"ch01.html\">back</a></body>";
    let page = extract_page(&at("https://example.com/book/ch02.html"), body).unwrap();
    assert_eq!(page.content, "Last");
    assert!(page.next.is_none());
}

#[test]
fn extract_with_link_without_target_names_no_successor() {
    let body = "<body><main>Text</main><a title=\"Next chapter\">next</a></body>";
    let page = extract_page(&at("https://example.com/book/ch02.html"), body).unwrap();
    assert_eq!(page.content, "Text");
    assert!(page.next.is_none());
}

#[test]
fn extract_with_unresolvable_link_names_no_successor() {
    let body = "<body><main>Text</main><a title=\"Next chapter\" href=\"https://exa mple.com/\">next</a></body>";
    let page = extract_page(&at("https://example.com/book/ch02.html"), body).unwrap();
    assert_eq!(page.content, "Text");
    assert!(page.next.is_none());
}

#[test]
fn extract_without_content_fails() {
    let body = "<body><div>No main element</div><a title=\"Next chapter\" href=\"ch02.html\">next</a></body>";
    let outcome = extract_page(&at("https://example.com/book/ch01.html"), body);
    assert_eq!(outcome.unwrap_err(), FetchError::ContentNotFound);
    assert_eq!(
        extract_page(&at("https://example.com/"), "").unwrap_err(),
        FetchError::ContentNotFound
    );
}

#[test]
fn extract_gives_empty_content_for_an_empty_element() {
    let page = extract_page(&at("https://example.com/"), "<main></main>").unwrap();
    assert_eq!(page.content, "");
    assert!(page.next.is_none());
}

#[test]
fn compose_needs_content() {
    let next = at("https://example.com/next");
    assert_eq!(compose_page(None, Some(Ok(next))).unwrap_err(), FetchError::ContentNotFound);
    assert_eq!(
        compose_page(None, Some(Err(LinkResolutionFailure))).unwrap_err(),
        FetchError::ContentNotFound
    );
    assert_eq!(compose_page(None, None).unwrap_err(), FetchError::ContentNotFound);
}

#[test]
fn compose_keeps_content_and_successor() {
    let page =
        compose_page(Some("body".to_string()), Some(Ok(at("https://example.com/next")))).unwrap();
    assert_eq!(page.content, "body");
    assert_eq!(page.next.unwrap().as_str(), "https://example.com/next");
    let page = compose_page(Some("body".to_string()), None).unwrap();
    assert_eq!(page.content, "body");
    assert!(page.next.is_none());
}

#[test]
fn compose_takes_an_unresolved_link_for_no_link() {
    let page = compose_page(Some("body".to_string()), Some(Err(LinkResolutionFailure))).unwrap();
    assert_eq!(page.content, "body");
    assert!(page.next.is_none());
}

#[test]
fn the_selectors_are_the_fixed_ones() {
    assert_eq!(CONTENT_SELECTOR, "main");
    assert_eq!(NEXT_LINK_SELECTOR, "a[title='Next chapter']");
    assert_eq!(LINK_ATTRIBUTE, "href");
}

#[test]
fn a_request_that_failed_is_a_network_failure() {
    let outcome = interpret_response(&at("https://example.com/"), Response::Unreachable);
    assert_eq!(outcome.unwrap_err(), FetchError::NetworkFailure);
}

#[test]
fn a_body_that_cannot_be_read_is_a_decode_failure() {
    let outcome = interpret_response(&at("https://example.com/"), Response::Undecodable);
    assert_eq!(outcome.unwrap_err(), FetchError::DecodeFailure);
}

#[test]
fn a_body_that_was_read_is_extracted() {
    let body = "<main>Text</main><a href=\"b.html\" title=\"Next chapter\">n</a>".to_string();
    let page = interpret_response(&at("https://example.com/a.html"), Response::Body(body)).unwrap();
    assert_eq!(page.content, "Text");
    assert_eq!(page.next.unwrap().as_str(), "https://example.com/b.html");
    let outcome =
        interpret_response(&at("https://example.com/"), Response::Body("<p>none</p>".to_string()));
    assert_eq!(outcome.unwrap_err(), FetchError::ContentNotFound);
}

#[test]
fn extract_copes_with_malformed_markup() {
    let url = at("https://example.com/book/");
    let page = extract_page(&url, "<main><p>unclosed <b>bold<table><tr><td>cell</main>").unwrap();
    assert!(page.content.contains("unclosed"));
    assert!(page.next.is_none());
    let page = extract_page(&url, "<template><p>t</p></template><main>m</main>").unwrap();
    assert_eq!(page.content, "m");
    let outcome = extract_page(&url, "<<<>>></main><a title='Next chapter' href='x'>");
    assert_eq!(outcome.unwrap_err(), FetchError::ContentNotFound);
}

#[test]
fn extract_keeps_text_beyond_ascii() {
    let body = "<main><p>Grüße, 世界 — ünïcödé</p></main>\
        <a title=\"Next chapter\" href=\"kapitel zwei.html\">weiter</a>";
    let page = extract_page(&at("https://example.com/buch/eins.html"), body).unwrap();
    assert_eq!(page.content, "<p>Grüße, 世界 — ünïcödé</p>");
    assert_eq!(page.next.unwrap().as_str(), "https://example.com/buch/kapitel%20zwei.html");
}

#[test]
fn extract_escapes_text_and_orders_attributes_by_name() {
    let body = "<main><a id=\"z\" class=\"c\" href=\"h\">1 &lt; 2 &amp; 3</a></main>";
    let page = extract_page(&at("https://example.com/"), body).unwrap();
    assert_eq!(page.content, "<a class=\"c\" href=\"h\" id=\"z\">1 &lt; 2 &amp; 3</a>");
}
