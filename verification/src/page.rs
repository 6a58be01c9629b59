//! What one fetched page yields: its content fragment and its successor.

use vstd::prelude::*;
use crate::identity::LinkResolutionFailure;
use crate::identity::PageIdentity;
use crate::identity::identity_of;
use crate::identity::joined_url;

verus! {

/// The inner HTML of the first element, in document order, that the CSS
/// selector group `selector` matches in the HTML document `document`, as
/// `scraper` parses, matches and serializes it.  `None` where `selector` is
/// not a valid selector group or matches no element.
pub uninterp spec fn first_inner_html(document: Seq<char>, selector: Seq<char>) -> Option<
    Seq<char>,
>;

/// The value of attribute `name` on the first element, in document order, that
/// the CSS selector group `selector` matches in the HTML document `document`,
/// as `scraper` parses and matches it.  `None` where `selector` is not a valid
/// selector group, matches no element, or the element has no such attribute.
pub uninterp spec fn first_attribute(
    document: Seq<char>,
    selector: Seq<char>,
    name: Seq<char>,
) -> Option<Seq<char>>;

/// The value of the text that `text` holds, if it holds one.
pub open spec fn text_of(text: Option<String>) -> Option<Seq<char>> {
    match text {
        Some(text) => Some(text@),
        None => None,
    }
}

/// Parses `document` with `scraper::Html::parse_document`, takes the first
/// element that `scraper::Selector::parse(selector)` selects and serializes
/// its children with `scraper::ElementRef::inner_html`.
///
/// Trusted: the outcome is a function of the two texts alone, named by
/// [`first_inner_html`].
#[verifier::external_body]
fn select_inner_html(document: &str, selector: &str) -> (found: Option<String>)
    ensures
        text_of(found) == first_inner_html(document@, selector@),
{
    let selector = scraper::Selector::parse(selector).ok()?;
    let document = scraper::Html::parse_document(document);
    document.select(&selector).next().map(|element| element.inner_html())
}

/// Parses `document` with `scraper::Html::parse_document`, takes the first
/// element that `scraper::Selector::parse(selector)` selects and reads its
/// attribute `name` with `scraper::node::Element::attr`.
///
/// Trusted: the outcome is a function of the three texts alone, named by
/// [`first_attribute`].
#[verifier::external_body]
fn select_attribute(document: &str, selector: &str, name: &str) -> (found: Option<String>)
    ensures
        text_of(found) == first_attribute(document@, selector@, name@),
{
    let selector = scraper::Selector::parse(selector).ok()?;
    let document = scraper::Html::parse_document(document);
    let element = document.select(&selector).next()?;
    element.value().attr(name).map(String::from)
}

/// Why a page yielded no content.
#[derive(Clone, Copy, Debug, PartialEq, Eq, Structural)]
pub enum FetchError {
    /// The request could not be carried out.
    NetworkFailure,
    /// The response arrived but its body could not be read as text.
    DecodeFailure,
    /// The page holds no content element.
    ContentNotFound,
}

/// The yield of one successfully fetched page.
#[derive(Debug)]
pub struct Page {
    pub content: String,
    pub next: Option<PageIdentity>,
}

/// The mathematical value of a [`Page`].
pub struct PageView {
    pub content: Seq<char>,
    pub next: Option<Seq<char>>,
}

impl View for Page {
    type V = PageView;

    open spec fn view(&self) -> PageView {
        PageView { content: self.content@, next: identity_of(self.next) }
    }
}

/// The selector of the element whose inner HTML is a page's content.
pub const CONTENT_SELECTOR: &'static str = "main";

/// The selector of the link that leads to a page's successor.
pub const NEXT_LINK_SELECTOR: &'static str = "a[title='Next chapter']";

/// The attribute of the successor link that holds the link's target.
pub const LINK_ATTRIBUTE: &'static str = "href";

/// What was made of a successor link's target: the identity that it resolved
/// to, or the failure to resolve it.
pub open spec fn resolution_view(resolution: Result<PageIdentity, LinkResolutionFailure>) -> Result<
    Seq<char>,
    LinkResolutionFailure,
> {
    match resolution {
        Ok(id) => Ok(id@),
        Err(failure) => Err(failure),
    }
}

/// The value of what was found of a successor link, if one was found.
pub open spec fn link_view(link: Option<Result<PageIdentity, LinkResolutionFailure>>) -> Option<
    Result<Seq<char>, LinkResolutionFailure>,
> {
    match link {
        Some(resolution) => Some(resolution_view(resolution)),
        None => None,
    }
}

/// The successor link of the page at `url` with body `body`: none where the
/// page has no such link or the link has no target, else the identity that
/// the target resolves to, seen from `url`, or the failure to resolve it.
pub open spec fn link_of(url: Seq<char>, body: Seq<char>) -> Option<
    Result<Seq<char>, LinkResolutionFailure>,
> {
    match first_attribute(body, NEXT_LINK_SELECTOR@, LINK_ATTRIBUTE@) {
        Some(target) => Some(
            match joined_url(url, target) {
                Some(id) => Ok(id),
                None => Err(LinkResolutionFailure),
            },
        ),
        None => None,
    }
}

/// What a page is made of once its content and its successor link are known.
///
/// A page without content is a failure, whatever its link.  A page with
/// content names the successor that its link resolved to; a link that could
/// not be resolved counts as no link, and is no failure of the page.
pub open spec fn page_of(
    content: Option<Seq<char>>,
    link: Option<Result<Seq<char>, LinkResolutionFailure>>,
) -> Result<PageView, FetchError> {
    match content {
        Some(content) => Ok(
            PageView {
                content,
                next: match link {
                    Some(Ok(id)) => Some(id),
                    _ => None,
                },
            },
        ),
        None => Err(FetchError::ContentNotFound),
    }
}

/// The mathematical value of a fetch's outcome.
pub open spec fn outcome_view(outcome: Result<Page, FetchError>) -> Result<PageView, FetchError> {
    match outcome {
        Ok(page) => Ok(page@),
        Err(error) => Err(error),
    }
}

/// Puts a page together from the content found on it, if any, and from what
/// was made of its successor link, if it has one.
pub fn compose_page(
    content: Option<String>,
    link: Option<Result<PageIdentity, LinkResolutionFailure>>,
) -> (outcome: Result<Page, FetchError>)
    ensures
        outcome_view(outcome) == page_of(text_of(content), link_view(link)),
{
    match content {
        Some(content) => {
            let next = match link {
                Some(Ok(id)) => Some(id),
                _ => None,
            };
            Ok(Page { content, next })
        },
        None => Err(FetchError::ContentNotFound),
    }
}

/// Extracts from the body of the page at `url` its content fragment and the
/// identity of its successor.
pub fn extract_page(url: &PageIdentity, body: &str) -> (outcome: Result<Page, FetchError>)
    ensures
        outcome_view(outcome) == page_of(
            first_inner_html(body@, CONTENT_SELECTOR@),
            link_of(url@, body@),
        ),
{
    let content = select_inner_html(body, CONTENT_SELECTOR);
    let link = match select_attribute(body, NEXT_LINK_SELECTOR, LINK_ATTRIBUTE) {
        Some(target) => Some(url.resolve(target.as_str())),
        None => None,
    };
    compose_page(content, link)
}

/// What the transport made of the request for a page.
#[derive(Debug)]
pub enum Response {
    /// The request could not be carried out.
    Unreachable,
    /// The response arrived, but its body could not be read as text.
    Undecodable,
    /// The response arrived with this body.
    Body(String),
}

/// What the page at `url` yields, given what the transport made of the
/// request for it: a request that could not be carried out is a network
/// failure, a body that could not be read is a decode failure, and a body
/// that was read yields what can be extracted from it.
pub open spec fn yield_of(url: Seq<char>, response: Response) -> Result<PageView, FetchError> {
    match response {
        Response::Unreachable => Err(FetchError::NetworkFailure),
        Response::Undecodable => Err(FetchError::DecodeFailure),
        Response::Body(body) => page_of(
            first_inner_html(body@, CONTENT_SELECTOR@),
            link_of(url, body@),
        ),
    }
}

/// Says what the page at `url` yields, given what the transport made of the
/// request for it.
pub fn interpret_response(url: &PageIdentity, response: Response) -> (outcome: Result<
    Page,
    FetchError,
>)
    ensures
        outcome_view(outcome) == yield_of(url@, response),
{
    match response {
        Response::Unreachable => Err(FetchError::NetworkFailure),
        Response::Undecodable => Err(FetchError::DecodeFailure),
        Response::Body(body) => extract_page(url, body.as_str()),
    }
}

} // verus!
