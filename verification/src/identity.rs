//! Page identities: normalized absolute URLs.

use vstd::prelude::*;

verus! {

/// The error type of the `url` crate's parser.
#[verifier::external_type_specification]
#[verifier::external_body]
pub struct ExUrlParseError(url::ParseError);

/// The serialization that `url::Url::parse` gives for `input`, or `None`
/// where it rejects `input` as an absolute URL.
pub uninterp spec fn parsed_url(input: Seq<char>) -> Option<Seq<char>>;

/// The serialization of the URL that `url::Url::join` gives for the reference
/// `link` seen from the URL that `url::Url::parse` reads from `base`, or
/// `None` where either of the two fails.
pub uninterp spec fn joined_url(base: Seq<char>, link: Seq<char>) -> Option<Seq<char>>;

/// The serialization that a call of the URL parser came back with, if it
/// came back with one.
pub open spec fn serialization_of(outcome: Result<String, url::ParseError>) -> Option<Seq<char>> {
    match outcome {
        Ok(text) => Some(text@),
        Err(_) => None,
    }
}

/// Calls `url::Url::parse` and hands back the parsed URL's serialization.
///
/// Trusted: the outcome is a function of `input` alone, named by
/// [`parsed_url`]; an error is reported exactly where that name is `None`.
#[verifier::external_body]
fn parse_absolute(input: &str) -> (outcome: Result<String, url::ParseError>)
    ensures
        serialization_of(outcome) == parsed_url(input@),
{
    url::Url::parse(input).map(String::from)
}

/// Calls `url::Url::join` on the URL parsed from `base` and hands back the
/// joined URL's serialization.
///
/// Trusted: the outcome is a function of `base` and `link` alone, named by
/// [`joined_url`]; an error is reported exactly where that name is `None`.
#[verifier::external_body]
fn join_reference(base: &str, link: &str) -> (outcome: Result<String, url::ParseError>)
    ensures
        serialization_of(outcome) == joined_url(base@, link@),
{
    let base = url::Url::parse(base)?;
    base.join(link).map(String::from)
}

/// The start URL could not be read as an absolute URL.
#[derive(Clone, Copy, Debug, PartialEq, Eq, Structural)]
pub enum StartupError {
    MalformedUrl,
}

/// A "next" link could not be resolved to an absolute URL.
#[derive(Clone, Copy, Debug, PartialEq, Eq, Structural)]
pub struct LinkResolutionFailure;

/// The identity of a page: the serialization of a normalized absolute URL.
///
/// Two identities are the same page exactly when their serializations are
/// equal, character for character.  No further normalization is applied, so
/// two URLs that differ only by a trailing slash are two pages.
#[derive(Debug)]
pub struct PageIdentity {
    text: String,
}

impl View for PageIdentity {
    type V = Seq<char>;

    closed spec fn view(&self) -> Seq<char> {
        self.text@
    }
}

impl Clone for PageIdentity {
    fn clone(&self) -> (copy: Self)
        ensures
            copy@ == self@,
    {
        PageIdentity { text: self.text.clone() }
    }
}

/// The value of the identity that `id` holds, if it holds one.
pub open spec fn identity_of(id: Option<PageIdentity>) -> Option<Seq<char>> {
    match id {
        Some(id) => Some(id@),
        None => None,
    }
}

impl PageIdentity {
    /// Reads an absolute URL and normalizes it.
    pub fn parse(input: &str) -> (outcome: Result<PageIdentity, StartupError>)
        ensures
            match outcome {
                Ok(id) => parsed_url(input@) == Some(id@),
                Err(error) => parsed_url(input@) is None && error == StartupError::MalformedUrl,
            },
    {
        match parse_absolute(input) {
            Ok(text) => Ok(PageIdentity { text }),
            Err(_) => Err(StartupError::MalformedUrl),
        }
    }

    /// Resolves `link`, as found on this page, to the identity it refers to.
    pub fn resolve(&self, link: &str) -> (outcome: Result<PageIdentity, LinkResolutionFailure>)
        ensures
            match outcome {
                Ok(id) => joined_url(self@, link@) == Some(id@),
                Err(_) => joined_url(self@, link@) is None,
            },
    {
        match join_reference(self.text.as_str(), link) {
            Ok(text) => Ok(PageIdentity { text }),
            Err(_) => Err(LinkResolutionFailure),
        }
    }

    /// The URL's serialization.
    pub fn as_str(&self) -> (text: &str)
        ensures
            text@ == self@,
    {
        self.text.as_str()
    }

    /// Whether two identities name the same page.
    pub fn same_page(&self, other: &PageIdentity) -> (same: bool)
        ensures
            same == (self@ == other@),
    {
        self.text == other.text
    }
}

} // verus!
