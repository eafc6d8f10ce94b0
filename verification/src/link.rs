//! URLs as the crawler holds them: the normalised text and the origin.

use url::{ParseError, Url};
use vstd::prelude::*;
use vstd::string::StringExecFns;

verus! {

/// `url::Url`: a parsed URL. Nothing inside it is visible here.
#[verifier::external_type_specification]
#[verifier::external_body]
pub struct ExUrl(url::Url);

/// `url::ParseError`: the error that `Url::parse` returns. Nothing inside
/// it is visible here.
#[verifier::external_type_specification]
#[verifier::external_body]
pub struct ExParseError(url::ParseError);

/// The URL that `Url::parse` reads from `input`, or `None` where it rejects
/// the input.
pub uninterp spec fn url_parsed(input: Seq<char>) -> Option<Url>;

/// The serialization of `url`, as `Url::as_str` gives it.
pub uninterp spec fn url_text(url: Url) -> Seq<char>;

/// The ASCII serialization of the origin of `url`: scheme, host and port of
/// a URL that has them, and `null` for any other.
pub uninterp spec fn url_origin(url: Url) -> Seq<char>;

/// `Url::parse`: reads an absolute URL. The result is the URL named by
/// [`url_parsed`]; an error means the input was rejected.
#[verifier::external_body]
fn url_parse(input: &str) -> (r: Result<Url, ParseError>)
    ensures
        match r {
            Ok(url) => url_parsed(input@) == Some(url),
            Err(_) => url_parsed(input@) is None,
        },
{
    Url::parse(input)
}

/// `Url::as_str`: the serialization of the URL, copied into a `String`.
#[verifier::external_body]
fn url_as_string(url: &Url) -> (text: String)
    ensures
        text@ == url_text(*url),
{
    url.as_str().to_owned()
}

/// `Url::origin`, serialized by `Origin::ascii_serialization`. An origin
/// that is no tuple of scheme, host and port serializes as `null`, so the
/// text depends on the URL alone.
#[verifier::external_body]
fn url_origin_string(url: &Url) -> (text: String)
    ensures
        text@ == url_origin(*url),
{
    url.origin().ascii_serialization()
}

/// Why a text is no link.
#[derive(Clone, Copy, Debug, PartialEq, Eq, Structural)]
pub enum LinkError {
    /// The text is not an absolute URL.
    Invalid,
}

/// An absolute URL: its normalised text and the text of its origin.
#[derive(Debug)]
pub struct Link {
    href: String,
    origin: String,
}

/// The path of the robots document below an origin.
pub open spec fn robots_suffix() -> Seq<char> {
    "/robots.txt"@
}

impl Link {
    /// The normalised text of the URL.
    pub closed spec fn href(&self) -> Seq<char> {
        self.href@
    }

    /// The text of the URL's origin.
    pub closed spec fn origin(&self) -> Seq<char> {
        self.origin@
    }

    /// What parsing `input` yields: the text and the origin of the URL it
    /// holds, or `None` where it holds none.
    pub open spec fn parsed(input: Seq<char>) -> Option<(Seq<char>, Seq<char>)> {
        match url_parsed(input) {
            Some(url) => Some((url_text(url), url_origin(url))),
            None => None,
        }
    }

    /// Reads an absolute URL from `input`.
    pub fn parse(input: &str) -> (r: Result<Link, LinkError>)
        ensures
            match r {
                Ok(link) => Link::parsed(input@) == Some((link.href(), link.origin())),
                Err(e) => e == LinkError::Invalid && Link::parsed(input@) is None,
            },
    {
        match url_parse(input) {
            Ok(url) => {
                let href = url_as_string(&url);
                let origin = url_origin_string(&url);
                Ok(Link { href, origin })
            },
            Err(_) => Err(LinkError::Invalid),
        }
    }

    /// The normalised text of the URL.
    pub fn as_str(&self) -> (text: &str)
        ensures
            text@ == self.href(),
    {
        self.href.as_str()
    }

    /// The text of the URL's origin.
    pub fn origin_str(&self) -> (text: &str)
        ensures
            text@ == self.origin(),
    {
        self.origin.as_str()
    }

    /// The location of the robots document of this link's origin. An origin
    /// below which no URL can be formed has none.
    pub fn robots_txt(&self) -> (r: Result<Link, LinkError>)
        ensures
            match r {
                Ok(link) => Link::parsed(self.origin() + robots_suffix()) == Some(
                    (link.href(), link.origin()),
                ),
                Err(e) => e == LinkError::Invalid && Link::parsed(self.origin() + robots_suffix())
                    is None,
            },
    {
        let location = self.origin.clone().concat("/robots.txt");
        Link::parse(location.as_str())
    }
}

impl Clone for Link {
    fn clone(&self) -> (copy: Link)
        ensures
            copy == *self,
    {
        Link { href: self.href.clone(), origin: self.origin.clone() }
    }
}

} // verus!
