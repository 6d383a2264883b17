//! The parts of a URI that requests are made from.

use vstd::prelude::*;

verus! {

/// The parts of an HTTP request URI.
#[derive(Debug)]
pub struct Uri {
    pub scheme: Option<String>,
    pub authority: Option<String>,
    pub host: Option<String>,
    pub port: Option<u16>,
    pub path_and_query: Option<String>,
}

/// The characters of the parts of a URI.
pub struct UriParts {
    pub scheme: Option<Seq<char>>,
    pub authority: Option<Seq<char>>,
    pub host: Option<Seq<char>>,
    pub port: Option<u16>,
    pub path_and_query: Option<Seq<char>>,
}

/// The characters of an optional text.
pub open spec fn chars_of(text: Option<String>) -> Option<Seq<char>> {
    match text {
        Some(text) => Some(text@),
        None => None,
    }
}

impl View for Uri {
    type V = UriParts;

    open spec fn view(&self) -> UriParts {
        UriParts {
            scheme: chars_of(self.scheme),
            authority: chars_of(self.authority),
            host: chars_of(self.host),
            port: self.port,
            path_and_query: chars_of(self.path_and_query),
        }
    }
}

/// What `http::Uri` parses a text into, `None` where it refuses the text.
pub uninterp spec fn http_uri(text: Seq<char>) -> Option<UriParts>;

/// `<http::Uri as FromStr>::from_str` and the getters of its result.
#[verifier::external_body]
fn parse_http_uri(text: &str) -> (r: Option<Uri>)
    ensures
        match r {
            Some(uri) => http_uri(text@) == Some(uri@),
            None => http_uri(text@) is None,
        },
{
    let uri: http::Uri = text.parse().ok()?;
    Some(
        Uri {
            scheme: uri.scheme_str().map(str::to_owned),
            authority: uri.authority().map(|a| a.as_str().to_owned()),
            host: uri.host().map(str::to_owned),
            port: uri.port_u16(),
            path_and_query: uri.path_and_query().map(|p| p.as_str().to_owned()),
        },
    )
}

impl Uri {
    /// Parses a URI. `None` where the text is none.
    pub fn parse(text: &str) -> (r: Option<Uri>)
        ensures
            match r {
                Some(uri) => http_uri(text@) == Some(uri@),
                None => http_uri(text@) is None,
            },
    {
        parse_http_uri(text)
    }

    /// The same URI once more.
    pub fn copy(&self) -> (r: Uri)
        ensures
            r@ == self@,
    {
        Uri {
            scheme: self.scheme.clone(),
            authority: self.authority.clone(),
            host: self.host.clone(),
            port: self.port,
            path_and_query: self.path_and_query.clone(),
        }
    }
}

/// The parts of a web address.
#[derive(Debug)]
pub struct Url {
    /// The whole address in normal form.
    pub text: String,
    pub scheme: String,
    pub host: Option<String>,
    /// The port, where it is not the default of the scheme.
    pub port: Option<u16>,
    /// The port, or the default of a well-known scheme.
    pub known_port: Option<u16>,
}

/// The characters of the parts of a web address.
pub struct UrlParts {
    pub text: Seq<char>,
    pub scheme: Seq<char>,
    pub host: Option<Seq<char>>,
    pub port: Option<u16>,
    pub known_port: Option<u16>,
}

impl View for Url {
    type V = UrlParts;

    open spec fn view(&self) -> UrlParts {
        UrlParts {
            text: self.text@,
            scheme: self.scheme@,
            host: chars_of(self.host),
            port: self.port,
            known_port: self.known_port,
        }
    }
}

/// What `url::Url` parses a text into, `None` where it refuses the text.
pub uninterp spec fn web_url(text: Seq<char>) -> Option<UrlParts>;

/// `url::Url::parse` and the getters of its result.
#[verifier::external_body]
fn parse_web_url(text: &str) -> (r: Option<Url>)
    ensures
        match r {
            Some(url) => web_url(text@) == Some(url@),
            None => web_url(text@) is None,
        },
{
    let url = url::Url::parse(text).ok()?;
    Some(
        Url {
            text: url.as_str().to_owned(),
            scheme: url.scheme().to_owned(),
            host: url.host_str().map(str::to_owned),
            port: url.port(),
            known_port: url.port_or_known_default(),
        },
    )
}

impl Url {
    /// Parses a web address. `None` where the text is none.
    pub fn parse(text: &str) -> (r: Option<Url>)
        ensures
            match r {
                Some(url) => web_url(text@) == Some(url@),
                None => web_url(text@) is None,
            },
    {
        parse_web_url(text)
    }
}

} // verus!
