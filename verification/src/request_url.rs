//! The parts of a request URL that cookie handling reads.

use vstd::prelude::*;
use crate::text::str_eq;

verus! {

/// The host of a URL, as the URL parser tells names from IP literals.
#[derive(Debug, PartialEq, Eq)]
pub enum Host {
    /// A registered name, such as `example.com`.
    Name(String),
    /// An IP address literal, written as in the URL (IPv6 in brackets).
    Ip(String),
}

/// The mathematical value of a [`Host`].
pub enum HostView {
    Name(Seq<char>),
    Ip(Seq<char>),
}

impl HostView {
    /// The host as text, whatever its kind.
    pub open spec fn text(self) -> Seq<char> {
        match self {
            HostView::Name(t) => t,
            HostView::Ip(t) => t,
        }
    }
}

impl View for Host {
    type V = HostView;

    open spec fn view(&self) -> HostView {
        match self {
            Host::Name(t) => HostView::Name(t@),
            Host::Ip(t) => HostView::Ip(t@),
        }
    }
}

impl Clone for Host {
    fn clone(&self) -> (r: Host)
        ensures
            r == *self,
    {
        match self {
            Host::Name(t) => Host::Name(t.clone()),
            Host::Ip(t) => Host::Ip(t.clone()),
        }
    }
}

impl Clone for RequestUrl {
    fn clone(&self) -> (r: RequestUrl)
        ensures
            r == *self,
    {
        RequestUrl {
            text: self.text.clone(),
            scheme: self.scheme.clone(),
            host: match &self.host {
                Some(h) => Some(h.clone()),
                None => None,
            },
            path: self.path.clone(),
        }
    }
}

impl Host {
    /// The host as text, whatever its kind.
    pub fn as_str(&self) -> (r: &str)
        ensures
            r@ == self@.text(),
    {
        match self {
            Host::Name(t) => t.as_str(),
            Host::Ip(t) => t.as_str(),
        }
    }

    /// Whether the host is a registered name rather than an IP literal.
    pub fn is_name(&self) -> (r: bool)
        ensures
            r == (self@ is Name),
    {
        match self {
            Host::Name(_) => true,
            Host::Ip(_) => false,
        }
    }
}

/// A URL, and what cookie handling reads of it: its scheme, its host if it
/// has one, and its path.
#[derive(Debug, PartialEq, Eq)]
pub struct RequestUrl {
    /// The whole URL.
    pub text: String,
    pub scheme: String,
    pub host: Option<Host>,
    pub path: String,
}

/// The mathematical value of a [`RequestUrl`].
pub struct UrlView {
    pub text: Seq<char>,
    pub scheme: Seq<char>,
    pub host: Option<HostView>,
    pub path: Seq<char>,
}

impl UrlView {
    /// Whether the scheme is `https`.
    pub open spec fn is_secure(self) -> bool {
        self.scheme == seq!['h', 't', 't', 'p', 's']
    }
}

impl View for RequestUrl {
    type V = UrlView;

    open spec fn view(&self) -> UrlView {
        UrlView {
            text: self.text@,
            scheme: self.scheme@,
            host: match self.host {
                Some(h) => Some(h@),
                None => None,
            },
            path: self.path@,
        }
    }
}

/// The error of the `url` crate's parser.
#[verifier::external_type_specification]
#[verifier::external_body]
pub struct ExUrlParseError(url::ParseError);

/// A string that is not an absolute URL.
#[derive(Debug)]
pub struct UrlParseError {
    /// What the parser objected to.
    pub cause: url::ParseError,
}

/// What `url::Url::parse` makes of `input`: the text, scheme, host and path
/// of the URL it yields, or `None` where it reports an error.
pub uninterp spec fn parsed_url(input: Seq<char>) -> Option<UrlView>;

/// Calls `url::Url::parse` and copies the serialization, the scheme, the
/// host and the path out of the URL it returns. A domain host becomes
/// [`Host::Name`], an IPv4 or IPv6 host becomes [`Host::Ip`] with the text
/// that the URL serializes it to. The parser reads nothing but `input`, so
/// the result is a function of it, named [`parsed_url`].
#[verifier::external_body]
fn url_parts(input: &str) -> (r: Result<RequestUrl, url::ParseError>)
    ensures
        match r {
            Ok(u) => parsed_url(input@) == Some(u@),
            Err(_) => parsed_url(input@) is None,
        },
{
    let u = url::Url::parse(input)?;
    let host = match u.host() {
        Some(url::Host::Domain(d)) => Some(Host::Name(d.to_owned())),
        Some(url::Host::Ipv4(_)) | Some(url::Host::Ipv6(_)) => u.host_str().map(
            |h| Host::Ip(h.to_owned()),
        ),
        None => None,
    };
    let (scheme, path) = (u.scheme().to_owned(), u.path().to_owned());
    Ok(RequestUrl { text: u.as_str().to_owned(), scheme, host, path })
}

impl RequestUrl {
    /// Parses an absolute URL.
    pub fn parse(input: &str) -> (r: Result<RequestUrl, UrlParseError>)
        ensures
            match r {
                Ok(u) => parsed_url(input@) == Some(u@),
                Err(_) => parsed_url(input@) is None,
            },
    {
        match url_parts(input) {
            Ok(u) => Ok(u),
            Err(cause) => Err(UrlParseError { cause }),
        }
    }

    /// The host as text, if the URL has one.
    pub fn host_str(&self) -> (r: Option<&str>)
        ensures
            match r {
                Some(h) => self@.host is Some && h@ == self@.host->0.text(),
                None => self@.host is None,
            },
    {
        match &self.host {
            Some(h) => Some(h.as_str()),
            None => None,
        }
    }

    /// Whether the scheme is `https`.
    pub fn is_secure(&self) -> (r: bool)
        ensures
            r == self@.is_secure(),
    {
        proof {
            reveal_strlit("https");
            assert("https"@ =~= seq!['h', 't', 't', 'p', 's']);
        }
        str_eq(self.scheme.as_str(), "https")
    }
}

} // verus!
