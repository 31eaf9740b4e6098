//! A cookie as its `Set-Cookie` value reads, before it is tied to the host
//! that sent it.

use cookie::SameSite as Parsed;
use vstd::prelude::*;
use crate::error::CookieError;

verus! {

/// The `SameSite` attribute of a cookie.
#[derive(Debug, Clone, Copy, PartialEq, Eq, Structural)]
pub enum SameSite {
    /// Sent with same-site requests only.
    Strict,
    /// Sent with same-site requests and with top-level navigation.
    Lax,
    /// Sent with cross-site requests too.
    CrossSite,
}

/// The name, the value and the attributes of a `Set-Cookie` value.
///
/// Times are in seconds: `max_age` is a span, `expires` a point in time
/// counted from 1970-01-01T00:00:00Z.
#[derive(Debug, PartialEq, Eq)]
pub struct RawCookie {
    pub name: String,
    pub value: String,
    pub domain: Option<String>,
    pub path: Option<String>,
    pub max_age: Option<i64>,
    pub expires: Option<i64>,
    pub secure: Option<bool>,
    pub http_only: Option<bool>,
    pub same_site: Option<SameSite>,
}

/// The mathematical value of a [`RawCookie`].
pub struct RawCookieView {
    pub name: Seq<char>,
    pub value: Seq<char>,
    pub domain: Option<Seq<char>>,
    pub path: Option<Seq<char>>,
    pub max_age: Option<int>,
    pub expires: Option<int>,
    pub secure: Option<bool>,
    pub http_only: Option<bool>,
    pub same_site: Option<SameSite>,
}

/// The view of an optional string.
pub open spec fn option_text(s: Option<String>) -> Option<Seq<char>> {
    match s {
        Some(t) => Some(t@),
        None => None,
    }
}

/// An optional machine integer as a mathematical one.
pub open spec fn option_int(i: Option<i64>) -> Option<int> {
    match i {
        Some(v) => Some(v as int),
        None => None,
    }
}

impl View for RawCookie {
    type V = RawCookieView;

    open spec fn view(&self) -> RawCookieView {
        RawCookieView {
            name: self.name@,
            value: self.value@,
            domain: option_text(self.domain),
            path: option_text(self.path),
            max_age: option_int(self.max_age),
            expires: option_int(self.expires),
            secure: self.secure,
            http_only: self.http_only,
            same_site: self.same_site,
        }
    }
}

/// A copy of an optional string.
fn clone_text(s: &Option<String>) -> (r: Option<String>)
    ensures
        r == *s,
{
    match s {
        Some(t) => Some(t.clone()),
        None => None,
    }
}

impl Clone for RawCookie {
    fn clone(&self) -> (r: RawCookie)
        ensures
            r == *self,
    {
        RawCookie {
            name: self.name.clone(),
            value: self.value.clone(),
            domain: clone_text(&self.domain),
            path: clone_text(&self.path),
            max_age: self.max_age,
            expires: self.expires,
            secure: self.secure,
            http_only: self.http_only,
            same_site: self.same_site,
        }
    }
}

/// The views of a list of raw cookies.
pub open spec fn raw_views(cookies: Seq<RawCookie>) -> Seq<RawCookieView> {
    cookies.map_values(|c: RawCookie| c@)
}

/// The error of the `cookie` crate's parser.
#[verifier::external_type_specification]
#[verifier::external_body]
pub struct ExCookieParseError(cookie::ParseError);

/// What `cookie::Cookie::parse` makes of `header`: the cookie it yields, as
/// that cookie's accessors show it, or `None` where it reports an error.
pub uninterp spec fn parsed_cookie(header: Seq<char>) -> Option<RawCookieView>;

/// Calls `cookie::Cookie::parse` and copies out of the cookie it returns
/// what its accessors `name`, `value`, `domain`, `path`, `max_age`,
/// `expires_datetime`, `secure`, `http_only` and `same_site` give, the span
/// in whole seconds and the date as a Unix timestamp. The parser reads
/// nothing but `header`, so the result is a function of it, named
/// [`parsed_cookie`].
#[verifier::external_body]
fn cookie_parts(header: &str) -> (r: Result<RawCookie, cookie::ParseError>)
    ensures
        match r {
            Ok(c) => parsed_cookie(header@) == Some(c@),
            Err(_) => parsed_cookie(header@) is None,
        },
{
    let c = cookie::Cookie::parse(header)?;
    Ok(RawCookie {
        name: c.name().into(),
        value: c.value().into(),
        domain: c.domain().map(String::from),
        path: c.path().map(String::from),
        max_age: c.max_age().map(|d| d.whole_seconds()),
        expires: c.expires_datetime().map(|t| t.unix_timestamp()),
        secure: c.secure(),
        http_only: c.http_only(),
        same_site: c.same_site().map(|s| match s {
            Parsed::Strict => SameSite::Strict, Parsed::Lax => SameSite::Lax,
            Parsed::None => SameSite::CrossSite,
        }),
    })
}

/// The cookies among `headers` that parse, in order.
pub open spec fn parsed_cookies(headers: Seq<Seq<char>>) -> Seq<RawCookieView>
    decreases headers.len(),
{
    if headers.len() == 0 {
        Seq::empty()
    } else {
        match parsed_cookie(headers.last()) {
            Some(c) => parsed_cookies(headers.drop_last()).push(c),
            None => parsed_cookies(headers.drop_last()),
        }
    }
}

impl RawCookie {
    /// Parses a `Set-Cookie` value.
    pub fn parse(header: &str) -> (r: Result<RawCookie, CookieError>)
        ensures
            match r {
                Ok(c) => parsed_cookie(header@) == Some(c@),
                Err(e) => e == CookieError::RawCookieParse && parsed_cookie(header@) is None,
            },
    {
        match cookie_parts(header) {
            Ok(c) => Ok(c),
            Err(_) => Err(CookieError::RawCookieParse),
        }
    }

    /// Parses each of the `Set-Cookie` values of a response. A value that
    /// does not parse is left out; the others are kept.
    pub fn parse_all(headers: &Vec<String>) -> (r: Vec<RawCookie>)
        ensures
            raw_views(r@) == parsed_cookies(headers@.map_values(|h: String| h@)),
    {
        let ghost texts = headers@.map_values(|h: String| h@);
        let mut cookies: Vec<RawCookie> = Vec::new();
        let mut i: usize = 0;
        assert(texts.take(0) =~= Seq::empty());
        assert(raw_views(cookies@) =~= Seq::empty());
        while i < headers.len()
            invariant
                i <= headers.len(),
                texts == headers@.map_values(|h: String| h@),
                raw_views(cookies@) == parsed_cookies(texts.take(i as int)),
            decreases headers.len() - i,
        {
            let ghost before = raw_views(cookies@);
            assert(texts.take(i + 1).drop_last() =~= texts.take(i as int));
            assert(texts.take(i + 1).last() == headers@[i as int]@);
            match RawCookie::parse(headers[i].as_str()) {
                Ok(c) => {
                    cookies.push(c);
                    assert(raw_views(cookies@) =~= before.push(c@));
                },
                Err(_) => {},
            }
            i += 1;
        }
        assert(texts.take(i as int) =~= texts);
        cookies
    }
}

} // verus!
