//! A cookie as the store keeps it: name and value, the domain and path it
//! is scoped to, when it ends, its flags and its times.

use vstd::prelude::*;
use crate::cookie_domain::{domain_of_raw, CookieDomain, DomainView};
use crate::cookie_expiration::{expiration_of_raw, CookieExpiration};
use crate::cookie_path::{path_match, path_of_raw, CookiePath, PathView};
use crate::error::CookieError;
use crate::raw_cookie::{parsed_cookie, RawCookie, RawCookieView, SameSite};
use crate::request_url::{RequestUrl, UrlView};
use crate::text::str_eq;

verus! {

/// A cookie held by a store. Its domain always names a host or a suffix.
#[derive(Debug, PartialEq, Eq)]
pub struct Cookie {
    name: String,
    value: String,
    domain: CookieDomain,
    path: CookiePath,
    expires: CookieExpiration,
    secure: bool,
    http_only: bool,
    same_site: Option<SameSite>,
    creation_time: i64,
    access_time: i64,
}

/// The fields of a [`Cookie`], for building one and for taking one apart.
#[derive(Debug, PartialEq, Eq)]
pub struct CookieParts {
    pub name: String,
    pub value: String,
    pub domain: CookieDomain,
    pub path: CookiePath,
    pub expires: CookieExpiration,
    pub secure: bool,
    pub http_only: bool,
    pub same_site: Option<SameSite>,
    pub creation_time: i64,
    pub access_time: i64,
}

/// The mathematical value of a [`Cookie`].
pub struct CookieView {
    pub name: Seq<char>,
    pub value: Seq<char>,
    pub domain: DomainView,
    pub path: PathView,
    pub expires: CookieExpiration,
    pub secure: bool,
    pub http_only: bool,
    pub same_site: Option<SameSite>,
    pub creation_time: int,
    pub access_time: int,
}

/// What tells one cookie of a store from another: domain, path and name,
/// each as text.
pub struct CookieKey {
    pub domain: Seq<char>,
    pub path: Seq<char>,
    pub name: Seq<char>,
}

impl CookieView {
    /// The identity of the cookie in a store.
    pub open spec fn key(self) -> CookieKey {
        CookieKey { domain: self.domain.text(), path: self.path.path, name: self.name }
    }

    /// Whether the cookie has ended by time at `now`.
    pub open spec fn expired_at(self, now: int) -> bool {
        self.expires.expired_at(now)
    }

    /// Whether the cookie outlives the session.
    pub open spec fn persistent(self) -> bool {
        self.expires.persistent()
    }

    /// Whether the cookie goes with a request to `url`: its domain covers
    /// the host, its path covers the path, and a secure cookie asks for a
    /// secure scheme.
    pub open spec fn matches(self, url: UrlView) -> bool {
        &&& self.domain.matches(url)
        &&& path_match(self.path.path, url.path)
        &&& (!self.secure || url.is_secure())
    }

    /// The same cookie, created at `t`.
    pub open spec fn created_at(self, t: int) -> CookieView {
        CookieView { creation_time: t, ..self }
    }
}

impl View for CookieParts {
    type V = CookieView;

    open spec fn view(&self) -> CookieView {
        CookieView {
            name: self.name@,
            value: self.value@,
            domain: self.domain@,
            path: self.path@,
            expires: self.expires,
            secure: self.secure,
            http_only: self.http_only,
            same_site: self.same_site,
            creation_time: self.creation_time as int,
            access_time: self.access_time as int,
        }
    }
}

impl View for Cookie {
    type V = CookieView;

    closed spec fn view(&self) -> CookieView {
        CookieView {
            name: self.name@,
            value: self.value@,
            domain: self.domain@,
            path: self.path@,
            expires: self.expires,
            secure: self.secure,
            http_only: self.http_only,
            same_site: self.same_site,
            creation_time: self.creation_time as int,
            access_time: self.access_time as int,
        }
    }
}

/// The domain of a cookie with the attributes `raw` that was sent from
/// `url`: without a `Domain` attribute, the host of `url` alone.
pub open spec fn resolved_domain(raw: RawCookieView, url: UrlView) -> Result<
    DomainView,
    CookieError,
> {
    match domain_of_raw(raw) {
        Err(e) => Err(e),
        Ok(DomainView::NotPresent) => match url.host {
            Some(h) => Ok(DomainView::HostOnly(h.text())),
            None => Err(CookieError::DomainMismatch),
        },
        Ok(d) => Ok(d),
    }
}

/// The suffix on which the public-suffix classifier decides whether the
/// cookie with the attributes `raw`, sent from `url`, is accepted; `None`
/// where the classifier has no say.
pub open spec fn suffix_to_classify(raw: RawCookieView, url: UrlView) -> Option<Seq<char>> {
    match resolved_domain(raw, url) {
        Ok(DomainView::Suffix(s)) if DomainView::Suffix(s).matches(url) => Some(s),
        _ => None,
    }
}

/// Whether `public_suffix` is what the classifier `is_public_suffix` says of
/// the cookie with the attributes `raw`, sent from `url`: one of its answers
/// for the suffix of [`suffix_to_classify`], or `false` where it has no say.
pub open spec fn classified_by<F: Fn(&str) -> bool>(
    is_public_suffix: &F,
    raw: RawCookieView,
    url: UrlView,
    public_suffix: bool,
) -> bool {
    match suffix_to_classify(raw, url) {
        None => !public_suffix,
        Some(s) => exists|d: &str| d@ == s && call_ensures(is_public_suffix, (d,), public_suffix),
    }
}

/// The cookie that the attributes `raw`, sent from `url` and received at
/// `now`, make, where `public_suffix` says whether the classifier holds the
/// suffix of [`suffix_to_classify`] to be a public suffix.
pub open spec fn cookie_of_raw(
    raw: RawCookieView,
    url: UrlView,
    now: int,
    public_suffix: bool,
) -> Result<CookieView, CookieError> {
    match resolved_domain(raw, url) {
        Err(e) => Err(e),
        Ok(domain) => if !domain.matches(url) {
            Err(CookieError::DomainMismatch)
        } else if domain is Suffix && public_suffix {
            Err(CookieError::PublicSuffixRejection)
        } else {
            Ok(
                CookieView {
                    name: raw.name,
                    value: raw.value,
                    domain: domain,
                    path: path_of_raw(raw, url.path),
                    expires: expiration_of_raw(raw, now),
                    secure: raw.secure == Some(true),
                    http_only: raw.http_only == Some(true),
                    same_site: raw.same_site,
                    creation_time: now,
                    access_time: now,
                },
            )
        },
    }
}

/// A cookie that is accepted has a domain that names a host or a suffix and
/// covers the host that sent it, and a suffix that the classifier holds to
/// be public is never accepted.
pub proof fn lemma_accepted_cookie(raw: RawCookieView, url: UrlView, now: int, public_suffix: bool)
    requires
        cookie_of_raw(raw, url, now, public_suffix) is Ok,
    ensures
        ({
            let c = cookie_of_raw(raw, url, now, public_suffix)->Ok_0;
            &&& c.domain.is_named()
            &&& c.domain.matches(url)
            &&& url.host is Some
            &&& c.domain is Suffix ==> !public_suffix
            &&& raw.domain is None ==> c.domain == DomainView::HostOnly(url.host->0.text())
            &&& c.creation_time == now && c.access_time == now
        }),
{
}

/// The view of a result whose value is a cookie.
pub open spec fn cookie_result_view(r: Result<Cookie, CookieError>) -> Result<
    CookieView,
    CookieError,
> {
    match r {
        Ok(c) => Ok(c@),
        Err(e) => Err(e),
    }
}

impl Cookie {
    #[verifier::type_invariant]
    spec fn domain_is_named(&self) -> bool {
        self.domain@.is_named()
    }

    /// The cookie that the attributes `raw`, sent from `request_url` and
    /// received at `now`, make. `public_suffix` is the classifier's answer
    /// for the suffix of [`suffix_to_classify`], if there is one.
    pub fn from_raw_classified(
        raw: &RawCookie,
        request_url: &RequestUrl,
        now: i64,
        public_suffix: bool,
    ) -> (r: Result<Cookie, CookieError>)
        ensures
            cookie_result_view(r) == cookie_of_raw(raw@, request_url@, now as int, public_suffix),
    {
        let domain = match CookieDomain::try_from(raw) {
            Err(e) => { return Err(e); },
            Ok(CookieDomain::NotPresent) => match &request_url.host {
                Some(h) => CookieDomain::host_only(h),
                None => { return Err(CookieError::DomainMismatch); },
            },
            Ok(d) => d,
        };
        if !domain.matches(request_url) {
            return Err(CookieError::DomainMismatch);
        }
        let is_suffix = match &domain {
            CookieDomain::Suffix(_) => true,
            _ => false,
        };
        if is_suffix && public_suffix {
            return Err(CookieError::PublicSuffixRejection);
        }
        Ok(
            Cookie {
                name: raw.name.clone(),
                value: raw.value.clone(),
                domain,
                path: CookiePath::from_raw(raw, request_url),
                expires: CookieExpiration::from_raw(raw, now),
                secure: match raw.secure {
                    Some(b) => b,
                    None => false,
                },
                http_only: match raw.http_only {
                    Some(b) => b,
                    None => false,
                },
                same_site: raw.same_site,
                creation_time: now,
                access_time: now,
            },
        )
    }

    /// Asks `is_public_suffix` about the suffix that the attributes `raw`,
    /// sent from `request_url`, ask for, if that suffix covers the host.
    /// Otherwise the classifier is not called, and the answer is `false`.
    pub fn classify<F: Fn(&str) -> bool>(
        raw: &RawCookie,
        request_url: &RequestUrl,
        is_public_suffix: &F,
    ) -> (public_suffix: bool)
        requires
            forall|d: &str| call_requires(is_public_suffix, (d,)),
        ensures
            classified_by(is_public_suffix, raw@, request_url@, public_suffix),
    {
        match CookieDomain::try_from(raw) {
            Ok(CookieDomain::Suffix(s)) => {
                let suffix = CookieDomain::Suffix(s);
                if suffix.matches(request_url) {
                    match &suffix {
                        CookieDomain::Suffix(t) => is_public_suffix(t.as_str()),
                        _ => false,
                    }
                } else {
                    false
                }
            },
            _ => false,
        }
    }

    /// The cookie that the attributes `raw`, sent from `request_url` and
    /// received at `now`, make. Where the cookie asks for a suffix that
    /// covers the host, `is_public_suffix` is asked whether that suffix is a
    /// public one, and the cookie is refused if it says so.
    pub fn from_raw<F: Fn(&str) -> bool>(
        raw: &RawCookie,
        request_url: &RequestUrl,
        now: i64,
        is_public_suffix: &F,
    ) -> (r: Result<Cookie, CookieError>)
        requires
            forall|d: &str| call_requires(is_public_suffix, (d,)),
        ensures
            exists|public_suffix: bool|
                classified_by(is_public_suffix, raw@, request_url@, public_suffix)
                    && cookie_result_view(r) == cookie_of_raw(
                    raw@,
                    request_url@,
                    now as int,
                    public_suffix,
                ),
    {
        let public_suffix = Cookie::classify(raw, request_url, is_public_suffix);
        Cookie::from_raw_classified(raw, request_url, now, public_suffix)
    }

    /// The cookie that the `Set-Cookie` value `header`, sent from
    /// `request_url` and received at `now`, makes.
    pub fn parse<F: Fn(&str) -> bool>(
        header: &str,
        request_url: &RequestUrl,
        now: i64,
        is_public_suffix: &F,
    ) -> (r: Result<Cookie, CookieError>)
        requires
            forall|d: &str| call_requires(is_public_suffix, (d,)),
        ensures
            match parsed_cookie(header@) {
                None => r == Err::<Cookie, CookieError>(CookieError::RawCookieParse),
                Some(raw) => exists|public_suffix: bool|
                    classified_by(is_public_suffix, raw, request_url@, public_suffix)
                        && cookie_result_view(r) == cookie_of_raw(
                        raw,
                        request_url@,
                        now as int,
                        public_suffix,
                    ),
            },
    {
        match RawCookie::parse(header) {
            Ok(raw) => Cookie::from_raw(&raw, request_url, now, is_public_suffix),
            Err(e) => Err(e),
        }
    }

    /// A cookie with the fields `parts`, or `None` where their domain names
    /// neither a host nor a suffix.
    pub fn from_parts(parts: CookieParts) -> (r: Option<Cookie>)
        ensures
            match r {
                Some(c) => parts@.domain.is_named() && c@ == parts@,
                None => !parts@.domain.is_named(),
            },
    {
        let named = match &parts.domain {
            CookieDomain::HostOnly(_) => true,
            CookieDomain::Suffix(_) => true,
            _ => false,
        };
        if named {
            Some(
                Cookie {
                    name: parts.name,
                    value: parts.value,
                    domain: parts.domain,
                    path: parts.path,
                    expires: parts.expires,
                    secure: parts.secure,
                    http_only: parts.http_only,
                    same_site: parts.same_site,
                    creation_time: parts.creation_time,
                    access_time: parts.access_time,
                },
            )
        } else {
            None
        }
    }

    /// The fields of the cookie.
    pub fn to_parts(&self) -> (r: CookieParts)
        ensures
            r@ == self@,
            r@.domain.is_named(),
    {
        proof {
            use_type_invariant(self);
        }
        CookieParts {
            name: self.name.clone(),
            value: self.value.clone(),
            domain: self.domain.clone(),
            path: self.path.clone(),
            expires: self.expires,
            secure: self.secure,
            http_only: self.http_only,
            same_site: self.same_site,
            creation_time: self.creation_time,
            access_time: self.access_time,
        }
    }

    /// The same cookie, created at `creation_time`.
    pub fn with_creation_time(self, creation_time: i64) -> (r: Cookie)
        ensures
            r@ == self@.created_at(creation_time as int),
    {
        proof {
            use_type_invariant(&self);
        }
        Cookie {
            name: self.name,
            value: self.value,
            domain: self.domain,
            path: self.path,
            expires: self.expires,
            secure: self.secure,
            http_only: self.http_only,
            same_site: self.same_site,
            creation_time,
            access_time: self.access_time,
        }
    }

    /// Whether the cookie goes with a request to `request_url`.
    pub fn matches(&self, request_url: &RequestUrl) -> (r: bool)
        ensures
            r == self@.matches(request_url@),
    {
        self.domain.matches(request_url) && self.path.matches(request_url.path.as_str()) && (
        !self.secure || request_url.is_secure())
    }

    /// Whether the cookie has ended by time at `now`. A session cookie never
    /// has.
    pub fn is_expired(&self, now: i64) -> (r: bool)
        ensures
            r == self@.expired_at(now as int),
    {
        self.expires.is_expired(now)
    }

    /// Whether the cookie outlives the session.
    pub fn is_persistent(&self) -> (r: bool)
        ensures
            r == self@.persistent(),
    {
        self.expires.is_persistent()
    }

    /// Whether the cookie has the identity given by `domain`, `path` and
    /// `name`.
    pub fn has_key(&self, domain: &str, path: &str, name: &str) -> (r: bool)
        ensures
            r == (self@.key() == CookieKey { domain: domain@, path: path@, name: name@ }),
    {
        str_eq(self.name.as_str(), name) && str_eq(self.path.as_str(), path) && str_eq(
            self.domain.as_str(),
            domain,
        )
    }

    /// Whether the two cookies have the same identity.
    pub fn same_key(&self, other: &Cookie) -> (r: bool)
        ensures
            r == (self@.key() == other@.key()),
    {
        self.has_key(other.domain.as_str(), other.path.as_str(), other.name.as_str())
    }

    /// The name of the cookie.
    pub fn name(&self) -> (r: &str)
        ensures
            r@ == self@.name,
    {
        self.name.as_str()
    }

    /// The value of the cookie.
    pub fn value(&self) -> (r: &str)
        ensures
            r@ == self@.value,
    {
        self.value.as_str()
    }

    /// The name and the value as they stand in a `Cookie` header: joined by
    /// `'='`.
    pub fn pair(&self) -> (r: String)
        ensures
            r@ == self@.name + seq!['='] + self@.value,
    {
        proof {
            reveal_strlit("=");
            assert("="@ =~= seq!['=']);
        }
        self.name.clone().concat("=").concat(self.value.as_str())
    }

    /// The domain of the cookie.
    pub fn domain(&self) -> (r: &CookieDomain)
        ensures
            r@ == self@.domain,
            r@.is_named(),
    {
        proof {
            use_type_invariant(self);
        }
        &self.domain
    }

    /// The path of the cookie.
    pub fn path(&self) -> (r: &CookiePath)
        ensures
            r@ == self@.path,
    {
        &self.path
    }

    /// When the cookie ends.
    pub fn expires(&self) -> (r: CookieExpiration)
        ensures
            r == self@.expires,
    {
        self.expires
    }

    /// Whether the cookie is sent over secure schemes only.
    pub fn secure(&self) -> (r: bool)
        ensures
            r == self@.secure,
    {
        self.secure
    }

    /// Whether the cookie is kept from scripts.
    pub fn http_only(&self) -> (r: bool)
        ensures
            r == self@.http_only,
    {
        self.http_only
    }

    /// The `SameSite` attribute, if there was one.
    pub fn same_site(&self) -> (r: Option<SameSite>)
        ensures
            r == self@.same_site,
    {
        self.same_site
    }

    /// When the cookie was first stored.
    pub fn creation_time(&self) -> (r: i64)
        ensures
            r == self@.creation_time,
    {
        self.creation_time
    }

    /// When the cookie was last set.
    pub fn access_time(&self) -> (r: i64)
        ensures
            r == self@.access_time,
    {
        self.access_time
    }
}

impl Clone for Cookie {
    fn clone(&self) -> (r: Cookie)
        ensures
            r@ == self@,
    {
        proof {
            use_type_invariant(self);
        }
        Cookie {
            name: self.name.clone(),
            value: self.value.clone(),
            domain: self.domain.clone(),
            path: self.path.clone(),
            expires: self.expires,
            secure: self.secure,
            http_only: self.http_only,
            same_site: self.same_site,
            creation_time: self.creation_time,
            access_time: self.access_time,
        }
    }
}

impl Clone for CookieParts {
    fn clone(&self) -> (r: CookieParts)
        ensures
            r == *self,
    {
        CookieParts {
            name: self.name.clone(),
            value: self.value.clone(),
            domain: self.domain.clone(),
            path: self.path.clone(),
            expires: self.expires,
            secure: self.secure,
            http_only: self.http_only,
            same_site: self.same_site,
            creation_time: self.creation_time,
            access_time: self.access_time,
        }
    }
}

} // verus!
