//! The domain that a cookie is scoped to, and domain matching.

use std::borrow::Cow;
use vstd::prelude::*;
use vstd::std_specs::convert::{FromSpecImpl, TryFromSpecImpl};
use crate::error::CookieError;
use crate::raw_cookie::{RawCookie, RawCookieView};
use crate::request_url::{Host, HostView, RequestUrl, UrlView};
use crate::text::{chars_of, str_eq, strip_leading_dots, trim, trimmed, without_leading_dots};

verus! {

/// The domain of a cookie.
#[derive(PartialEq, Eq, Debug, Hash, PartialOrd, Ord)]
pub enum CookieDomain {
    /// No `Domain` attribute was sent: the cookie belongs to the one host
    /// that set it.
    HostOnly(String),
    /// The `Domain` attribute, without leading dots: the cookie belongs to
    /// that domain and to the names below it.
    Suffix(String),
    /// No `Domain` attribute was sent, and the host is not yet known.
    NotPresent,
    /// The `Domain` attribute was sent and is empty. Matches nothing.
    Empty,
}

/// The mathematical value of a [`CookieDomain`].
pub enum DomainView {
    HostOnly(Seq<char>),
    Suffix(Seq<char>),
    NotPresent,
    Empty,
}

impl View for CookieDomain {
    type V = DomainView;

    open spec fn view(&self) -> DomainView {
        match self {
            CookieDomain::HostOnly(h) => DomainView::HostOnly(h@),
            CookieDomain::Suffix(s) => DomainView::Suffix(s@),
            CookieDomain::NotPresent => DomainView::NotPresent,
            CookieDomain::Empty => DomainView::Empty,
        }
    }
}

impl Clone for CookieDomain {
    fn clone(&self) -> (r: CookieDomain)
        ensures
            r == *self,
    {
        match self {
            CookieDomain::HostOnly(h) => CookieDomain::HostOnly(h.clone()),
            CookieDomain::Suffix(s) => CookieDomain::Suffix(s.clone()),
            CookieDomain::NotPresent => CookieDomain::NotPresent,
            CookieDomain::Empty => CookieDomain::Empty,
        }
    }
}

/// Whether `host` ends with `suffix` and has a `'.'` just before it.
pub open spec fn ends_with_after_dot(host: Seq<char>, suffix: Seq<char>) -> bool {
    &&& host.len() > suffix.len()
    &&& host.skip(host.len() - suffix.len()) == suffix
    &&& host[host.len() - suffix.len() - 1] == '.'
}

impl DomainView {
    /// The domain as text; empty where there is none.
    pub open spec fn text(self) -> Seq<char> {
        match self {
            DomainView::HostOnly(h) => h,
            DomainView::Suffix(s) => s,
            DomainView::NotPresent => Seq::empty(),
            DomainView::Empty => Seq::empty(),
        }
    }

    /// Whether the domain names a host or a suffix, so that it has a text.
    pub open spec fn is_named(self) -> bool {
        self is HostOnly || self is Suffix
    }

    /// A suffix is not empty and does not begin with a dot.
    pub open spec fn well_formed(self) -> bool {
        match self {
            DomainView::Suffix(s) => s.len() > 0 && s[0] != '.',
            _ => true,
        }
    }

    /// Domain matching against a host.
    pub open spec fn matches_host(self, host: HostView) -> bool {
        match self {
            DomainView::HostOnly(h) => h == host.text(),
            DomainView::Suffix(s) => s == host.text() || (host is Name && ends_with_after_dot(
                host.text(),
                s,
            )),
            DomainView::NotPresent => false,
            DomainView::Empty => false,
        }
    }

    /// Domain matching against the host of a URL. A URL without a host is
    /// matched by no domain.
    pub open spec fn matches(self, url: UrlView) -> bool {
        match url.host {
            Some(host) => self.matches_host(host),
            None => false,
        }
    }
}

/// What `idna::domain_to_ascii` makes of `domain`: its ASCII form, or `None`
/// where it reports an error.
pub uninterp spec fn ascii_domain(domain: Seq<char>) -> Option<Seq<char>>;

/// The error of `idna::domain_to_ascii`.
#[verifier::external_type_specification]
#[verifier::external_body]
pub struct ExIdnaErrors(idna::Errors);

/// `idna::domain_to_ascii` maps a domain to its ASCII form by UTS #46
/// processing with the data compiled into the crate. Its result is a
/// function of `domain` alone, named [`ascii_domain`].
pub assume_specification[ idna::domain_to_ascii ](domain: &str) -> (r: Result<
    String,
    idna::Errors,
>)
    ensures
        match r {
            Ok(a) => ascii_domain(domain@) == Some(a@),
            Err(_) => ascii_domain(domain@) is None,
        },
;

/// The domain that a `Domain` attribute stands for, given the ASCII form of
/// the attribute without surrounding white space and leading dots.
pub open spec fn domain_of_ascii(ascii: Option<Seq<char>>) -> Result<DomainView, CookieError> {
    match ascii {
        None => Err(CookieError::DomainParse),
        Some(a) => if strip_leading_dots(a).len() == 0 {
            Ok(DomainView::Empty)
        } else {
            Ok(DomainView::Suffix(strip_leading_dots(a)))
        },
    }
}

/// The domain that the `Domain` attribute `value` stands for: white space
/// around it and dots before it are dropped, and what is left is brought to
/// its ASCII form.
pub open spec fn domain_of_attribute(value: Seq<char>) -> Result<DomainView, CookieError> {
    domain_of_ascii(ascii_domain(strip_leading_dots(trim(value))))
}

/// The domain that the attributes `raw` ask for, before the host that sent
/// them is looked at.
pub open spec fn domain_of_raw(raw: RawCookieView) -> Result<DomainView, CookieError> {
    match raw.domain {
        Some(d) => domain_of_attribute(d),
        None => Ok(DomainView::NotPresent),
    }
}

/// The view of a result whose value is a domain.
pub open spec fn domain_result_view(r: Result<CookieDomain, CookieError>) -> Result<
    DomainView,
    CookieError,
> {
    match r {
        Ok(d) => Ok(d@),
        Err(e) => Err(e),
    }
}

/// Whether the domain given as the attribute `domain` matches the host of
/// `request_url`. An attribute that cannot be normalized matches nothing.
pub fn is_match(domain: &str, request_url: &RequestUrl) -> (r: bool)
    ensures
        r == match domain_of_attribute(domain@) {
            Ok(d) => d.matches(request_url@),
            Err(_) => false,
        },
{
    match CookieDomain::try_from(domain) {
        Ok(d) => d.matches(request_url),
        Err(_) => false,
    }
}

/// Whether `host` ends with `suffix` and has a `'.'` just before it.
fn host_ends_with_after_dot(host: &str, suffix: &str) -> (r: bool)
    ensures
        r == ends_with_after_dot(host@, suffix@),
{
    let h = chars_of(host);
    let s = chars_of(suffix);
    if h.len() <= s.len() {
        return false;
    }
    let offset: usize = h.len() - s.len();
    if h[offset - 1] != '.' {
        return false;
    }
    let mut i: usize = 0;
    while i < s.len()
        invariant
            i <= s.len(),
            offset + s.len() == h.len(),
            h@ == host@,
            s@ == suffix@,
            forall|k: int| 0 <= k < i ==> h@[offset + k] == s@[k],
        decreases s.len() - i,
    {
        if h[offset + i] != s[i] {
            assert(h@.skip(offset as int)[i as int] != s@[i as int]);
            return false;
        }
        i += 1;
    }
    assert(h@.skip(offset as int) =~= s@);
    true
}

impl CookieDomain {
    /// The domain of a cookie that carries no `Domain` attribute and was set
    /// by `host`.
    pub fn host_only(host: &Host) -> (r: CookieDomain)
        ensures
            r@ == DomainView::HostOnly(host@.text()),
    {
        CookieDomain::HostOnly(host.as_str().to_owned())
    }

    /// Tests whether the host of `request_url` is covered by this domain.
    ///
    /// A host-only domain covers the identical host, name or IP literal. A
    /// suffix covers the identical host and, among names only, those that
    /// end with it after a dot. Nothing else is covered.
    pub fn matches(&self, request_url: &RequestUrl) -> (r: bool)
        ensures
            r == self@.matches(request_url@),
    {
        match &request_url.host {
            Some(host) => match self {
                CookieDomain::HostOnly(h) => str_eq(h.as_str(), host.as_str()),
                CookieDomain::Suffix(s) => str_eq(s.as_str(), host.as_str()) || (host.is_name()
                    && host_ends_with_after_dot(host.as_str(), s.as_str())),
                CookieDomain::NotPresent => false,
                CookieDomain::Empty => false,
            },
            None => false,
        }
    }

    /// The domain as text; empty where it names neither a host nor a suffix.
    pub fn as_str(&self) -> (r: &str)
        ensures
            r@ == self@.text(),
    {
        match self {
            CookieDomain::HostOnly(h) => h.as_str(),
            CookieDomain::Suffix(s) => s.as_str(),
            _ => {
                proof {
                    reveal_strlit("");
                    assert(""@ =~= Seq::<char>::empty());
                }
                ""
            },
        }
    }

    /// The domain as text.
    pub fn into_cow(&self) -> (r: Cow<'_, str>)
        requires
            self@.is_named(),
        ensures
            r@ == self@.text(),
    {
        match self {
            CookieDomain::HostOnly(h) => Cow::Borrowed(h.as_str()),
            CookieDomain::Suffix(s) => Cow::Borrowed(s.as_str()),
            _ => Cow::Borrowed(""),
        }
    }

    /// The domain as text, or `None` where it names neither a host nor a
    /// suffix.
    pub fn as_cow(&self) -> (r: Option<Cow<'_, str>>)
        ensures
            match r {
                Some(t) => self@.is_named() && t@ == self@.text(),
                None => !self@.is_named(),
            },
    {
        match self {
            CookieDomain::HostOnly(h) => Some(Cow::Borrowed(h.as_str())),
            CookieDomain::Suffix(s) => Some(Cow::Borrowed(s.as_str())),
            _ => None,
        }
    }
}

impl<'a> TryFrom<&'a str> for CookieDomain {
    type Error = CookieError;

    /// The domain that the `Domain` attribute `value` stands for.
    fn try_from(value: &'a str) -> (r: Result<CookieDomain, CookieError>)
        ensures
            domain_result_view(r) == domain_of_attribute(value@),
            r matches Ok(d) ==> d@.well_formed(),
    {
        match idna::domain_to_ascii(without_leading_dots(trimmed(value))) {
            Ok(ascii) => {
                let domain = without_leading_dots(ascii.as_str());
                if domain.unicode_len() == 0 {
                    Ok(CookieDomain::Empty)
                } else {
                    proof {
                        crate::runs::lemma_leading_run(ascii@, |c: char| c == '.');
                    }
                    Ok(CookieDomain::Suffix(domain.to_owned()))
                }
            },
            Err(_) => Err(CookieError::DomainParse),
        }
    }
}

impl<'a> TryFromSpecImpl<&'a str> for CookieDomain {
    open spec fn obeys_try_from_spec() -> bool {
        false
    }

    open spec fn try_from_spec(value: &'a str) -> Result<CookieDomain, CookieError> {
        match domain_of_attribute(value@) {
            Ok(d) => Ok(choose|c: CookieDomain| c@ == d),
            Err(e) => Err(e),
        }
    }
}

impl<'a> TryFrom<&'a RawCookie> for CookieDomain {
    type Error = CookieError;

    /// The domain that the attributes `raw` ask for: that of the `Domain`
    /// attribute, or `NotPresent` without one.
    fn try_from(raw: &'a RawCookie) -> (r: Result<CookieDomain, CookieError>)
        ensures
            domain_result_view(r) == domain_of_raw(raw@),
            r matches Ok(d) ==> d@.well_formed(),
    {
        match &raw.domain {
            Some(d) => CookieDomain::try_from(d.as_str()),
            None => Ok(CookieDomain::NotPresent),
        }
    }
}

impl<'a> TryFromSpecImpl<&'a RawCookie> for CookieDomain {
    open spec fn obeys_try_from_spec() -> bool {
        false
    }

    open spec fn try_from_spec(raw: &'a RawCookie) -> Result<CookieDomain, CookieError> {
        match domain_of_raw(raw@) {
            Ok(d) => Ok(choose|c: CookieDomain| c@ == d),
            Err(e) => Err(e),
        }
    }
}

impl<'a> TryFrom<&'a Host> for CookieDomain {
    type Error = CookieError;

    /// The domain of a cookie that carries no `Domain` attribute and was set
    /// by `host`. This never fails.
    fn try_from(host: &'a Host) -> (r: Result<CookieDomain, CookieError>)
        ensures
            domain_result_view(r) == Ok::<DomainView, CookieError>(
                DomainView::HostOnly(host@.text()),
            ),
    {
        Ok(CookieDomain::host_only(host))
    }
}

impl<'a> TryFromSpecImpl<&'a Host> for CookieDomain {
    open spec fn obeys_try_from_spec() -> bool {
        false
    }

    open spec fn try_from_spec(host: &'a Host) -> Result<CookieDomain, CookieError> {
        Ok(choose|c: CookieDomain| c@ == DomainView::HostOnly(host@.text()))
    }
}

impl<'a> From<&'a CookieDomain> for String {
    /// The domain as text; empty where it names neither a host nor a suffix.
    fn from(c: &'a CookieDomain) -> (r: String)
        ensures
            r@ == c@.text(),
    {
        match c {
            CookieDomain::HostOnly(h) => h.clone(),
            CookieDomain::Suffix(s) => s.clone(),
            _ => String::new(),
        }
    }
}

impl<'a> FromSpecImpl<&'a CookieDomain> for String {
    open spec fn obeys_from_spec() -> bool {
        false
    }

    open spec fn from_spec(c: &'a CookieDomain) -> String {
        choose|r: String| r@ == c@.text()
    }
}

/// A suffix covers a host if and only if the host is the suffix itself, or
/// is a name, not an IP literal, that ends with the suffix and has a dot
/// just before it.
pub proof fn lemma_suffix_matches(suffix: Seq<char>, host: HostView)
    ensures
        DomainView::Suffix(suffix).matches_host(host) <==> {
            ||| host.text() == suffix
            ||| {
                &&& host is Name
                &&& host.text().len() > suffix.len()
                &&& host.text().subrange(
                    host.text().len() - suffix.len(),
                    host.text().len() as int,
                ) == suffix
                &&& host.text()[host.text().len() - suffix.len() - 1] == '.'
            }
        },
{
}

/// A host-only domain covers a host if and only if the host is the domain
/// itself, be it a name or an IP literal.
pub proof fn lemma_host_only_matches(domain: Seq<char>, host: HostView)
    ensures
        DomainView::HostOnly(domain).matches_host(host) <==> host.text() == domain,
{
}

/// An IP literal is covered by no domain but itself.
pub proof fn lemma_ip_matches_itself_only(domain: DomainView, host: HostView)
    requires
        host is Ip,
        domain.matches_host(host),
    ensures
        domain.text() == host.text(),
{
}

/// A domain that names neither a host nor a suffix covers nothing.
pub proof fn lemma_unnamed_matches_nothing(domain: DomainView, url: UrlView)
    requires
        !domain.is_named(),
    ensures
        !domain.matches(url),
{
}

} // verus!
