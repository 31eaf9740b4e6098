//! The path that a cookie is scoped to, and path matching.

use vstd::prelude::*;
use vstd::string::StrSliceExecFns;
use crate::raw_cookie::{RawCookie, RawCookieView};
use crate::request_url::RequestUrl;
use crate::runs::{lemma_trailing_run, lemma_trailing_run_unique, trailing_run};
use crate::text::chars_of;

verus! {

/// The path of a cookie: the `Path` attribute where it is usable, else the
/// default path of the URL that set the cookie.
#[derive(Debug, PartialEq, Eq, Hash)]
pub struct CookiePath {
    pub path: String,
    pub from_attribute: bool,
}

/// The mathematical value of a [`CookiePath`].
pub struct PathView {
    pub path: Seq<char>,
    pub from_attribute: bool,
}

impl View for CookiePath {
    type V = PathView;

    open spec fn view(&self) -> PathView {
        PathView { path: self.path@, from_attribute: self.from_attribute }
    }
}

impl Clone for CookiePath {
    fn clone(&self) -> (r: CookiePath)
        ensures
            r == *self,
    {
        CookiePath { path: self.path.clone(), from_attribute: self.from_attribute }
    }
}

/// The path `"/"`.
pub open spec fn root_path() -> Seq<char> {
    seq!['/']
}

/// The default path of a cookie set from a URL with path `url_path`: what
/// stands before the last `'/'`, or `"/"` where that is nothing.
pub open spec fn default_path(url_path: Seq<char>) -> Seq<char> {
    let tail = trailing_run(url_path, |c: char| c != '/');
    if url_path.len() - tail <= 1 {
        root_path()
    } else {
        url_path.take(url_path.len() - tail - 1)
    }
}

/// Whether a `Path` attribute can be used as it is: it begins with `'/'`.
pub open spec fn usable_path(attribute: Seq<char>) -> bool {
    attribute.len() > 0 && attribute[0] == '/'
}

/// Path matching: a cookie path covers the identical request path, and the
/// request paths that continue it at a `'/'`.
pub open spec fn path_match(cookie_path: Seq<char>, request_path: Seq<char>) -> bool {
    ||| request_path == cookie_path
    ||| {
        &&& cookie_path.len() < request_path.len()
        &&& request_path.take(cookie_path.len() as int) == cookie_path
        &&& {
            ||| cookie_path.len() > 0 && cookie_path.last() == '/'
            ||| request_path[cookie_path.len() as int] == '/'
        }
    }
}

/// The default path is `"/"`, or else what stands in the URL path before
/// its last `'/'`.
pub proof fn lemma_default_path(url_path: Seq<char>)
    ensures
        default_path(url_path).len() > 0,
        default_path(url_path) == root_path() || {
            let cut = default_path(url_path).len() as int;
            &&& cut < url_path.len()
            &&& default_path(url_path) == url_path.take(cut)
            &&& url_path[cut] == '/'
            &&& forall|i: int| cut < i < url_path.len() ==> url_path[i] != '/'
        },
{
    lemma_trailing_run(url_path, |c: char| c != '/');
}

/// A cookie with the default path of a URL goes with requests to that URL:
/// the default path of a path that begins with `'/'` covers the path.
pub proof fn lemma_default_path_covers(url_path: Seq<char>)
    requires
        url_path.len() > 0,
        url_path[0] == '/',
    ensures
        path_match(default_path(url_path), url_path),
{
    lemma_default_path(url_path);
    let d = default_path(url_path);
    if d == root_path() {
        assert(url_path.take(1) =~= d);
        if url_path.len() == 1 {
            assert(url_path =~= d);
        }
    }
}

/// A path covers itself, and a path that ends with `'/'` covers every path
/// that begins with it.
pub proof fn lemma_path_match_prefix(cookie_path: Seq<char>, rest: Seq<char>)
    requires
        cookie_path.len() > 0,
        cookie_path.last() == '/',
    ensures
        path_match(cookie_path, cookie_path),
        path_match(cookie_path, cookie_path + rest),
{
    let whole = cookie_path + rest;
    assert(whole.take(cookie_path.len() as int) =~= cookie_path);
    if rest.len() == 0 {
        assert(whole =~= cookie_path);
    }
}

/// The path of a cookie with the attributes `raw`, set from a URL with path
/// `url_path`.
pub open spec fn path_of_raw(raw: RawCookieView, url_path: Seq<char>) -> PathView {
    match raw.path {
        Some(p) if usable_path(p) => PathView { path: p, from_attribute: true },
        _ => PathView { path: default_path(url_path), from_attribute: false },
    }
}

/// Whether `attribute` begins with `'/'`.
fn is_usable(attribute: &str) -> (r: bool)
    ensures
        r == usable_path(attribute@),
{
    !attribute.is_empty() && attribute.get_char(0) == '/'
}

impl CookiePath {
    /// The path given by a `Path` attribute, or `None` where the attribute
    /// does not begin with `'/'`.
    pub fn parse(attribute: &str) -> (r: Option<CookiePath>)
        ensures
            match r {
                Some(p) => usable_path(attribute@) && p@ == (PathView {
                    path: attribute@,
                    from_attribute: true,
                }),
                None => !usable_path(attribute@),
            },
    {
        if is_usable(attribute) {
            Some(CookiePath { path: attribute.to_owned(), from_attribute: true })
        } else {
            None
        }
    }

    /// The default path of a cookie set from `request_url`.
    pub fn default_path(request_url: &RequestUrl) -> (r: CookiePath)
        ensures
            r@ == (PathView { path: default_path(request_url@.path), from_attribute: false }),
    {
        let url_path = request_url.path.as_str();
        let v = chars_of(url_path);
        let mut cut: usize = v.len();
        while cut > 0 && v[cut - 1] != '/'
            invariant
                cut <= v.len(),
                forall|i: int| cut <= i < v.len() ==> #[trigger] v@[i] != '/',
            decreases cut,
        {
            cut -= 1;
        }
        proof {
            lemma_trailing_run_unique(v@, |c: char| c != '/', v.len() - cut);
            reveal_strlit("/");
            assert("/"@ =~= root_path());
        }
        if cut <= 1 {
            CookiePath { path: "/".to_owned(), from_attribute: false }
        } else {
            assert(v@.take(cut - 1) =~= v@.subrange(0, cut - 1));
            CookiePath {
                path: url_path.substring_char(0, cut - 1).to_owned(),
                from_attribute: false,
            }
        }
    }

    /// The path of a cookie with the attributes `raw`, set from
    /// `request_url`: the `Path` attribute where it begins with `'/'`, else
    /// the default path.
    pub fn from_raw(raw: &RawCookie, request_url: &RequestUrl) -> (r: CookiePath)
        ensures
            r@ == path_of_raw(raw@, request_url@.path),
    {
        match &raw.path {
            Some(p) => {
                if is_usable(p.as_str()) {
                    CookiePath { path: p.clone(), from_attribute: true }
                } else {
                    CookiePath::default_path(request_url)
                }
            },
            None => CookiePath::default_path(request_url),
        }
    }

    /// Tests whether `request_path` is covered by this path.
    pub fn matches(&self, request_path: &str) -> (r: bool)
        ensures
            r == path_match(self@.path, request_path@),
    {
        let c = chars_of(self.path.as_str());
        let q = chars_of(request_path);
        if c.len() > q.len() {
            return false;
        }
        let mut i: usize = 0;
        while i < c.len()
            invariant
                i <= c.len() <= q.len(),
                c@ == self@.path,
                q@ == request_path@,
                forall|k: int| 0 <= k < i ==> c@[k] == q@[k],
            decreases c.len() - i,
        {
            if c[i] != q[i] {
                assert(q@.take(c@.len() as int)[i as int] != c@[i as int]);
                return false;
            }
            i += 1;
        }
        assert(q@.take(c@.len() as int) =~= c@);
        if c.len() == q.len() {
            assert(q@.take(c@.len() as int) =~= q@);
            return true;
        }
        (c.len() > 0 && c[c.len() - 1] == '/') || q[c.len()] == '/'
    }

    /// The path as text.
    pub fn as_str(&self) -> (r: &str)
        ensures
            r@ == self@.path,
    {
        self.path.as_str()
    }

    /// Whether the path was given by a `Path` attribute.
    pub fn is_from_path_attr(&self) -> (r: bool)
        ensures
            r == self@.from_attribute,
    {
        self.from_attribute
    }
}

} // verus!
