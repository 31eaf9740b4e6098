use std::io::{self, Read};
use std::time::{SystemTime, UNIX_EPOCH};

use user_agent::{
    Cookie, CookieDomain, CookieExpiration, CookieParts, CookiePath, CookieStore, RawCookie,
    RequestUrl, SameSite, Session, SessionClient, SessionRequest, SessionResponse, UrlParseError,
};

/// An enum of possible body types for a Request.
pub enum Body<'b> {
    /// A Reader does not necessarily know it's size, so it is chunked.
    ChunkedBody(&'b mut (dyn Read + 'b)),
    /// A String has a size, and uses Content-Length.
    BufBody(&'b [u8], usize),
}

impl<'b> Read for Body<'b> {
    fn read(&mut self, buf: &mut [u8]) -> io::Result<usize> {
        match *self {
            Body::ChunkedBody(ref mut r) => r.read(buf),
            Body::BufBody(ref mut r, _) => Read::read(r, buf),
        }
    }
}

impl<'b> Into<Body<'b>> for &'b [u8] {
    fn into(self) -> Body<'b> {
        Body::BufBody(self, self.len())
    }
}

impl<'b> Into<Body<'b>> for &'b str {
    fn into(self) -> Body<'b> {
        self.as_bytes().into()
    }
}

impl<'b> Into<Body<'b>> for &'b String {
    fn into(self) -> Body<'b> {
        self.as_bytes().into()
    }
}

impl<'b, R: Read> From<&'b mut R> for Body<'b> {
    fn from(r: &'b mut R) -> Body<'b> {
        Body::ChunkedBody(r)
    }
}

impl<'b> SessionRequest for TestClientRequest<'b> {
    fn add_cookies(mut self, cookies: Vec<&Cookie>) -> Self {
        for cookie in cookies.into_iter() {
            self.cookies.push(cookie.clone());
        }
        self
    }
}

struct TestClientRequest<'b> {
    cookies: Vec<Cookie>,
    outgoing: Vec<RawCookie>,
    body: Option<Body<'b>>,
    redirected_to: Option<RequestUrl>,
}

impl<'b> TestClientRequest<'b> {
    fn set_body<B: Into<Body<'b>>>(&mut self, body: B) {
        self.body = Some(body.into());
    }

    fn set_outgoing(&mut self, cookies: Vec<RawCookie>) {
        self.outgoing = cookies;
    }

    fn set_redirect(&mut self, url: &str) {
        self.redirected_to = Some(RequestUrl::parse(url).unwrap());
    }

    fn send(self) -> Result<TestClientResponse, TestError> {
        Ok(TestClientResponse(
            match self.body {
                Some(mut body) => {
                    let mut b = String::new();
                    body.read_to_string(&mut b).unwrap();
                    format!("body was: '{}'", b)
                }
                None => "no body sent".to_string(),
            },
            self.outgoing,
            self.redirected_to,
        ))
    }
}

struct TestClientResponse(String, Vec<RawCookie>, Option<RequestUrl>);

impl SessionResponse for TestClientResponse {
    fn parse_set_cookie(&self) -> Option<Vec<RawCookie>> {
        Some(self.1.clone())
    }

    fn final_url(&self) -> Option<&RequestUrl> {
        self.2.as_ref()
    }
}

impl TestClientResponse {
    pub fn body(self) -> String {
        self.0
    }
}

struct TestClient;

impl TestClient {
    fn request(&self, _: &RequestUrl) -> TestClientRequest<'_> {
        TestClientRequest {
            cookies: vec![],
            outgoing: vec![],
            body: None,
            redirected_to: None,
        }
    }
}

impl<'b> SessionClient for &'b TestClient {
    type Request = TestClientRequest<'b>;
    type Response = TestClientResponse;
    type SendError = TestError;

    fn get_request(&self, url: &RequestUrl) -> Self::Request {
        self.request(url)
    }
    fn put_request(&self, url: &RequestUrl) -> Self::Request {
        self.request(url)
    }
    fn head_request(&self, url: &RequestUrl) -> Self::Request {
        self.request(url)
    }
    fn delete_request(&self, url: &RequestUrl) -> Self::Request {
        self.request(url)
    }
    fn post_request(&self, url: &RequestUrl) -> Self::Request {
        self.request(url)
    }
}

type TestSession<'c> = Session<&'c TestClient>;

#[derive(Debug, Clone, PartialEq)]
struct TestError;

impl std::error::Error for TestError {}

impl std::fmt::Display for TestError {
    fn fmt(&self, f: &mut std::fmt::Formatter<'_>) -> std::fmt::Result {
        f.write_str("test error")
    }
}

impl From<UrlParseError> for TestError {
    fn from(_: UrlParseError) -> TestError {
        TestError
    }
}

fn now() -> i64 {
    SystemTime::now().duration_since(UNIX_EPOCH).unwrap().as_secs() as i64
}

fn no_public_suffix(_: &str) -> bool {
    false
}

fn raw(s: &str) -> RawCookie {
    RawCookie::parse(s).unwrap()
}

fn is_in_vec(cookies: &[Cookie], name: &str) {
    assert!(cookies.iter().any(|c| c.name() == name), "{} is missing", name);
}

fn value_in_vec(cookies: &[Cookie], name: &str, value: &str) {
    assert!(cookies.iter().find(|c| c.name() == name).unwrap().value() == value);
}

fn not_in_vec(cookies: &[Cookie], name: &str) {
    assert!(!cookies.iter().any(|c| c.name() == name), "{} is present", name);
}

fn has_sess(store: &CookieStore, d: &str, p: &str, n: &str) {
    assert!(!store.get(d, p, n).unwrap().is_persistent());
}

fn has_pers(store: &CookieStore, d: &str, p: &str, n: &str) {
    assert!(store.get(d, p, n).unwrap().is_persistent());
}

fn was_removed(store: &CookieStore, d: &str, p: &str, n: &str) {
    assert!(!store.contains_any(d, p, n) && !store.contains(d, p, n, now()));
}

fn has_value(store: &CookieStore, d: &str, p: &str, n: &str, v: &str) {
    assert_eq!(store.get(d, p, n).unwrap().value(), v);
}

fn not_has(store: &CookieStore, n: &str) {
    assert_eq!(
        store.iter_any().into_iter().filter(|c| c.name() == n).count(),
        0
    );
}

fn same_site_code(s: Option<SameSite>) -> &'static str {
    match s {
        Some(SameSite::Strict) => "strict",
        Some(SameSite::Lax) => "lax",
        Some(SameSite::CrossSite) => "cross",
        None => "-",
    }
}

// One record for a cookie: its fields, separated by tabs.
fn cookie_to_string(c: &Cookie) -> Result<String, TestError> {
    let p = c.to_parts();
    let (kind, domain) = match &p.domain {
        CookieDomain::HostOnly(h) => ("host", h.clone()),
        CookieDomain::Suffix(s) => ("suffix", s.clone()),
        _ => return Err(TestError),
    };
    let expires = match p.expires {
        CookieExpiration::AtUtc(t) => t.to_string(),
        CookieExpiration::SessionEnd => "session".to_string(),
    };
    Ok([
        p.name,
        p.value,
        kind.to_string(),
        domain,
        p.path.path,
        p.path.from_attribute.to_string(),
        expires,
        p.secure.to_string(),
        p.http_only.to_string(),
        same_site_code(p.same_site).to_string(),
        p.creation_time.to_string(),
        p.access_time.to_string(),
    ]
    .join("\t"))
}

fn cookie_from_str(line: &str) -> Result<Cookie, TestError> {
    let f: Vec<&str> = line.split('\t').collect();
    if f.len() != 12 {
        return Err(TestError);
    }
    let domain = match f[2] {
        "host" => CookieDomain::HostOnly(f[3].to_string()),
        "suffix" => CookieDomain::Suffix(f[3].to_string()),
        _ => return Err(TestError),
    };
    let expires = match f[6] {
        "session" => CookieExpiration::SessionEnd,
        t => CookieExpiration::AtUtc(t.parse().map_err(|_| TestError)?),
    };
    let same_site = match f[9] {
        "strict" => Some(SameSite::Strict),
        "lax" => Some(SameSite::Lax),
        "cross" => Some(SameSite::CrossSite),
        _ => None,
    };
    Cookie::from_parts(CookieParts {
        name: f[0].to_string(),
        value: f[1].to_string(),
        domain,
        path: CookiePath {
            path: f[4].to_string(),
            from_attribute: f[5] == "true",
        },
        expires,
        secure: f[7] == "true",
        http_only: f[8] == "true",
        same_site,
        creation_time: f[10].parse().map_err(|_| TestError)?,
        access_time: f[11].parse().map_err(|_| TestError)?,
    })
    .ok_or(TestError)
}

fn save_session(s: &TestSession) -> Vec<String> {
    s.save(&cookie_to_string).unwrap()
}

fn load_session<'c>(client: &'c TestClient, lines: &Vec<String>) -> TestSession<'c> {
    Session::load(client, lines, &cookie_from_str).unwrap()
}

#[test]
fn client() {
    let session1 = {
        // init & try http://www.example.com
        let mut s = TestSession::new(&TestClient);
        let url = RequestUrl::parse("http://www.example.com").unwrap();
        let foo_url = RequestUrl::parse("http://foo.example.com").unwrap();

        s.store.parse("0=_", &url, now(), &no_public_suffix).unwrap();
        s.store.parse("1=a; Max-Age=120", &url, now(), &no_public_suffix).unwrap();
        s.store.parse("2=b; Max-Age=120", &url, now(), &no_public_suffix).unwrap();
        s.store
            .parse("secure=zz; Max-Age=120; Secure", &url, now(), &no_public_suffix)
            .unwrap();
        s.store
            .parse("foo_domain=zzz", &foo_url, now(), &no_public_suffix)
            .unwrap(); // should not be included in our www.example.com request
        s.store
            .parse("foo_domain_pers=zzz; Max-Age=120", &foo_url, now(), &no_public_suffix)
            .unwrap(); // should not be included in our www.example.com request
        has_sess(&s.store, "www.example.com", "/", "0");
        has_pers(&s.store, "www.example.com", "/", "1");
        has_pers(&s.store, "www.example.com", "/", "2");
        has_pers(&s.store, "www.example.com", "/", "secure"); // it should be parsed, but not included in our non-https request
        has_sess(&s.store, "foo.example.com", "/", "foo_domain"); // it should be parsed, but not included in our non-foo.example.com request
        has_pers(&s.store, "foo.example.com", "/", "foo_domain_pers"); // it should be parsed, but not included in our non-foo.example.com request

        let body = "this is the body".to_string();
        let resp = s
            .get_with("http://www.example.com", |mut r| {
                let incoming = r.cookies.clone();
                is_in_vec(&incoming, "0");
                is_in_vec(&incoming, "1");
                is_in_vec(&incoming, "2");
                not_in_vec(&incoming, "3"); // hasn't been set yet...
                not_in_vec(&incoming, "secure"); // not a secure request
                not_in_vec(&incoming, "foo_domain"); // wrong domain
                not_in_vec(&incoming, "foo_domain_pers"); // wrong domain
                r.set_body(&body);
                r.set_outgoing(vec![
                    raw("0=hi"),                    // update the non-persistent 0 cookie
                    raw("1=sess1; Max-Age=120"),    // update the 1 persistent cookie
                    raw("2=c; Max-Age=0"),          // expire the 2 cookie
                    raw("3=c"),                     // new session cookie
                    raw("4=d; Max-Age=0"), // add an expired cookie, should never show up
                    raw("5=e; Domain=invalid.com"), // invalid domain, should never show up
                    raw("6=f; Domain=example.com"), // should be able to set for a higher domain
                    raw("7=g; Max-Age=300"), // new persistent (5min) cookie
                ]);
                r.send()
            })
            .unwrap();
        assert_eq!("body was: 'this is the body'", resp.body());

        has_sess(&s.store, "www.example.com", "/", "0"); // was existing
        has_value(&s.store, "www.example.com", "/", "0", "hi"); // check the value was set properly
        has_pers(&s.store, "www.example.com", "/", "1"); // was existing
        has_value(&s.store, "www.example.com", "/", "1", "sess1"); // check the value was set properly
        was_removed(&s.store, "www.example.com", "/", "2"); // expired by response
        has_sess(&s.store, "www.example.com", "/", "3"); // session-only added by response
        has_value(&s.store, "www.example.com", "/", "3", "c"); // check the value was set properly
        not_has(&s.store, "4"); // expired on insert, so not added
        not_has(&s.store, "5"); // invalid domain
        has_sess(&s.store, "example.com", "/", "6"); // non-persistent cookie set for higher domain
        has_pers(&s.store, "www.example.com", "/", "7"); // persistent added by response
        has_pers(&s.store, "www.example.com", "/", "secure"); // verify cookies not included in request still present
        has_sess(&s.store, "foo.example.com", "/", "foo_domain"); // verify cookies not included in request still present
        has_pers(&s.store, "foo.example.com", "/", "foo_domain_pers"); // "

        save_session(&s)
    };

    let session2 = {
        // try https://www.example.com - secure
        let mut s = load_session(&TestClient, &session1);
        not_has(&s.store, "0"); // non-persistent cookie
        has_pers(&s.store, "www.example.com", "/", "1"); // was an initial persistent cookie
        has_value(&s.store, "www.example.com", "/", "1", "sess1");
        not_has(&s.store, "2"); // was expired during last session
        not_has(&s.store, "3"); // was not a persistent cookie
        not_has(&s.store, "4"); // expired cookie never set
        not_has(&s.store, "5"); // invalid domain
        not_has(&s.store, "6"); // was NOT a persistent cookie
        has_pers(&s.store, "www.example.com", "/", "7"); // was a persistent cookie
        has_pers(&s.store, "www.example.com", "/", "secure"); // it should be parsed, but not included in our non-https request
        not_has(&s.store, "foo_domain"); // it was parsed, but not persistent
        has_pers(&s.store, "foo.example.com", "/", "foo_domain_pers"); // was parsed, not included, and persistent

        let resp = s
            .get_with("https://www.example.com", |mut r| {
                let incoming = r.cookies.clone();
                not_in_vec(&incoming, "0");
                is_in_vec(&incoming, "1");
                not_in_vec(&incoming, "2");
                not_in_vec(&incoming, "3"); // was set last session, but not persistent
                not_in_vec(&incoming, "4"); // was expired when set
                not_in_vec(&incoming, "5"); // invalid domain
                not_in_vec(&incoming, "6"); // not persistent
                is_in_vec(&incoming, "7"); // persistent
                is_in_vec(&incoming, "secure"); // a secure request, so included
                not_in_vec(&incoming, "foo_domain"); // wrong domain, non-persistent anyway
                not_in_vec(&incoming, "foo_domain_pers"); // wrong domain
                r.set_body("this is the second body");
                r.set_outgoing(vec![
                    raw("1=sess2; Max-Age=120"),        // update the 1 persistent cookie
                    raw("secure=ZZ; Max-Age=120"),      // update the secure cookie
                    raw("2=B; Max-Age=120; Path=/foo"), // re-add the 2-cookie, but for a sub-path
                    raw("8=h; Domain=example.com"), // should be able to set persistent for a higher domain
                ]);
                r.send()
            })
            .unwrap();
        assert_eq!("body was: 'this is the second body'", resp.body());

        not_has(&s.store, "0");
        has_pers(&s.store, "www.example.com", "/", "1");
        has_value(&s.store, "www.example.com", "/", "1", "sess2");
        has_value(&s.store, "www.example.com", "/foo", "2", "B"); // was re-set by response
        not_has(&s.store, "3");
        not_has(&s.store, "4");
        not_has(&s.store, "5");
        not_has(&s.store, "6");
        has_pers(&s.store, "www.example.com", "/", "7");
        has_sess(&s.store, "example.com", "/", "8"); // session cookie added by response
        has_value(&s.store, "www.example.com", "/", "secure", "ZZ"); // value was updated in response
        not_has(&s.store, "foo_domain");
        has_pers(&s.store, "foo.example.com", "/", "foo_domain_pers");

        save_session(&s)
    };

    let session3 = {
        // try https://foo.example.com - secure & foo. subdomain
        let mut s = load_session(&TestClient, &session2);
        not_has(&s.store, "0");
        has_pers(&s.store, "www.example.com", "/", "1");
        has_value(&s.store, "www.example.com", "/", "1", "sess2");
        has_value(&s.store, "www.example.com", "/foo", "2", "B");
        not_has(&s.store, "3");
        not_has(&s.store, "4");
        not_has(&s.store, "5");
        not_has(&s.store, "6");
        has_pers(&s.store, "www.example.com", "/", "7");
        not_has(&s.store, "8");
        has_value(&s.store, "www.example.com", "/", "secure", "ZZ");
        not_has(&s.store, "foo_domain");
        has_pers(&s.store, "foo.example.com", "/", "foo_domain_pers");

        let resp = s
            .get_with("http://foo.example.com", |mut r| {
                let incoming = r.cookies.clone();
                not_in_vec(&incoming, "0");
                not_in_vec(&incoming, "1"); // wrong domain
                not_in_vec(&incoming, "2"); // newly added, but wrong domain & path
                not_in_vec(&incoming, "3"); // was set last session, wrong domain, not persistent
                not_in_vec(&incoming, "4"); // was expired when set
                not_in_vec(&incoming, "5"); // invalid domain
                not_in_vec(&incoming, "6"); // higher level domain, but not persistent
                not_in_vec(&incoming, "7"); // persistent, but wrong domain
                not_in_vec(&incoming, "8"); // not-persistent, higher level domain
                not_in_vec(&incoming, "secure"); // secure request, but wrong domain
                not_in_vec(&incoming, "foo_domain"); // correct domain, but non-persistent
                is_in_vec(&incoming, "foo_domain_pers"); // correct domain, persistent
                r.set_outgoing(vec![
                    raw("1=sess3; Max-Age=120"), // set a new 1 cookie for foo.example.com
                    raw("secure=YY; Max-Age=120; Secure"), // this secure cookie is for foo.example.com
                    raw("9=v; Domain=example.com; Path=/foo; Max-Age=120; Secure"), // this secure cookie is for example.com/foo
                ]);
                r.send()
            })
            .unwrap();
        assert_eq!("no body sent", resp.body());

        not_has(&s.store, "0");
        has_pers(&s.store, "www.example.com", "/", "1");
        has_value(&s.store, "www.example.com", "/", "1", "sess2");
        has_pers(&s.store, "foo.example.com", "/", "1");
        has_value(&s.store, "foo.example.com", "/", "1", "sess3");
        has_value(&s.store, "www.example.com", "/foo", "2", "B");
        not_has(&s.store, "3");
        not_has(&s.store, "4");
        not_has(&s.store, "5");
        not_has(&s.store, "6");
        has_pers(&s.store, "www.example.com", "/", "7");
        not_has(&s.store, "8");
        has_value(&s.store, "www.example.com", "/", "secure", "ZZ");
        has_value(&s.store, "foo.example.com", "/", "secure", "YY");
        not_has(&s.store, "foo_domain");
        has_pers(&s.store, "foo.example.com", "/", "foo_domain_pers");

        save_session(&s)
    };

    let session4 = {
        // try https://www.example.com/foo - secure & path
        let mut s = load_session(&TestClient, &session3);
        not_has(&s.store, "0");
        has_pers(&s.store, "www.example.com", "/", "1");
        has_value(&s.store, "www.example.com", "/", "1", "sess2");
        has_pers(&s.store, "foo.example.com", "/", "1");
        has_value(&s.store, "foo.example.com", "/", "1", "sess3");
        has_value(&s.store, "www.example.com", "/foo", "2", "B");
        not_has(&s.store, "3");
        not_has(&s.store, "4");
        not_has(&s.store, "5");
        not_has(&s.store, "6");
        has_pers(&s.store, "www.example.com", "/", "7");
        not_has(&s.store, "8");
        has_pers(&s.store, "example.com", "/foo", "9");
        has_value(&s.store, "www.example.com", "/", "secure", "ZZ");
        has_value(&s.store, "foo.example.com", "/", "secure", "YY");
        not_has(&s.store, "foo_domain");
        has_pers(&s.store, "foo.example.com", "/", "foo_domain_pers");

        s.get_with("https://www.example.com/foo", |r| {
            let incoming = r.cookies.clone();
            not_in_vec(&incoming, "0");
            is_in_vec(&incoming, "1");
            is_in_vec(&incoming, "2");
            not_in_vec(&incoming, "3");
            not_in_vec(&incoming, "4");
            not_in_vec(&incoming, "5");
            not_in_vec(&incoming, "6");
            is_in_vec(&incoming, "7");
            not_in_vec(&incoming, "8");
            is_in_vec(&incoming, "9");
            value_in_vec(&incoming, "secure", "ZZ"); // got the correct secure cookie
            not_in_vec(&incoming, "foo_domain");
            not_in_vec(&incoming, "foo_domain_pers");
            // no outgoing cookies
            r.send()
        })
        .unwrap();
        save_session(&s)
    };

    let session5 = {
        // try https://www.example.com/foo/bar - secure & deeper path
        let mut s = load_session(&TestClient, &session4);
        not_has(&s.store, "0");
        has_pers(&s.store, "www.example.com", "/", "1");
        has_value(&s.store, "www.example.com", "/", "1", "sess2");
        has_pers(&s.store, "foo.example.com", "/", "1");
        has_value(&s.store, "foo.example.com", "/", "1", "sess3");
        has_value(&s.store, "www.example.com", "/foo", "2", "B");
        not_has(&s.store, "3");
        not_has(&s.store, "4");
        not_has(&s.store, "5");
        not_has(&s.store, "6");
        has_pers(&s.store, "www.example.com", "/", "7");
        not_has(&s.store, "8");
        has_pers(&s.store, "example.com", "/foo", "9");
        has_pers(&s.store, "example.com", "/foo", "9");
        has_value(&s.store, "www.example.com", "/", "secure", "ZZ");
        has_value(&s.store, "foo.example.com", "/", "secure", "YY");
        not_has(&s.store, "foo_domain");
        has_pers(&s.store, "foo.example.com", "/", "foo_domain_pers");

        s.get_with("https://www.example.com/foo/bar", |r| {
            let incoming = r.cookies.clone();
            not_in_vec(&incoming, "0");
            is_in_vec(&incoming, "1");
            is_in_vec(&incoming, "2");
            not_in_vec(&incoming, "3");
            not_in_vec(&incoming, "4");
            not_in_vec(&incoming, "5");
            not_in_vec(&incoming, "6");
            is_in_vec(&incoming, "7");
            not_in_vec(&incoming, "8");
            is_in_vec(&incoming, "9"); // validating that /foo/bar sees the /foo cookie
            value_in_vec(&incoming, "secure", "ZZ"); // got the correct secure cookie
            not_in_vec(&incoming, "foo_domain");
            not_in_vec(&incoming, "foo_domain_pers");
            // no outgoing cookies
            r.send()
        })
        .unwrap();
        save_session(&s)
    };

    let mut s = load_session(&TestClient, &session5);
    s.get_with("https://www.example.com/", |r| {
        let incoming = r.cookies.clone();
        not_in_vec(&incoming, "9"); // validating that we don't see /foo cookie
                                   // no outgoing cookies
        r.send()
    })
    .unwrap();
    s.get_with("https://www.example.com/bar", |r| {
        let incoming = r.cookies.clone();
        not_in_vec(&incoming, "9"); // validating that we don't see /foo cookie
                                   // no outgoing cookies
        r.send()
    })
    .unwrap();
}

#[test]
fn a_url_that_does_not_parse_is_an_error_and_leaves_the_store() {
    let mut s = TestSession::new(&TestClient);
    let url = RequestUrl::parse("http://www.example.com").unwrap();
    s.store.parse("a=1", &url, now(), &no_public_suffix).unwrap();
    let r = s.get_with("not a url", |r| r.send());
    assert_eq!(r.err(), Some(TestError));
    assert_eq!(s.store.len(), 1);
}

#[test]
fn a_failed_send_leaves_the_store() {
    let mut s = TestSession::new(&TestClient);
    let url = RequestUrl::parse("http://www.example.com").unwrap();
    s.store.parse("a=1", &url, now(), &no_public_suffix).unwrap();
    let r = s.post_with("http://www.example.com", |_| Err(TestError));
    assert!(r.is_err());
    assert_eq!(s.store.len(), 1);
    has_value(&s.store, "www.example.com", "/", "a", "1");
}

#[test]
fn each_method_sends_and_receives_cookies() {
    let mut s = TestSession::new(&TestClient);
    s.put_with("http://www.example.com", |mut r| {
        r.set_outgoing(vec![raw("p=1")]);
        r.send()
    })
    .unwrap();
    s.head_with("http://www.example.com", |mut r| {
        is_in_vec(&r.cookies, "p");
        r.set_outgoing(vec![raw("h=1")]);
        r.send()
    })
    .unwrap();
    s.delete_with("http://www.example.com", |mut r| {
        is_in_vec(&r.cookies, "h");
        r.set_outgoing(vec![raw("d=1")]);
        r.send()
    })
    .unwrap();
    s.post_with("http://www.example.com", |r| {
        is_in_vec(&r.cookies, "p");
        is_in_vec(&r.cookies, "h");
        is_in_vec(&r.cookies, "d");
        r.send()
    })
    .unwrap();
    assert_eq!(s.store.len(), 3);
}

#[test]
fn after_a_redirect_cookies_belong_to_the_url_that_answered() {
    let mut s = TestSession::new(&TestClient);
    s.get_with("http://www.example.com/start", |mut r| {
        r.set_redirect("http://login.example.org/sso/form");
        r.set_outgoing(vec![raw("a=1"), raw("b=2; Domain=example.com"), raw("c=3; Domain=example.org")]);
        r.send()
    })
    .unwrap();
    assert_eq!(s.store.len(), 2);
    has_value(&s.store, "login.example.org", "/sso", "a", "1");
    has_value(&s.store, "example.org", "/sso", "c", "3");
    not_has(&s.store, "b");
    assert!(s.request_cookies(&RequestUrl::parse("http://www.example.com/").unwrap(), now()).is_empty());
}

#[test]
fn a_response_without_a_known_url_is_taken_to_come_from_the_request_url() {
    let mut s = TestSession::new(&TestClient);
    let url = RequestUrl::parse("http://www.example.com/a/b").unwrap();
    s.receive(&Some(vec![raw("a=1"), raw("gone=1; Max-Age=0")]), None, &url, 1_000);
    s.receive(&None, None, &url, 1_001);
    assert_eq!(s.store.len(), 1);
    has_value(&s.store, "www.example.com", "/a", "a", "1");
    let elsewhere = RequestUrl::parse("http://other.example/x/y").unwrap();
    s.receive(&Some(vec![raw("b=2")]), Some(&elsewhere), &url, 1_002);
    has_value(&s.store, "other.example", "/x", "b", "2");
    let sent = s.request_cookies(&url, 1_003);
    assert_eq!(sent.len(), 1);
    assert_eq!(sent[0].pair(), "a=1");
}

#[test]
fn a_session_holds_no_suffix_to_be_public() {
    let mut s = TestSession::new(&TestClient);
    s.get_with("http://www.example.com/", |mut r| {
        r.set_outgoing(vec![raw("a=1; Domain=com")]);
        r.send()
    })
    .unwrap();
    has_value(&s.store, "com", "/", "a", "1");
}

#[test]
fn a_session_is_saved_and_loaded() {
    let mut s = TestSession::new(&TestClient);
    s.get_with("http://www.example.com/", |mut r| {
        r.set_outgoing(vec![
            raw("kept=1; Max-Age=300; Secure; HttpOnly; SameSite=Strict; Path=/p"),
            raw("session=1"),
        ]);
        r.send()
    })
    .unwrap();
    let lines = s.save(&cookie_to_string).unwrap();
    assert_eq!(lines.len(), 1);
    let loaded = TestSession::load(&TestClient, &lines, &cookie_from_str).unwrap();
    assert_eq!(loaded.store.len(), 1);
    assert_eq!(
        loaded.store.get("www.example.com", "/p", "kept").unwrap().to_parts(),
        s.store.get("www.example.com", "/p", "kept").unwrap().to_parts()
    );
    let broken = vec![String::from("not a record")];
    assert_eq!(
        TestSession::load(&TestClient, &broken, &cookie_from_str).err(),
        Some(TestError)
    );
}
