use user_agent::{CookiePath, Host, RawCookie, RequestUrl};

fn url_with_path(path: &str) -> RequestUrl {
    RequestUrl {
        text: format!("http://example.com{}", path),
        scheme: String::from("http"),
        host: Some(Host::Name(String::from("example.com"))),
        path: String::from(path),
    }
}

fn default_of(path: &str) -> String {
    let p = CookiePath::default_path(&url_with_path(path));
    assert!(!p.is_from_path_attr());
    p.path
}

#[test]
fn the_default_path_stops_before_the_last_slash() {
    assert_eq!(default_of("/foo/bar"), "/foo");
    assert_eq!(default_of("/"), "/");
    assert_eq!(default_of("/foo"), "/");
    assert_eq!(default_of("/foo/"), "/foo");
    assert_eq!(default_of("/foo/bar/"), "/foo/bar");
    assert_eq!(default_of("/foo/bar/baz.html"), "/foo/bar");
    assert_eq!(default_of(""), "/");
    assert_eq!(default_of("nonrelative"), "/");
    assert_eq!(default_of("/\u{e9}t\u{e9}/x"), "/\u{e9}t\u{e9}");
}

#[test]
fn the_default_path_of_a_parsed_url() {
    let u = RequestUrl::parse("http://example.com/foo/bar?x=/y/z").unwrap();
    assert_eq!(CookiePath::default_path(&u).as_str(), "/foo");
    let root = RequestUrl::parse("http://example.com").unwrap();
    assert_eq!(CookiePath::default_path(&root).as_str(), "/");
}

#[test]
fn a_path_attribute_must_begin_with_a_slash() {
    let p = CookiePath::parse("/app").unwrap();
    assert_eq!(p.as_str(), "/app");
    assert!(p.is_from_path_attr());
    assert_eq!(CookiePath::parse("app"), None);
    assert_eq!(CookiePath::parse(""), None);
}

#[test]
fn an_unusable_path_attribute_gives_way_to_the_default_path() {
    let u = url_with_path("/foo/bar");
    let explicit = RawCookie::parse("a=1; Path=/app").unwrap();
    assert_eq!(
        CookiePath::from_raw(&explicit, &u),
        CookiePath { path: String::from("/app"), from_attribute: true }
    );
    let malformed = RawCookie::parse("a=1; Path=app").unwrap();
    assert_eq!(
        CookiePath::from_raw(&malformed, &u),
        CookiePath { path: String::from("/foo"), from_attribute: false }
    );
    let absent = RawCookie::parse("a=1").unwrap();
    assert_eq!(
        CookiePath::from_raw(&absent, &u),
        CookiePath { path: String::from("/foo"), from_attribute: false }
    );
}

fn covers(cookie_path: &str, request_path: &str) -> bool {
    CookiePath { path: String::from(cookie_path), from_attribute: true }.matches(request_path)
}

#[test]
fn a_path_covers_itself_and_what_continues_it_at_a_slash() {
    assert!(covers("/", "/"));
    assert!(covers("/", "/foo"));
    assert!(covers("/foo", "/foo"));
    assert!(covers("/foo", "/foo/"));
    assert!(covers("/foo", "/foo/bar"));
    assert!(covers("/foo/", "/foo/bar"));
    assert!(covers("/foo/", "/foo/"));
    assert!(!covers("/foo", "/foobar"));
    assert!(!covers("/foo", "/fo"));
    assert!(!covers("/foo", "/"));
    assert!(!covers("/foo/", "/foo"));
    assert!(!covers("/foo", "/bar/foo"));
    assert!(!covers("/foo", ""));
    assert!(covers("/\u{e9}", "/\u{e9}/x"));
    assert!(!covers("/\u{e9}", "/\u{e9}x"));
}

#[test]
fn a_clone_of_a_path_is_equal_to_it() {
    let p = CookiePath { path: String::from("/a"), from_attribute: false };
    assert_eq!(p.clone(), p);
}
