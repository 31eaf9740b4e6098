use user_agent::{Host, RequestUrl};

#[test]
fn a_url_is_parsed_into_its_parts() {
    let u = RequestUrl::parse("HTTPS://User@WWW.Example.com:8443/a/b/../c?q=1#frag").unwrap();
    assert_eq!(u.text, "https://User@www.example.com:8443/a/c?q=1#frag");
    assert_eq!(u.scheme, "https");
    assert_eq!(u.host, Some(Host::Name(String::from("www.example.com"))));
    assert_eq!(u.host_str(), Some("www.example.com"));
    assert_eq!(u.path, "/a/c");
    assert!(u.is_secure());
}

#[test]
fn a_url_without_a_path_has_the_root_path() {
    let u = RequestUrl::parse("http://example.com").unwrap();
    assert_eq!(u.path, "/");
    assert_eq!(u.scheme, "http");
    assert!(!u.is_secure());
}

#[test]
fn ip_hosts_are_told_from_names() {
    let v4 = RequestUrl::parse("http://127.0.0.1:80/x").unwrap();
    assert_eq!(v4.host, Some(Host::Ip(String::from("127.0.0.1"))));
    assert!(!v4.host.as_ref().unwrap().is_name());
    let v6 = RequestUrl::parse("http://[::1]/x").unwrap();
    assert_eq!(v6.host, Some(Host::Ip(String::from("[::1]"))));
    assert_eq!(v6.host_str(), Some("[::1]"));
    let name = RequestUrl::parse("http://localhost/x").unwrap();
    assert!(name.host.as_ref().unwrap().is_name());
    assert_eq!(name.host.as_ref().unwrap().as_str(), "localhost");
}

#[test]
fn a_url_may_have_no_host() {
    let u = RequestUrl::parse("data:nonrelative").unwrap();
    assert_eq!(u.host, None);
    assert_eq!(u.host_str(), None);
    assert_eq!(u.path, "nonrelative");
}

#[test]
fn what_is_no_absolute_url_is_an_error() {
    assert!(RequestUrl::parse("/relative/path").is_err());
    assert!(RequestUrl::parse("").is_err());
    assert!(RequestUrl::parse("http://[::1").is_err());
}

#[test]
fn only_https_is_secure() {
    for (scheme, secure) in [("https", true), ("http", false), ("wss", false), ("httpss", false)] {
        let u = RequestUrl {
            text: format!("{}://example.com/", scheme),
            scheme: String::from(scheme),
            host: Some(Host::Name(String::from("example.com"))),
            path: String::from("/"),
        };
        assert_eq!(u.is_secure(), secure);
    }
}
