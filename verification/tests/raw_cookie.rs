use user_agent::{CookieError, RawCookie, SameSite};

#[test]
fn a_set_cookie_value_is_parsed_into_its_attributes() {
    let c = RawCookie::parse(
        "sid=abc; Domain=.Example.com; Path=/app; Max-Age=3600; \
         Expires=Wed, 21 Oct 2015 07:28:00 GMT; Secure; HttpOnly; SameSite=Lax",
    )
    .unwrap();
    assert_eq!(c.name, "sid");
    assert_eq!(c.value, "abc");
    assert_eq!(c.domain.as_deref(), Some("Example.com"));
    assert_eq!(c.path.as_deref(), Some("/app"));
    assert_eq!(c.max_age, Some(3600));
    assert_eq!(c.expires, Some(1445412480));
    assert_eq!(c.secure, Some(true));
    assert_eq!(c.http_only, Some(true));
    assert_eq!(c.same_site, Some(SameSite::Lax));
}

#[test]
fn a_bare_pair_has_no_attributes() {
    let c = RawCookie::parse(" a = 1 ").unwrap();
    assert_eq!(
        c,
        RawCookie {
            name: String::from("a"),
            value: String::from("1"),
            domain: None,
            path: None,
            max_age: None,
            expires: None,
            secure: None,
            http_only: None,
            same_site: None,
        }
    );
}

#[test]
fn same_site_values_are_told_apart() {
    assert_eq!(
        RawCookie::parse("a=1; SameSite=Strict").unwrap().same_site,
        Some(SameSite::Strict)
    );
    assert_eq!(
        RawCookie::parse("a=1; SameSite=none").unwrap().same_site,
        Some(SameSite::CrossSite)
    );
    assert_eq!(RawCookie::parse("a=1; SameSite=other").unwrap().same_site, None);
}

#[test]
fn a_negative_max_age_is_read_as_zero() {
    assert_eq!(RawCookie::parse("a=1; Max-Age=-5").unwrap().max_age, Some(0));
    assert_eq!(RawCookie::parse("a=1; Max-Age=0").unwrap().max_age, Some(0));
    assert_eq!(RawCookie::parse("a=1; Max-Age=soon").unwrap().max_age, None);
}

#[test]
fn what_is_no_set_cookie_value_is_an_error() {
    assert_eq!(RawCookie::parse("bar"), Err(CookieError::RawCookieParse));
    assert_eq!(RawCookie::parse("=bar"), Err(CookieError::RawCookieParse));
    assert_eq!(RawCookie::parse(""), Err(CookieError::RawCookieParse));
}

#[test]
fn headers_that_do_not_parse_are_passed_over() {
    let headers = vec![
        String::from("a=1"),
        String::from("no pair here"),
        String::from("b=2; Path=/x"),
        String::from("=empty name"),
        String::from("c=3"),
    ];
    let cookies = RawCookie::parse_all(&headers);
    let names: Vec<&str> = cookies.iter().map(|c| c.name.as_str()).collect();
    assert_eq!(names, vec!["a", "b", "c"]);
    assert_eq!(cookies[1].path.as_deref(), Some("/x"));
    assert!(RawCookie::parse_all(&Vec::new()).is_empty());
}
