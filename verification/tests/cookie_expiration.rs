use user_agent::{CookieExpiration, RawCookie};

#[test]
fn max_age_counts_from_the_time_of_receipt() {
    assert_eq!(
        CookieExpiration::from_max_age(120, 1_000),
        CookieExpiration::AtUtc(1_120)
    );
    assert_eq!(CookieExpiration::from_max_age(1, -5), CookieExpiration::AtUtc(-4));
}

#[test]
fn a_max_age_that_is_not_positive_is_the_earliest_time() {
    assert_eq!(
        CookieExpiration::from_max_age(0, 1_000),
        CookieExpiration::AtUtc(i64::MIN)
    );
    assert_eq!(
        CookieExpiration::from_max_age(-7, 1_000),
        CookieExpiration::AtUtc(i64::MIN)
    );
    assert!(CookieExpiration::from_max_age(0, 1_000).is_expired(i64::MIN));
    assert!(CookieExpiration::from_max_age(0, 1_000).is_expired(1_000));
}

#[test]
fn a_max_age_beyond_the_latest_time_is_capped() {
    assert_eq!(
        CookieExpiration::from_max_age(i64::MAX, 1),
        CookieExpiration::AtUtc(i64::MAX)
    );
    assert_eq!(
        CookieExpiration::from_max_age(10, i64::MAX - 10),
        CookieExpiration::AtUtc(i64::MAX)
    );
    assert_eq!(
        CookieExpiration::from_max_age(10, i64::MAX - 11),
        CookieExpiration::AtUtc(i64::MAX - 1)
    );
}

#[test]
fn max_age_overrides_expires() {
    let both = RawCookie::parse("a=1; Expires=Wed, 21 Oct 2015 07:28:00 GMT; Max-Age=60").unwrap();
    assert_eq!(
        CookieExpiration::from_raw(&both, 5_000),
        CookieExpiration::AtUtc(5_060)
    );
    let expires = RawCookie::parse("a=1; Expires=Wed, 21 Oct 2015 07:28:00 GMT").unwrap();
    assert_eq!(
        CookieExpiration::from_raw(&expires, 5_000),
        CookieExpiration::AtUtc(1445412480)
    );
    let unreadable_max_age =
        RawCookie::parse("a=1; Max-Age=x; Expires=Wed, 21 Oct 2015 07:28:00 GMT").unwrap();
    assert_eq!(
        CookieExpiration::from_raw(&unreadable_max_age, 5_000),
        CookieExpiration::AtUtc(1445412480)
    );
    let neither = RawCookie::parse("a=1").unwrap();
    assert_eq!(
        CookieExpiration::from_raw(&neither, 5_000),
        CookieExpiration::SessionEnd
    );
}

#[test]
fn a_cookie_has_ended_from_its_time_on() {
    let e = CookieExpiration::AtUtc(100);
    assert!(!e.is_expired(99));
    assert!(e.is_expired(100));
    assert!(e.is_expired(101));
    assert!(e.is_persistent());
}

#[test]
fn a_session_cookie_never_ends_by_time() {
    let e = CookieExpiration::SessionEnd;
    assert!(!e.is_expired(i64::MIN));
    assert!(!e.is_expired(0));
    assert!(!e.is_expired(i64::MAX));
    assert!(!e.is_persistent());
}
