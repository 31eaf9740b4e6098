//! When a cookie ends.

use vstd::prelude::*;
use crate::raw_cookie::{RawCookie, RawCookieView};

verus! {

/// When a cookie ends. Times are Unix timestamps in seconds, UTC.
#[derive(Debug, Clone, Copy, PartialEq, Eq, Structural, Hash)]
pub enum CookieExpiration {
    /// The cookie ends at this time.
    AtUtc(i64),
    /// The cookie ends with the session, not by time.
    SessionEnd,
}

/// The expiration that a `Max-Age` of `max_age` seconds gives at time `now`:
/// the earliest time there is where it is not positive, else `now` plus
/// `max_age`, capped at the latest time there is.
pub open spec fn expiration_of_max_age(max_age: int, now: int) -> CookieExpiration {
    if max_age <= 0 {
        CookieExpiration::AtUtc(i64::MIN)
    } else if now + max_age > i64::MAX {
        CookieExpiration::AtUtc(i64::MAX)
    } else {
        CookieExpiration::AtUtc((now + max_age) as i64)
    }
}

/// The expiration of a cookie with the attributes `raw`, received at `now`:
/// `Max-Age` decides where it is present, else `Expires`, else the cookie
/// ends with the session.
pub open spec fn expiration_of_raw(raw: RawCookieView, now: int) -> CookieExpiration {
    match raw.max_age {
        Some(max_age) => expiration_of_max_age(max_age, now),
        None => match raw.expires {
            Some(t) => CookieExpiration::AtUtc(t as i64),
            None => CookieExpiration::SessionEnd,
        },
    }
}

impl CookieExpiration {
    /// Whether the cookie has ended by time at `now`. A session cookie never
    /// has.
    pub open spec fn expired_at(self, now: int) -> bool {
        match self {
            CookieExpiration::AtUtc(t) => t <= now,
            CookieExpiration::SessionEnd => false,
        }
    }

    /// Whether the cookie outlives the session.
    pub open spec fn persistent(self) -> bool {
        self is AtUtc
    }

    /// The expiration that a `Max-Age` of `max_age` seconds gives at `now`.
    pub fn from_max_age(max_age: i64, now: i64) -> (r: CookieExpiration)
        ensures
            r == expiration_of_max_age(max_age as int, now as int),
    {
        if max_age <= 0 {
            CookieExpiration::AtUtc(i64::MIN)
        } else if now > i64::MAX - max_age {
            CookieExpiration::AtUtc(i64::MAX)
        } else {
            CookieExpiration::AtUtc(now + max_age)
        }
    }

    /// The expiration of a cookie with the attributes `raw`, received at
    /// `now`.
    pub fn from_raw(raw: &RawCookie, now: i64) -> (r: CookieExpiration)
        ensures
            r == expiration_of_raw(raw@, now as int),
    {
        match raw.max_age {
            Some(max_age) => CookieExpiration::from_max_age(max_age, now),
            None => match raw.expires {
                Some(t) => CookieExpiration::AtUtc(t),
                None => CookieExpiration::SessionEnd,
            },
        }
    }

    /// Whether the cookie has ended by time at `now`.
    pub fn is_expired(&self, now: i64) -> (r: bool)
        ensures
            r == self.expired_at(now as int),
    {
        match self {
            CookieExpiration::AtUtc(t) => *t <= now,
            CookieExpiration::SessionEnd => false,
        }
    }

    /// Whether the cookie outlives the session.
    pub fn is_persistent(&self) -> (r: bool)
        ensures
            r == self.persistent(),
    {
        match self {
            CookieExpiration::AtUtc(_) => true,
            CookieExpiration::SessionEnd => false,
        }
    }
}

/// A cookie with a `Max-Age` that is not positive has ended at every time.
pub proof fn lemma_non_positive_max_age_is_expired(max_age: int, now: int, later: i64)
    requires
        max_age <= 0,
    ensures
        expiration_of_max_age(max_age, now).expired_at(later as int),
{
}

/// A cookie with a positive `Max-Age` has not ended at the time it is
/// received, unless that is the last time there is.
pub proof fn lemma_positive_max_age_is_live(max_age: int, now: i64)
    requires
        max_age > 0,
        now < i64::MAX,
    ensures
        !expiration_of_max_age(max_age, now as int).expired_at(now as int),
{
}

} // verus!
