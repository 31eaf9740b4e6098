//! Client-side HTTP cookie handling: which stored cookies accompany a request,
//! and how cookies received in a response are validated, merged and dropped.
//!
//! A [`CookieStore`] keeps [`Cookie`]s, each scoped to a [`CookieDomain`] and
//! a [`CookiePath`] and ending as its [`CookieExpiration`] says. A
//! [`Session`] joins a store to an HTTP client that the user supplies.
//!
//! Times are Unix timestamps in seconds. The store never reads a clock: each
//! operation that depends on the time takes it as an argument.

mod clock;
pub mod cookie_domain;
pub mod cookie_entity;
pub mod cookie_expiration;
pub mod cookie_path;
pub mod cookie_store;
pub mod error;
pub mod raw_cookie;
pub mod request_url;
pub mod runs;
pub mod session;
pub mod store_model;
pub mod text;

pub use crate::cookie_domain::{is_match, CookieDomain};
pub use crate::cookie_entity::{Cookie, CookieParts};
pub use crate::cookie_expiration::CookieExpiration;
pub use crate::cookie_path::CookiePath;
pub use crate::cookie_store::{CookieStore, StoreAction};
pub use crate::error::CookieError;
pub use crate::raw_cookie::{RawCookie, SameSite};
pub use crate::request_url::{Host, RequestUrl, UrlParseError};
pub use crate::session::{Session, SessionClient, SessionRequest, SessionResponse};
