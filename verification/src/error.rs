//! Why a cookie is refused.

use vstd::prelude::*;

verus! {

/// The reasons for which a cookie received from a server is not accepted.
#[derive(Debug, Clone, Copy, PartialEq, Eq, Structural)]
pub enum CookieError {
    /// The `Domain` attribute cannot be normalized to an ASCII domain.
    DomainParse,
    /// The `Domain` attribute names an entire public suffix.
    PublicSuffixRejection,
    /// The cookie's domain does not cover the host that sent it.
    DomainMismatch,
    /// The text is no `Set-Cookie` value: it lacks a name, or `=` after it.
    RawCookieParse,
}

} // verus!
