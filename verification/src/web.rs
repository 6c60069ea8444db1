//! Trusted declarations around the `url` crate: resolving a reference
//! against a base URL, and reading a URL string's host and path.
//!
//! `Url::parse`, `Url::join`, `Url::host_str`, `Url::path` and `Url::as_str`
//! are functions of their string arguments alone, so each result is given a
//! name that the wrappers' contracts apply; the crawler's contracts are then
//! stated exactly over those names. The wrappers take and return plain
//! strings; no value of the outside crate crosses into verified code.

use vstd::prelude::*;

verus! {

/// The serialisation of `rel` resolved against the URL string `base`;
/// `None` when `base` does not parse as an absolute URL or the resolution
/// fails. What the url crate computes from the two strings alone.
pub uninterp spec fn join_of(base: Seq<char>, rel: Seq<char>) -> Option<Seq<char>>;

/// The host of the URL string `u`; `None` when `u` does not parse or has no
/// host. What the url crate computes from the string alone.
pub uninterp spec fn host_of(u: Seq<char>) -> Option<Seq<char>>;

/// The path of the URL string `u`; empty when `u` does not parse. What the
/// url crate computes from the string alone.
pub uninterp spec fn path_of(u: Seq<char>) -> Seq<char>;

/// Relies on `url::Url::parse`, `Url::join` and `Url::as_str`: resolves
/// `rel` against `base` and returns the resolved URL's serialisation. All
/// three depend on their arguments alone, so the result is
/// `join_of(base@, rel@)`; a failure is a resolution failure, never a panic.
#[verifier::external_body]
pub(crate) fn resolve_url(base: &str, rel: &str) -> (r: Option<String>)
    ensures
        match r {
            Some(s) => join_of(base@, rel@) == Some(s@),
            None => join_of(base@, rel@) is None,
        },
{
    match url::Url::parse(base) {
        Ok(b) => match b.join(rel) {
            Ok(u) => Some(u.as_str().to_string()),
            Err(_) => None,
        },
        Err(_) => None,
    }
}

/// Relies on `url::Url::parse` and `Url::host_str`: the host component of
/// the URL string, a function of the string alone.
#[verifier::external_body]
pub(crate) fn host_of_url(u: &str) -> (r: Option<String>)
    ensures
        match r {
            Some(h) => host_of(u@) == Some(h@),
            None => host_of(u@) is None,
        },
{
    match url::Url::parse(u) {
        Ok(p) => match p.host_str() {
            Some(h) => Some(h.to_string()),
            None => None,
        },
        Err(_) => None,
    }
}

/// Relies on `url::Url::parse` and `Url::path`: the path component of the
/// URL string (empty when it does not parse), a function of the string alone.
#[verifier::external_body]
pub(crate) fn path_of_url(u: &str) -> (r: String)
    ensures
        r@ == path_of(u@),
{
    match url::Url::parse(u) {
        Ok(p) => p.path().to_string(),
        Err(_) => String::new(),
    }
}

} // verus!
