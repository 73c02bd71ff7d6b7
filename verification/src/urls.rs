//! URLs, parsed and joined by the `url` crate that `reqwest` re-exports.
use vstd::prelude::*;

verus! {

/// What `Url::parse` makes of `s`, where it parses: the URL's text, its
/// domain (where its host is a domain name) and its path.
pub uninterp spec fn url_parsed(s: Seq<char>) -> Option<(Seq<char>, Option<Seq<char>>, Seq<char>)>;

/// The text of the URL that `Url::join` makes of `reference` against the
/// base URL that `base` parses to; nothing where either step fails.
pub uninterp spec fn url_joined(base: Seq<char>, reference: Seq<char>) -> Option<Seq<char>>;

pub open spec fn parts_view(p: Option<(String, Option<String>, String)>) -> Option<(Seq<char>, Option<Seq<char>>, Seq<char>)> {
    match p {
        Some((t, d, path)) => Some((t@, match d {
            Some(x) => Some(x@),
            None => None,
        }, path@)),
        None => None,
    }
}

/// Parses `s` with `Url::parse` and hands out the URL's serialization,
/// `Url::domain` and `Url::path`. The contract claims only that the result
/// is the named parse of `s`.
#[verifier::external_body]
pub(crate) fn parse_url(s: &str) -> (r: Option<(String, Option<String>, String)>)
    ensures
        parts_view(r) == url_parsed(s@),
{
    match reqwest::Url::parse(s) {
        Ok(u) => Some((u.to_string(), u.domain().map(|d| d.to_string()), u.path().to_string())),
        Err(_) => None,
    }
}

/// Parses `base` with `Url::parse` and joins `reference` onto it with
/// `Url::join`, handing out the serialization. The contract claims only that
/// the result is the named join of the two texts.
#[verifier::external_body]
pub(crate) fn join_url(base: &str, reference: &str) -> (r: Option<String>)
    ensures
        match r {
            Some(t) => url_joined(base@, reference@) == Some(t@),
            None => url_joined(base@, reference@) is None,
        },
{
    match reqwest::Url::parse(base) {
        Ok(b) => match b.join(reference) {
            Ok(u) => Some(u.to_string()),
            Err(_) => None,
        },
        Err(_) => None,
    }
}

} // verus!
