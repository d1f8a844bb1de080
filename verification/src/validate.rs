//! Pre-flight URL validation: a target URL must parse and carry the
//! `http` or `https` scheme; anything else aborts the run before a
//! single request is issued.

use vstd::prelude::*;

verus! {

/// Whether a text parses as a URL.
/// The name stands for the success of `url::Url::parse`, which depends
/// on the input text alone.
pub uninterp spec fn url_wf(s: Seq<char>) -> bool;

/// The scheme of a parsable URL text, lower-cased.
pub uninterp spec fn url_scheme(s: Seq<char>) -> Seq<char>;

/// Relies on `url::Url::parse` (success depends on the text alone) and
/// `Url::scheme` (the parsed scheme, lower-cased, without the `:`).
#[verifier::external_body]
fn parse_url_scheme(s: &str) -> (r: Option<String>)
    ensures
        r is Some <==> url_wf(s@),
        r matches Some(sch) ==> sch@ == url_scheme(s@),
{
    match url::Url::parse(s) {
        Ok(u) => Some(String::from(u.scheme())),
        Err(_) => None,
    }
}

/// Why a target URL was rejected.
#[derive(Debug, Clone, Copy, PartialEq, Eq, Structural)]
pub enum ValidationError {
    /// The text does not parse as a URL.
    InvalidUrl,
    /// The URL parses, but its scheme is neither `http` nor `https`.
    UnsupportedScheme,
}

/// Accepts exactly the parsable URLs whose scheme is `http` or `https`;
/// each rejection names its reason.
pub fn validate_url(url: &str) -> (r: Result<(), ValidationError>)
    ensures
        r is Ok <==> url_wf(url@) && (url_scheme(url@) == "http"@ || url_scheme(url@)
            == "https"@),
        r matches Err(e) ==> (e is InvalidUrl <==> !url_wf(url@)),
{
    match parse_url_scheme(url) {
        Some(scheme) => {
            let http = String::from_str("http");
            let https = String::from_str("https");
            if scheme == http || scheme == https {
                Ok(())
            } else {
                Err(ValidationError::UnsupportedScheme)
            }
        },
        None => Err(ValidationError::InvalidUrl),
    }
}

} // verus!
