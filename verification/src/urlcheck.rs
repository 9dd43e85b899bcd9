//! Validation of URL command-line tokens.
//!
//! A token must parse as a syntactically valid absolute URL (scheme and
//! authority at minimum) before it is accepted; on success the token is
//! returned unchanged, with no normalization.

use vstd::prelude::*;
use vstd::string::StringExecFns;

use crate::errors::ParseError;

verus! {

/// Whether `s` is a syntactically valid absolute URL.
pub uninterp spec fn url_parses(s: Seq<char>) -> bool;

/// Relies on url::Url::parse: it accepts exactly the syntactically valid
/// absolute URLs, deciding by the characters of the token alone.
#[verifier::external_body]
fn url_is_valid(s: &str) -> (r: bool)
    ensures
        r == url_parses(s@),
{
    url::Url::parse(s).is_ok()
}

/// Accept `s` unchanged when it is a syntactically valid absolute URL;
/// reject it otherwise.
pub fn parse_url(s: &str) -> (r: Result<String, ParseError>)
    ensures
        r is Ok <==> url_parses(s@),
        r matches Ok(u) ==> u@ == s@,
        r matches Err(e) ==> e matches ParseError::InvalidUrl(t) && t@ == s@,
{
    if url_is_valid(s) {
        Ok(String::from_str(s))
    } else {
        Err(ParseError::InvalidUrl(String::from_str(s)))
    }
}

} // verus!
