//! Errors reported by the argument parsers and the response renderer.

use vstd::prelude::*;
use vstd::string::StringExecFns;

verus! {

/// An argument was rejected before any network activity.
#[derive(Debug, Clone)]
pub enum ParseError {
    /// A `key=value` token with no `=`; holds the offending token.
    Malformed(String),
    /// A token that is not a syntactically valid absolute URL; holds the
    /// offending token.
    InvalidUrl(String),
}

/// Rendering a response failed; the run is aborted.
#[derive(Debug, Clone, PartialEq, Eq, Structural)]
pub enum RenderError {
    /// The `Content-Type` header was present but did not parse as a MIME type.
    BadContentType,
    /// The body claimed to be JSON but could not be pretty-printed.
    JsonFormat,
}

impl ParseError {
    /// The token that was rejected.
    pub open spec fn spec_token(&self) -> Seq<char> {
        match self {
            ParseError::Malformed(t) => t@,
            ParseError::InvalidUrl(t) => t@,
        }
    }

    /// A message naming the offending token.
    pub fn message(&self) -> (r: String)
        ensures
            r@ == "Failed to parse "@ + self.spec_token(),
    {
        let mut m = String::from_str("Failed to parse ");
        match self {
            ParseError::Malformed(t) => m.append(t.as_str()),
            ParseError::InvalidUrl(t) => m.append(t.as_str()),
        }
        m
    }
}

impl RenderError {
    /// A message describing the failure.
    pub fn message(&self) -> (r: String)
        ensures
            *self == RenderError::BadContentType ==> r@ == "Invalid Content-Type header"@,
            *self == RenderError::JsonFormat ==> r@ == "Failed to pretty-print JSON body"@,
    {
        match self {
            RenderError::BadContentType => String::from_str("Invalid Content-Type header"),
            RenderError::JsonFormat => String::from_str("Failed to pretty-print JSON body"),
        }
    }
}

} // verus!
