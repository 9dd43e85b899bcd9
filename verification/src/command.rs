//! Building a validated command from command-line tokens: the URL must
//! be a syntactically valid absolute URL, and every body token must be a
//! `key=value` pair. Any rejection happens before network activity.

use vstd::prelude::*;

use crate::errors::ParseError;
use crate::kv::contains_eq;
use crate::kv::parse_kv_pair;
use crate::kv::parsed_key;
use crate::kv::parsed_value;
use crate::kv::KVPair;
use crate::urlcheck::parse_url;
use crate::urlcheck::url_parses;

verus! {

/// A validated command: a GET, or a POST with its body pairs in
/// command-line order.
#[derive(Debug)]
pub enum Command {
    Get { url: String },
    Post { url: String, body: Vec<KVPair> },
}

/// Every token holds an `=`.
pub open spec fn all_tokens_have_eq(ts: Seq<String>) -> bool {
    forall|i: int| 0 <= i < ts.len() ==> contains_eq(ts[i]@)
}

/// `t` is the first token of `ts` that holds no `=`.
pub open spec fn first_token_without_eq(ts: Seq<String>, t: Seq<char>) -> bool {
    exists|i: int|
        0 <= i < ts.len() && t == ts[i]@ && !contains_eq(ts[i]@) && (forall|j: int|
            0 <= j < i ==> contains_eq(ts[j]@))
}

/// Build a GET command; reject the URL token when it is not a
/// syntactically valid absolute URL.
pub fn build_get(url: &str) -> (r: Result<Command, ParseError>)
    ensures
        r is Ok <==> url_parses(url@),
        r matches Ok(c) ==> c matches Command::Get { url: u } && u@ == url@,
        r matches Err(e) ==> e matches ParseError::InvalidUrl(t) && t@ == url@,
{
    match parse_url(url) {
        Ok(u) => Ok(Command::Get { url: u }),
        Err(e) => Err(e),
    }
}

/// Build a POST command; reject an invalid URL first, then the first
/// body token that holds no `=`.
pub fn build_post(url: &str, tokens: &Vec<String>) -> (r: Result<Command, ParseError>)
    ensures
        r is Ok <==> url_parses(url@) && all_tokens_have_eq(tokens@),
        r matches Ok(c) ==> c matches Command::Post { url: u, body: b } && u@ == url@
            && b@.len() == tokens@.len() && (forall|i: int|
            0 <= i < tokens@.len() ==> b@[i].k@ == parsed_key(tokens@[i]@) && b@[i].v@
                == parsed_value(tokens@[i]@)),
        !url_parses(url@) ==> (r matches Err(e) && e matches ParseError::InvalidUrl(t) && t@
            == url@),
        r matches Err(e) ==> (e matches ParseError::Malformed(t) ==> url_parses(url@)
            && first_token_without_eq(tokens@, t@)),
{
    let u = match parse_url(url) {
        Ok(u) => u,
        Err(e) => {
            return Err(e);
        },
    };
    let mut body: Vec<KVPair> = Vec::new();
    let n = tokens.len();
    let mut i: usize = 0;
    while i < n
        invariant
            0 <= i <= n,
            n == tokens@.len(),
            url_parses(url@),
            body@.len() == i,
            forall|j: int|
                0 <= j < i ==> contains_eq(tokens@[j]@) && body@[j].k@ == parsed_key(
                    tokens@[j]@,
                ) && body@[j].v@ == parsed_value(tokens@[j]@),
        decreases n - i,
    {
        match parse_kv_pair(tokens[i].as_str()) {
            Ok(p) => {
                body.push(p);
            },
            Err(e) => {
                proof {
                    let ii = i as int;
                    assert(!contains_eq(tokens@[ii]@));
                    assert(0 <= ii < tokens@.len() && tokens@[ii]@ == tokens@[ii]@
                        && !contains_eq(tokens@[ii]@) && (forall|j: int|
                        0 <= j < ii ==> contains_eq(tokens@[j]@)));
                    assert(first_token_without_eq(tokens@, tokens@[ii]@));
                }
                return Err(e);
            },
        }
        i = i + 1;
    }
    Ok(Command::Post { url: u, body })
}

} // verus!
