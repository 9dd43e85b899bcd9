//! Parsing of `key=value` command-line tokens.
//!
//! A token is split at its first `=`: everything before it is the key,
//! everything between the first and the second `=` (or the end of the
//! token) is the value. Text after a second `=` is dropped; this naive
//! behaviour is intentional.

use vstd::prelude::*;
use vstd::string::StrSliceExecFns;
use vstd::string::StringExecFns;

use crate::errors::ParseError;

verus! {

/// A key/value pair parsed from a single `key=value` command-line token,
/// used to build a POST body.
#[derive(Debug, Clone, PartialEq, Eq)]
pub struct KVPair {
    pub k: String,
    pub v: String,
}

/// The token holds at least one `=`.
pub open spec fn contains_eq(s: Seq<char>) -> bool {
    exists|i: int| 0 <= i < s.len() && s[i] == '='
}

/// `i` is the index of the first `=` of `s`.
pub open spec fn is_first_eq(s: Seq<char>, i: int) -> bool {
    &&& 0 <= i < s.len()
    &&& s[i] == '='
    &&& forall|j: int| 0 <= j < i ==> s[j] != '='
}

/// The index of the first `=` of `s`.
pub open spec fn first_eq(s: Seq<char>) -> int
    recommends
        contains_eq(s),
{
    choose|i: int| is_first_eq(s, i)
}

/// Everything before the first `=`.
pub open spec fn parsed_key(s: Seq<char>) -> Seq<char>
    recommends
        contains_eq(s),
{
    s.subrange(0, first_eq(s))
}

/// Where the value ends: at the second `=` of the token, or at its end.
pub open spec fn value_end(s: Seq<char>) -> int
    recommends
        contains_eq(s),
{
    let start = first_eq(s) + 1;
    let rest = s.subrange(start, s.len() as int);
    if contains_eq(rest) {
        start + first_eq(rest)
    } else {
        s.len() as int
    }
}

/// Everything between the first `=` and the second one (or the end).
pub open spec fn parsed_value(s: Seq<char>) -> Seq<char>
    recommends
        contains_eq(s),
{
    s.subrange(first_eq(s) + 1, value_end(s))
}

/// The first `=` of a token is at one index only.
pub proof fn lemma_first_eq_unique(s: Seq<char>, i: int)
    requires
        is_first_eq(s, i),
    ensures
        contains_eq(s),
        first_eq(s) == i,
{
    assert(contains_eq(s));
    let j = choose|j: int| is_first_eq(s, j);
    assert(is_first_eq(s, j));
    if j < i {
        assert(s[j] != '=');
    } else if i < j {
        assert(s[i] != '=');
    }
}

/// The first `=` at or after `from`, if any.
fn find_eq_from(s: &str, from: usize, n: usize) -> (r: Option<usize>)
    requires
        n == s@.len(),
        from <= n,
    ensures
        r matches Some(i) ==> from <= i < n && s@[i as int] == '=' && (forall|j: int|
            from <= j < i ==> s@[j] != '='),
        r is None ==> forall|j: int| from <= j < n ==> s@[j] != '=',
{
    let mut i: usize = from;
    while i < n
        invariant
            from <= i <= n,
            n == s@.len(),
            forall|j: int| from <= j < i ==> s@[j] != '=',
        decreases n - i,
    {
        if s.get_char(i) == '=' {
            return Some(i);
        }
        i = i + 1;
    }
    None
}

impl KVPair {
    /// Split `s` at its first `=` into a key and a value; fail when `s`
    /// holds no `=`. Text after a second `=` is dropped.
    pub fn from_str(s: &str) -> (r: Result<KVPair, ParseError>)
        ensures
            r is Ok <==> contains_eq(s@),
            r matches Ok(p) ==> p.k@ == parsed_key(s@) && p.v@ == parsed_value(s@),
            r matches Err(e) ==> e matches ParseError::Malformed(t) && t@ == s@,
    {
        let n = s.unicode_len();
        match find_eq_from(s, 0, n) {
            None => {
                assert(!contains_eq(s@));
                Err(ParseError::Malformed(String::from_str(s)))
            },
            Some(i) => {
                proof {
                    lemma_first_eq_unique(s@, i as int);
                }
                let key = s.substring_char(0, i).to_owned();
                let vend: usize = match find_eq_from(s, i + 1, n) {
                    Some(j) => j,
                    None => n,
                };
                let value = s.substring_char(i + 1, vend).to_owned();
                proof {
                    let start = i + 1;
                    let rest = s@.subrange(start as int, s@.len() as int);
                    if vend < n {
                        assert(rest[vend - start] == '=');
                        assert(forall|j: int| 0 <= j < vend - start ==> rest[j] != '=');
                        lemma_first_eq_unique(rest, vend - start);
                    } else {
                        assert(forall|j: int| 0 <= j < rest.len() ==> rest[j] != '=') by {
                            assert(forall|j: int|
                                0 <= j < rest.len() ==> rest[j] == s@[start + j]);
                        }
                        assert(!contains_eq(rest));
                    }
                    assert(value_end(s@) == vend as int);
                }
                Ok(KVPair { k: key, v: value })
            },
        }
    }
}

/// Parse a single `key=value` token.
pub fn parse_kv_pair(s: &str) -> (r: Result<KVPair, ParseError>)
    ensures
        r is Ok <==> contains_eq(s@),
        r matches Ok(p) ==> p.k@ == parsed_key(s@) && p.v@ == parsed_value(s@),
        r matches Err(e) ==> e matches ParseError::Malformed(t) && t@ == s@,
{
    KVPair::from_str(s)
}

/// Joining a key and a value that hold no `=` with a single `=` and
/// parsing the result gives the key and the value back.
pub proof fn lemma_kv_token_roundtrip(k: Seq<char>, v: Seq<char>)
    requires
        !contains_eq(k),
        !contains_eq(v),
    ensures
        contains_eq(k + seq!['='] + v),
        parsed_key(k + seq!['='] + v) == k,
        parsed_value(k + seq!['='] + v) == v,
{
    let s = k + seq!['='] + v;
    assert(s.len() == k.len() + 1 + v.len());
    assert(s[k.len() as int] == '=');
    assert(forall|j: int| 0 <= j < k.len() ==> s[j] == k[j]);
    assert(is_first_eq(s, k.len() as int));
    lemma_first_eq_unique(s, k.len() as int);
    assert(parsed_key(s) =~= k);
    let start = k.len() + 1;
    let rest = s.subrange(start as int, s.len() as int);
    assert(rest =~= v);
    assert(value_end(s) == s.len() as int);
    assert(parsed_value(s) =~= v);
}

} // verus!
