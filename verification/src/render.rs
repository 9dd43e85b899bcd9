//! Rendering of an HTTP response for terminal display: status line,
//! headers in receipt order, and the body, pretty-printed when the
//! `Content-Type` header says the body is JSON.

use vstd::prelude::*;
use vstd::string::StringExecFns;

use crate::errors::RenderError;
use crate::strutil::decimal_of;
use crate::strutil::lower_seq;
use crate::strutil::push_char;
use crate::strutil::str_eq_ignore_ascii_case;
use crate::strutil::u16_to_string;

verus! {

/// The unprocessed result of an HTTP call: protocol version, numeric
/// status code, headers as received (order kept, not deduplicated), and
/// the body text.
pub struct RawResponse {
    pub version: String,
    pub status: u16,
    pub headers: Vec<(String, String)>,
    pub body: String,
}

/// The (name, value) character sequences of a sequence of headers.
pub open spec fn headers_view(hs: Seq<(String, String)>) -> Seq<(Seq<char>, Seq<char>)> {
    hs.map_values(|h: (String, String)| (h.0@, h.1@))
}

/// Whether a header name is `Content-Type`, in any ASCII case.
pub open spec fn is_content_type_name(name: Seq<char>) -> bool {
    lower_seq(name) == lower_seq("content-type"@)
}

/// The value of the first `Content-Type` header, if any.
pub open spec fn spec_content_type(hs: Seq<(Seq<char>, Seq<char>)>) -> Option<Seq<char>>
    decreases hs.len(),
{
    if hs.len() == 0 {
        None
    } else if is_content_type_name(hs[0].0) {
        Some(hs[0].1)
    } else {
        spec_content_type(hs.drop_first())
    }
}

proof fn lemma_content_type_found(hs: Seq<(Seq<char>, Seq<char>)>, i: int)
    requires
        0 <= i < hs.len(),
        is_content_type_name(hs[i].0),
        forall|j: int| 0 <= j < i ==> !is_content_type_name(hs[j].0),
    ensures
        spec_content_type(hs) == Some(hs[i].1),
    decreases i,
{
    if i > 0 {
        assert(hs.drop_first()[i - 1] == hs[i]);
        assert(forall|j: int| 0 <= j < i - 1 ==> hs.drop_first()[j] == hs[j + 1]);
        lemma_content_type_found(hs.drop_first(), i - 1);
    }
}

proof fn lemma_content_type_absent(hs: Seq<(Seq<char>, Seq<char>)>)
    requires
        forall|j: int| 0 <= j < hs.len() ==> !is_content_type_name(hs[j].0),
    ensures
        spec_content_type(hs) is None,
    decreases hs.len(),
{
    if hs.len() > 0 {
        assert(forall|j: int|
            0 <= j < hs.drop_first().len() ==> hs.drop_first()[j] == hs[j + 1]);
        lemma_content_type_absent(hs.drop_first());
    }
}

/// The value of the first `Content-Type` header of the response, if any.
pub fn find_content_type(resp: &RawResponse) -> (r: Option<&String>)
    ensures
        r is Some <==> spec_content_type(headers_view(resp.headers@)) is Some,
        r matches Some(v) ==> Some(v@) == spec_content_type(headers_view(resp.headers@)),
{
    let n = resp.headers.len();
    let mut i: usize = 0;
    while i < n
        invariant
            0 <= i <= n,
            n == resp.headers@.len(),
            forall|j: int|
                0 <= j < i ==> !is_content_type_name(headers_view(resp.headers@)[j].0),
        decreases n - i,
    {
        proof {
            assert(headers_view(resp.headers@)[i as int] == (
                resp.headers@[i as int].0@,
                resp.headers@[i as int].1@,
            ));
        }
        if str_eq_ignore_ascii_case(resp.headers[i].0.as_str(), "content-type") {
            proof {
                assert(is_content_type_name(headers_view(resp.headers@)[i as int].0));
                lemma_content_type_found(headers_view(resp.headers@), i as int);
            }
            return Some(&resp.headers[i].1);
        }
        i = i + 1;
    }
    proof {
        lemma_content_type_absent(headers_view(resp.headers@));
    }
    None
}

/// Whether a header value parses as a MIME type whose essence is
/// `application/json`: `None` when it does not parse at all.
pub uninterp spec fn content_type_class(s: Seq<char>) -> Option<bool>;

/// Relies on mime::Mime::from_str and mime::Mime::essence_str: whether a
/// string parses as a MIME type, and whether its essence (type and
/// subtype, parameters dropped) is `application/json`, are both decided
/// by the characters of the string alone.
#[verifier::external_body]
fn classify_content_type(s: &str) -> (r: Option<bool>)
    ensures
        r == content_type_class(s@),
{
    match s.parse::<mime::Mime>() {
        Ok(m) => Some(m.essence_str() == mime::APPLICATION_JSON.essence_str()),
        Err(_) => None,
    }
}

/// The pretty-printed form of a JSON text, if pretty-printing succeeds.
pub uninterp spec fn json_pretty(s: Seq<char>) -> Option<Seq<char>>;

/// Relies on jsonxf::pretty_print: a pure reformatter (two-space indent,
/// newline separators, no trailing newline) whose result depends on the
/// input text alone.
#[verifier::external_body]
fn pretty_print_json(s: &str) -> (r: Option<String>)
    ensures
        r is Some <==> json_pretty(s@) is Some,
        r matches Some(p) ==> Some(p@) == json_pretty(s@),
{
    jsonxf::pretty_print(s).ok()
}

/// How the body is rendered, as decided by the `Content-Type` header:
/// absent, or present with a non-JSON essence, the body stands
/// unmodified; unparsable, the run fails; JSON, the body is
/// pretty-printed and a pretty-print failure fails the run.
pub open spec fn spec_body_rendering(ct: Option<Seq<char>>, body: Seq<char>) -> Result<
    Seq<char>,
    RenderError,
> {
    match ct {
        Option::None => Result::Ok(body),
        Option::Some(v) => match content_type_class(v) {
            Option::None => Result::Err(RenderError::BadContentType),
            Option::Some(false) => Result::Ok(body),
            Option::Some(true) => match json_pretty(body) {
                Option::Some(p) => Result::Ok(p),
                Option::None => Result::Err(RenderError::JsonFormat),
            },
        },
    }
}

/// With no `Content-Type` header at all, or with one whose essence is
/// not JSON, the renderer emits the body unmodified.
pub proof fn lemma_body_unmodified(ct: Option<Seq<char>>, body: Seq<char>)
    requires
        match ct {
            Option::None => true,
            Option::Some(v) => content_type_class(v) == Option::Some(false),
        },
    ensures
        spec_body_rendering(ct, body) == Result::<Seq<char>, RenderError>::Ok(body),
{
}

/// The view of an optional borrowed header value.
pub open spec fn opt_view(ct: Option<&String>) -> Option<Seq<char>> {
    match ct {
        Option::None => Option::None,
        Option::Some(v) => Option::Some(v@),
    }
}

/// Render the body under the given `Content-Type` header value.
pub fn render_body(ct: Option<&String>, body: &String) -> (r: Result<String, RenderError>)
    ensures
        r matches Ok(t) ==> spec_body_rendering(opt_view(ct), body@) == Result::<
            Seq<char>,
            RenderError,
        >::Ok(t@),
        r matches Err(e) ==> spec_body_rendering(opt_view(ct), body@) == Result::<
            Seq<char>,
            RenderError,
        >::Err(e),
{
    match ct {
        None => Ok(body.clone()),
        Some(v) => match classify_content_type(v.as_str()) {
            None => Err(RenderError::BadContentType),
            Some(false) => Ok(body.clone()),
            Some(true) => match pretty_print_json(body.as_str()) {
                Some(p) => Ok(p),
                None => Err(RenderError::JsonFormat),
            },
        },
    }
}

/// The status line: protocol version, a space, the status code in
/// decimal, then a blank line.
pub open spec fn rendered_status(version: Seq<char>, status: int) -> Seq<char> {
    version + seq![' '] + decimal_of(status) + seq!['\n', '\n']
}

/// Render the status line followed by a blank line.
pub fn render_status_line(version: &str, status: u16) -> (r: String)
    ensures
        r@ == rendered_status(version@, status as int),
{
    let mut s = String::from_str(version);
    push_char(&mut s, ' ');
    let num = u16_to_string(status);
    s.append(num.as_str());
    push_char(&mut s, '\n');
    push_char(&mut s, '\n');
    proof {
        assert(s@ =~= rendered_status(version@, status as int));
    }
    s
}

/// The headers, one `name: value` line each, in receipt order.
pub open spec fn rendered_headers(hs: Seq<(Seq<char>, Seq<char>)>) -> Seq<char>
    decreases hs.len(),
{
    if hs.len() == 0 {
        Seq::empty()
    } else {
        rendered_headers(hs.drop_last()) + hs.last().0 + seq![':', ' '] + hs.last().1
            + seq!['\n']
    }
}

/// Render each header as a `name: value` line, then a blank line.
pub fn render_headers(headers: &Vec<(String, String)>) -> (r: String)
    ensures
        r@ == rendered_headers(headers_view(headers@)) + seq!['\n'],
{
    let mut s = String::new();
    let n = headers.len();
    let mut i: usize = 0;
    proof {
        assert(s@ =~= rendered_headers(headers_view(headers@).take(0)));
    }
    while i < n
        invariant
            0 <= i <= n,
            n == headers@.len(),
            s@ == rendered_headers(headers_view(headers@).take(i as int)),
        decreases n - i,
    {
        s.append(headers[i].0.as_str());
        push_char(&mut s, ':');
        push_char(&mut s, ' ');
        s.append(headers[i].1.as_str());
        push_char(&mut s, '\n');
        proof {
            let pre = headers_view(headers@).take(i as int);
            let post = headers_view(headers@).take(i as int + 1);
            assert(post.drop_last() =~= pre);
            assert(post.last() == (headers@[i as int].0@, headers@[i as int].1@));
            assert(s@ =~= rendered_headers(post));
        }
        i = i + 1;
    }
    push_char(&mut s, '\n');
    proof {
        assert(headers_view(headers@).take(n as int) =~= headers_view(headers@));
    }
    s
}

/// The full rendering of a response: status line, blank line, headers,
/// blank line, then the rendered body and a final newline; or the body
/// rendering error.
pub open spec fn spec_rendered_response(
    version: Seq<char>,
    status: int,
    hs: Seq<(Seq<char>, Seq<char>)>,
    body: Seq<char>,
) -> Result<Seq<char>, RenderError> {
    match spec_body_rendering(spec_content_type(hs), body) {
        Result::Ok(b) => Result::Ok(
            rendered_status(version, status) + rendered_headers(hs) + seq!['\n'] + b
                + seq!['\n'],
        ),
        Result::Err(e) => Result::Err(e),
    }
}

/// Render the whole response for terminal display.
pub fn render_response(resp: &RawResponse) -> (r: Result<String, RenderError>)
    ensures
        ({
            let s = spec_rendered_response(
                resp.version@,
                resp.status as int,
                headers_view(resp.headers@),
                resp.body@,
            );
            &&& (r is Ok <==> s is Ok)
            &&& (r matches Ok(t) ==> Result::<Seq<char>, RenderError>::Ok(t@) == s)
            &&& (r matches Err(e) ==> Result::<Seq<char>, RenderError>::Err(e) == s)
        }),
{
    let ct = find_content_type(resp);
    let rendered = render_body(ct, &resp.body);
    match rendered {
        Err(e) => Err(e),
        Ok(b) => {
            let mut s = render_status_line(resp.version.as_str(), resp.status);
            let hdrs = render_headers(&resp.headers);
            s.append(hdrs.as_str());
            s.append(b.as_str());
            push_char(&mut s, '\n');
            proof {
                let spec_r = spec_rendered_response(
                    resp.version@,
                    resp.status as int,
                    headers_view(resp.headers@),
                    resp.body@,
                );
                assert(s@ =~= spec_r->Ok_0);
            }
            Ok(s)
        },
    }
}

} // verus!
