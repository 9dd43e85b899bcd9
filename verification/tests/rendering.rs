use httpie::build_json_body;
use httpie::render::{find_content_type, render_body, render_headers, render_status_line};
use httpie::render_response;
use httpie::KVPair;
use httpie::RawResponse;
use httpie::RenderError;

fn pair(k: &str, v: &str) -> KVPair {
    KVPair {
        k: k.into(),
        v: v.into(),
    }
}

fn response(headers: Vec<(&str, &str)>, body: &str) -> RawResponse {
    RawResponse {
        version: "HTTP/1.1".into(),
        status: 200,
        headers: headers
            .into_iter()
            .map(|(n, v)| (n.to_string(), v.to_string()))
            .collect(),
        body: body.into(),
    }
}

#[test]
fn json_body_from_one_pair() {
    let pairs = vec![pair("foo", "bar")];
    assert_eq!(build_json_body(&pairs), "{\"foo\":\"bar\"}");
}

#[test]
fn json_body_of_no_pairs_is_empty_object() {
    let pairs: Vec<KVPair> = vec![];
    assert_eq!(build_json_body(&pairs), "{}");
}

#[test]
fn json_body_later_duplicate_key_wins() {
    let pairs = vec![pair("a", "1"), pair("b", "2"), pair("a", "3")];
    assert_eq!(build_json_body(&pairs), "{\"a\":\"3\",\"b\":\"2\"}");
}

#[test]
fn json_body_escapes_strings() {
    let pairs = vec![pair("a\"b", "c\\d"), pair("n", "x\ny")];
    assert_eq!(
        build_json_body(&pairs),
        "{\"a\\\"b\":\"c\\\\d\",\"n\":\"x\\ny\"}"
    );
}

#[test]
fn json_body_escapes_control_chars() {
    let pairs = vec![pair("k", "a\u{1}b")];
    assert_eq!(build_json_body(&pairs), "{\"k\":\"a\\u0001b\"}");
}

#[test]
fn json_response_is_pretty_printed() {
    let resp = response(vec![("Content-Type", "application/json")], "{\"a\":1}");
    let ct = find_content_type(&resp);
    let out = render_body(ct, &resp.body).unwrap();
    assert_eq!(out, "{\n  \"a\": 1\n}");
}

#[test]
fn json_with_charset_is_pretty_printed() {
    let resp = response(
        vec![("Content-Type", "application/json; charset=utf-8")],
        "{\"a\":1}",
    );
    let ct = find_content_type(&resp);
    let out = render_body(ct, &resp.body).unwrap();
    assert_eq!(out, "{\n  \"a\": 1\n}");
}

#[test]
fn content_type_name_is_case_insensitive() {
    let resp = response(vec![("CONTENT-TYPE", "application/json")], "{\"a\":1}");
    let ct = find_content_type(&resp);
    assert_eq!(ct.unwrap().as_str(), "application/json");
}

#[test]
fn plain_text_body_is_unmodified() {
    let resp = response(vec![("Content-Type", "text/plain")], "hello");
    let ct = find_content_type(&resp);
    let out = render_body(ct, &resp.body).unwrap();
    assert_eq!(out, "hello");
}

#[test]
fn missing_content_type_leaves_body_unmodified() {
    let resp = response(vec![("X-Other", "1")], "{\"a\":1}");
    let ct = find_content_type(&resp);
    assert!(ct.is_none());
    let out = render_body(ct, &resp.body).unwrap();
    assert_eq!(out, "{\"a\":1}");
}

#[test]
fn unparsable_content_type_is_fatal() {
    let resp = response(vec![("Content-Type", "abc")], "hello");
    let ct = find_content_type(&resp);
    let e = render_body(ct, &resp.body).unwrap_err();
    assert_eq!(e, RenderError::BadContentType);
    assert_eq!(e.message(), "Invalid Content-Type header");
}

#[test]
fn status_line_has_version_and_code() {
    assert_eq!(render_status_line("HTTP/1.1", 200), "HTTP/1.1 200\n\n");
    assert_eq!(render_status_line("HTTP/2.0", 404), "HTTP/2.0 404\n\n");
    assert_eq!(render_status_line("HTTP/1.0", 5), "HTTP/1.0 5\n\n");
}

#[test]
fn headers_render_in_receipt_order() {
    let headers = vec![
        ("Date".to_string(), "today".to_string()),
        ("Server".to_string(), "x".to_string()),
        ("Date".to_string(), "again".to_string()),
    ];
    assert_eq!(
        render_headers(&headers),
        "Date: today\nServer: x\nDate: again\n\n"
    );
}

#[test]
fn whole_response_renders_in_order() {
    let resp = response(
        vec![("Content-Type", "application/json"), ("Server", "x")],
        "{\"a\":1}",
    );
    assert_eq!(
        render_response(&resp).unwrap(),
        "HTTP/1.1 200\n\nContent-Type: application/json\nServer: x\n\n{\n  \"a\": 1\n}\n"
    );
}

#[test]
fn post_scenario_builds_json_and_status_line() {
    let tokens = vec![String::from("foo=bar")];
    match httpie::command::build_post("https://httpbin.org/post", &tokens).unwrap() {
        httpie::command::Command::Post { url, body } => {
            assert_eq!(url, "https://httpbin.org/post");
            assert_eq!(build_json_body(&body), "{\"foo\":\"bar\"}");
        }
        httpie::command::Command::Get { .. } => panic!("expected a POST command"),
    }
    let status_line = render_status_line("HTTP/1.1", 200);
    assert!(status_line.contains("HTTP/1.1"));
    assert!(status_line.contains("200"));
}
