use httpie::command::Command;
use httpie::command::{build_get, build_post};
use httpie::parse_kv_pair;
use httpie::parse_url;
use httpie::KVPair;
use httpie::ParseError;

#[test]
fn parse_url_works() {
    assert!(parse_url("abc").is_err());
    assert!(parse_url("http://abc.xyz").is_ok());
    assert!(parse_url("https://httpbin.org/post").is_ok());
}

#[test]
fn parse_kv_pair_works() {
    assert!(parse_kv_pair("a").is_err());
    assert_eq!(
        parse_kv_pair("a=1").unwrap(),
        KVPair {
            k: "a".into(),
            v: "1".into(),
        }
    );

    assert_eq!(
        parse_kv_pair("b=").unwrap(),
        KVPair {
            k: "b".into(),
            v: "".into(),
        }
    )
}

#[test]
fn tokens_without_eq_are_rejected() {
    assert!(parse_kv_pair("").is_err());
    assert!(parse_kv_pair("abc").is_err());
    assert!(parse_kv_pair("key value").is_err());
}

#[test]
fn key_and_value_come_back() {
    assert_eq!(
        parse_kv_pair("key=value").unwrap(),
        KVPair {
            k: "key".into(),
            v: "value".into(),
        }
    );
}

#[test]
fn leading_eq_gives_empty_key() {
    assert_eq!(
        parse_kv_pair("=v").unwrap(),
        KVPair {
            k: "".into(),
            v: "v".into(),
        }
    );
}

#[test]
fn text_after_second_eq_is_dropped() {
    assert_eq!(
        parse_kv_pair("a=b=c").unwrap(),
        KVPair {
            k: "a".into(),
            v: "b".into(),
        }
    );
}

#[test]
fn valid_url_is_returned_unchanged() {
    assert_eq!(parse_url("http://abc.xyz").unwrap(), "http://abc.xyz");
}

#[test]
fn parse_errors_name_the_token() {
    let e = parse_url("abc").unwrap_err();
    assert!(matches!(e, ParseError::InvalidUrl(ref t) if t == "abc"));
    assert_eq!(e.message(), "Failed to parse abc");

    let e = parse_kv_pair("nopair").unwrap_err();
    assert!(matches!(e, ParseError::Malformed(ref t) if t == "nopair"));
    assert_eq!(e.message(), "Failed to parse nopair");
}

#[test]
fn build_get_validates_the_url() {
    assert!(build_get("abc").is_err());
    match build_get("http://abc.xyz").unwrap() {
        Command::Get { url } => assert_eq!(url, "http://abc.xyz"),
        Command::Post { .. } => panic!("expected a GET command"),
    }
}

#[test]
fn build_post_validates_url_and_tokens() {
    let tokens = vec![String::from("foo=bar"), String::from("baz=")];
    match build_post("https://httpbin.org/post", &tokens).unwrap() {
        Command::Post { url, body } => {
            assert_eq!(url, "https://httpbin.org/post");
            assert_eq!(body.len(), 2);
            assert_eq!(body[0].k, "foo");
            assert_eq!(body[0].v, "bar");
            assert_eq!(body[1].k, "baz");
            assert_eq!(body[1].v, "");
        }
        Command::Get { .. } => panic!("expected a POST command"),
    }

    let e = build_post("abc", &tokens).unwrap_err();
    assert!(matches!(e, ParseError::InvalidUrl(ref t) if t == "abc"));

    let bad = vec![String::from("foo=bar"), String::from("nopair")];
    let e = build_post("https://httpbin.org/post", &bad).unwrap_err();
    assert!(matches!(e, ParseError::Malformed(ref t) if t == "nopair"));
}
