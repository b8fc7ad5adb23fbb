use minihttp::body_parser::{BodyParser, DecodeError};
use minihttp::method::Method;
use minihttp::request::{ParseError, Request};

#[test]
fn parse_simple_get() {
    let req = Request::parse("GET /about HTTP/1.1\r\nHost: x\r\n\r\n").unwrap();
    assert_eq!(req.method, Some(Method::Get));
    assert_eq!(req.path.as_deref(), Some("/about"));
    assert_eq!(req.version.as_deref(), Some("HTTP/1.1"));
    assert_eq!(req.headers.get("Host").map(|s| s.as_str()), Some("x"));
    assert!(req.body.is_none());
}

#[test]
fn parse_unrecognized_method_is_not_an_error() {
    let req = Request::parse("FOO / HTTP/1.1\r\n\r\n").unwrap();
    assert_eq!(req.method, None);
    assert_eq!(req.path.as_deref(), Some("/"));
}

#[test]
fn parse_body_kept_raw() {
    let req = Request::parse(
        "POST /submit HTTP/1.1\r\nContent-Type: application/json\r\n\r\n{\"a\":1}",
    )
    .unwrap();
    let body = req.body.unwrap();
    assert_eq!(body.raw.as_deref(), Some("{\"a\":1}"));
    assert!(body.json.is_none());
    assert!(body.url_encoded.is_none());
}

#[test]
fn parse_multiline_body_rejoined() {
    let req = Request::parse("POST / HTTP/1.1\r\n\r\nline one\r\nline two").unwrap();
    assert_eq!(req.body.unwrap().raw.as_deref(), Some("line one\nline two"));
}

#[test]
fn parse_error_variants() {
    assert!(matches!(Request::parse(""), Err(ParseError::MissingRequestLine)));
    assert!(matches!(Request::parse("\r\n"), Err(ParseError::MissingMethod)));
    assert!(matches!(Request::parse("GET\r\n\r\n"), Err(ParseError::MissingPath)));
    assert!(matches!(Request::parse("GET /\r\n\r\n"), Err(ParseError::MissingVersion)));
    assert!(matches!(
        Request::parse("GET / HTTP/1.1\r\nNoSeparatorHere\r\n\r\n"),
        Err(ParseError::MalformedHeader)
    ));
}

#[test]
fn method_tokens() {
    assert_eq!(Method::from("GET"), Some(Method::Get));
    assert_eq!(Method::from("POST"), Some(Method::Post));
    assert_eq!(Method::from("PUT"), Some(Method::Put));
    assert_eq!(Method::from("DELETE"), Some(Method::Delete));
    assert_eq!(Method::from("PATCH"), Some(Method::Patch));
    assert_eq!(Method::from("get"), None);
    assert_eq!(Method::from("FOO"), None);
}

fn json_request(raw: &str) -> Request {
    let mut text = String::from("POST /submit HTTP/1.1\r\nContent-Type: application/json\r\n\r\n");
    text.push_str(raw);
    Request::parse(&text).unwrap()
}

#[test]
fn json_middleware_decodes_once() {
    let mw = BodyParser::json();
    let mut req = json_request("{\"a\": 1}");
    assert!(mw.handle(&mut req).is_ok());
    assert!(req.body.as_ref().unwrap().json.is_some());
    assert_eq!(req.body.as_ref().unwrap().raw.as_deref(), Some("{\"a\": 1}"));
}

#[test]
fn json_middleware_is_idempotent() {
    let mw = BodyParser::json();
    let mut req = json_request("{\"a\": 1}");
    assert!(mw.handle(&mut req).is_ok());
    let first = format!("{:?}", req.body.as_ref().unwrap().json);
    assert!(mw.handle(&mut req).is_ok());
    let second = format!("{:?}", req.body.as_ref().unwrap().json);
    assert_eq!(first, second);
    assert_eq!(req.body.as_ref().unwrap().raw.as_deref(), Some("{\"a\": 1}"));
}

#[test]
fn json_middleware_rejects_bad_body() {
    let mw = BodyParser::json();
    let mut req = json_request("{not json");
    assert_eq!(mw.handle(&mut req), Err(DecodeError::InvalidJson));
    assert!(req.body.as_ref().unwrap().json.is_none());
}

#[test]
fn json_middleware_skips_other_content_types() {
    let mw = BodyParser::json();
    let mut req = Request::parse("POST / HTTP/1.1\r\nContent-Type: text/plain\r\n\r\n{not json")
        .unwrap();
    assert!(mw.handle(&mut req).is_ok());
    assert!(req.body.as_ref().unwrap().json.is_none());
}

fn form_request(raw: &str) -> Request {
    let mut text = String::from(
        "POST /submit HTTP/1.1\r\nContent-Type: application/x-www-form-urlencoded\r\n\r\n",
    );
    text.push_str(raw);
    Request::parse(&text).unwrap()
}

#[test]
fn form_middleware_decodes_pairs() {
    let mw = BodyParser::url_encoded();
    let mut req = form_request("a=1&b=two");
    assert!(mw.handle(&mut req).is_ok());
    let pairs = req.body.as_ref().unwrap().url_encoded.clone().unwrap();
    assert_eq!(
        pairs,
        vec![("a".to_string(), "1".to_string()), ("b".to_string(), "two".to_string())]
    );
}

#[test]
fn form_middleware_is_idempotent() {
    let mw = BodyParser::url_encoded();
    let mut req = form_request("a=1&b=two");
    assert!(mw.handle(&mut req).is_ok());
    let first = req.body.as_ref().unwrap().url_encoded.clone();
    assert!(mw.handle(&mut req).is_ok());
    assert_eq!(req.body.as_ref().unwrap().url_encoded, first);
    assert_eq!(req.body.as_ref().unwrap().raw.as_deref(), Some("a=1&b=two"));
}

#[test]
fn form_middleware_skips_other_content_types() {
    let mw = BodyParser::url_encoded();
    let mut req = Request::parse("POST / HTTP/1.1\r\nContent-Type: text/plain\r\n\r\na=1")
        .unwrap();
    assert!(mw.handle(&mut req).is_ok());
    assert!(req.body.as_ref().unwrap().url_encoded.is_none());
}
