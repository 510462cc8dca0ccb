use reqline::request::get_next_word;
use reqline::Method;
use reqline::ParseError;
use reqline::Request;

#[test]
fn full_example() {
    let buffer = b"GET /search?term=rust&tag=lang&tag=systems HTTP/1.1\r\nHost: x\r\n\r\n";
    let request = Request::try_from(&buffer[..]).unwrap();
    assert_eq!(request.method(), Method::Get);
    assert_eq!(request.path(), "/search");
    let query = request.query_string().as_ref().unwrap();
    match query.get("term").unwrap() {
        reqline::QueryStringValue::Single(v) => assert_eq!(v.as_str(), "rust"),
        other => panic!("expected Single, got {:?}", other),
    }
    match query.get("tag").unwrap() {
        reqline::QueryStringValue::Multiple(vs) => {
            assert_eq!(vs.len(), 2);
            assert_eq!(vs[0].as_str(), "lang");
            assert_eq!(vs[1].as_str(), "systems");
        }
        other => panic!("expected Multiple, got {:?}", other),
    }
}

#[test]
fn post_without_query() {
    let buffer = b"POST /submit HTTP/1.1\r\n";
    let request = Request::try_from(&buffer[..]).unwrap();
    assert_eq!(request.method(), Method::Post);
    assert_eq!(request.path(), "/submit");
    assert!(request.query_string().is_none());
}

#[test]
fn simple_line_recovers_method_and_path() {
    let buffer = b"DELETE /items/7 HTTP/1.1\r\n";
    let request = Request::try_from(&buffer[..]).unwrap();
    assert_eq!(request.method(), Method::Delete);
    assert_eq!(request.path(), "/items/7");
    assert!(request.query_string().is_none());
}

#[test]
fn every_method_parses() {
    let cases: Vec<(&[u8], Method)> = vec![
        (b"GET / HTTP/1.1\r\n", Method::Get),
        (b"DELETE / HTTP/1.1\r\n", Method::Delete),
        (b"POST / HTTP/1.1\r\n", Method::Post),
        (b"PUT / HTTP/1.1\r\n", Method::Put),
        (b"HEAD / HTTP/1.1\r\n", Method::Head),
        (b"CONNECT / HTTP/1.1\r\n", Method::Connect),
        (b"OPTIONS / HTTP/1.1\r\n", Method::Options),
        (b"TRACE / HTTP/1.1\r\n", Method::Trace),
        (b"PATCH / HTTP/1.1\r\n", Method::Patch),
    ];
    for (buffer, method) in cases {
        let request = Request::try_from(buffer).unwrap();
        assert_eq!(request.method(), method);
        assert_eq!(request.path(), "/");
    }
}

#[test]
fn older_protocol_is_rejected() {
    let buffer = b"GET / HTTP/1.0\r\n";
    assert_eq!(
        Request::try_from(&buffer[..]).unwrap_err(),
        ParseError::InvalidProtocol
    );
}

#[test]
fn lowercase_protocol_is_rejected() {
    let buffer = b"GET / http/1.1\r\n";
    assert_eq!(
        Request::try_from(&buffer[..]).unwrap_err(),
        ParseError::InvalidProtocol
    );
}

#[test]
fn unrecognized_method_is_rejected() {
    let buffer = b"FOO / HTTP/1.1\r\n";
    assert_eq!(
        Request::try_from(&buffer[..]).unwrap_err(),
        ParseError::InvalidMethod
    );
}

#[test]
fn lowercase_method_is_rejected() {
    let buffer = b"get / HTTP/1.1\r\n";
    assert_eq!(
        Request::try_from(&buffer[..]).unwrap_err(),
        ParseError::InvalidMethod
    );
}

#[test]
fn missing_protocol_token_is_rejected() {
    let buffer = b"GET /\r\n";
    assert_eq!(
        Request::try_from(&buffer[..]).unwrap_err(),
        ParseError::InvalidRequest
    );
}

#[test]
fn empty_buffer_is_rejected() {
    let buffer: &[u8] = b"";
    assert_eq!(
        Request::try_from(buffer).unwrap_err(),
        ParseError::InvalidRequest
    );
}

#[test]
fn invalid_utf8_is_rejected() {
    let buffer: &[u8] = &[0xff, 0xfe, b' ', b'/', b' ', b'H', b'\r', b'\n'];
    assert_eq!(
        Request::try_from(buffer).unwrap_err(),
        ParseError::InvalidEncoding
    );
}

#[test]
fn multibyte_path_is_decoded() {
    let text = "GET /caf\u{e9} HTTP/1.1\r\n";
    let request = Request::try_from(text.as_bytes()).unwrap();
    assert_eq!(request.method(), Method::Get);
    assert_eq!(request.path(), "/caf\u{e9}");
}

#[test]
fn error_messages_are_stable() {
    assert_eq!(ParseError::InvalidRequest.message(), "InvalidRequest");
    assert_eq!(ParseError::InvalidEncoding.message(), "InvalidEncoding");
    assert_eq!(ParseError::InvalidProtocol.message(), "InvalidProtocol");
    assert_eq!(ParseError::InvalidMethod.message(), "InvalidMethod");
}

#[test]
fn next_word_splits_at_space_or_cr() {
    assert_eq!(get_next_word("ab cd"), Some(("ab", "cd")));
    assert_eq!(get_next_word("ab\rcd e"), Some(("ab", "cd e")));
    assert_eq!(get_next_word(" x"), Some(("", "x")));
    assert_eq!(get_next_word("abc"), None);
    assert_eq!(get_next_word(""), None);
}

#[test]
fn method_token_parses_exactly() {
    assert_eq!(Method::parse("GET"), Ok(Method::Get));
    assert_eq!(Method::parse("PATCH"), Ok(Method::Patch));
    assert_eq!(Method::parse("get"), Err(reqline::MethodError));
    assert_eq!(Method::parse("GETX"), Err(reqline::MethodError));
    assert_eq!(Method::parse(""), Err(reqline::MethodError));
}
