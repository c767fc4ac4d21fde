use request_line::http::method::{Method, MethodError};
use request_line::http::request::{get_next_word, ParseError, Request};

#[test]
fn path_without_query() {
    let req = Request::try_from(b"GET /home HTTP/1.1\r\n".as_slice()).unwrap();
    assert_eq!(req.method, Method::Get);
    assert_eq!(req.path, "/home");
    assert_eq!(req.query, None);
}

#[test]
fn query_present() {
    let req = Request::try_from(b"GET /search?q=rust HTTP/1.1\r\n".as_slice()).unwrap();
    assert_eq!(req.method, Method::Get);
    assert_eq!(req.path, "/search");
    assert_eq!(req.query, Some("q=rust"));
}

#[test]
fn round_trip_every_method() {
    let cases = [
        ("GET", Method::Get),
        ("POST", Method::Post),
        ("PUT", Method::Put),
        ("DELETE", Method::Delete),
        ("HEAD", Method::Head),
        ("OPTIONS", Method::Options),
        ("PATCH", Method::Patch),
    ];
    for (name, method) in cases {
        let line = format!("{} /items/7?page=2 HTTP/1.1\r\n", name);
        let req = Request::try_from(line.as_bytes()).unwrap();
        assert_eq!(req.method, method);
        assert_eq!(req.path, "/items/7");
        assert_eq!(req.query, Some("page=2"));
    }
}

#[test]
fn bad_protocol() {
    let r = Request::try_from(b"GET / HTTP/1.0\r\n".as_slice());
    assert!(matches!(r, Err(ParseError::InvalidProtocol)));
}

#[test]
fn unknown_method() {
    let r = Request::try_from(b"FROB / HTTP/1.1\r\n".as_slice());
    assert!(matches!(r, Err(ParseError::InvalidMethod)));
}

#[test]
fn truncated_request() {
    let r = Request::try_from(b"GET /".as_slice());
    assert!(matches!(r, Err(ParseError::InvalidRequest)));
}

#[test]
fn empty_input_is_invalid_request() {
    let r = Request::try_from(b"".as_slice());
    assert!(matches!(r, Err(ParseError::InvalidRequest)));
}

#[test]
fn invalid_encoding() {
    let r = Request::try_from([0xff, 0xfe].as_slice());
    assert!(matches!(r, Err(ParseError::InvalidEncoding)));
}

#[test]
fn encoding_checked_before_structure() {
    // The buffer is also structurally broken and names no verb; the
    // encoding error still wins because decoding happens first.
    let r = Request::try_from(b"FROB /\xff HTTP/1.0\r\n".as_slice());
    assert!(matches!(r, Err(ParseError::InvalidEncoding)));
}

#[test]
fn determinism() {
    let buf = b"POST /submit?x=1 HTTP/1.1\r\n".as_slice();
    let first = Request::try_from(buf).unwrap();
    for _ in 0..3 {
        let again = Request::try_from(buf).unwrap();
        assert_eq!(again.method, first.method);
        assert_eq!(again.path, first.path);
        assert_eq!(again.query, first.query);
    }
    let bad = b"GET / HTTP/1.0\r\n".as_slice();
    for _ in 0..3 {
        assert!(matches!(Request::try_from(bad), Err(ParseError::InvalidProtocol)));
    }
}

#[test]
fn borrowed_parts_are_spans_of_the_input() {
    let buf = b"GET /search?q=rust HTTP/1.1\r\n";
    let text = std::str::from_utf8(buf.as_slice()).unwrap();
    let req = Request::try_from(buf.as_slice()).unwrap();
    assert_eq!(req.path, &text[4..11]);
    assert_eq!(req.query, Some(&text[12..18]));
}

#[test]
fn multibyte_path() {
    let req = Request::try_from("GET /caf\u{e9}/menu HTTP/1.1\r\n".as_bytes()).unwrap();
    assert_eq!(req.path, "/caf\u{e9}/menu");
    assert_eq!(req.query, None);
}

#[test]
fn query_keeps_later_question_marks() {
    let req = Request::try_from(b"GET /a?b?c HTTP/1.1\r\n".as_slice()).unwrap();
    assert_eq!(req.path, "/a");
    assert_eq!(req.query, Some("b?c"));
}

#[test]
fn empty_query_after_question_mark() {
    let req = Request::try_from(b"GET /p? HTTP/1.1\r\n".as_slice()).unwrap();
    assert_eq!(req.path, "/p");
    assert_eq!(req.query, Some(""));
}

#[test]
fn bytes_after_the_line_are_ignored() {
    let req =
        Request::try_from(b"DELETE /x HTTP/1.1\r\nHost: example\r\n\r\n".as_slice()).unwrap();
    assert_eq!(req.method, Method::Delete);
    assert_eq!(req.path, "/x");
}

#[test]
fn carriage_return_alone_ends_the_protocol_token() {
    let req = Request::try_from(b"GET / HTTP/1.1\r".as_slice()).unwrap();
    assert_eq!(req.method, Method::Get);
    assert_eq!(req.path, "/");
    assert_eq!(req.query, None);
}

#[test]
fn missing_line_ending_is_invalid_request() {
    let r = Request::try_from(b"GET /home HTTP/1.1".as_slice());
    assert!(matches!(r, Err(ParseError::InvalidRequest)));
}

#[test]
fn protocol_with_trailing_text_is_invalid() {
    let r = Request::try_from(b"GET / HTTP/1.12\r\n".as_slice());
    assert!(matches!(r, Err(ParseError::InvalidProtocol)));
}

#[test]
fn next_word_splits_at_first_delimiter() {
    let (token, rest) = get_next_word("GET /x HTTP/1.1\r\n").unwrap();
    assert_eq!(token, "GET");
    assert_eq!(rest, "/x HTTP/1.1\r\n");
}

#[test]
fn next_word_splits_at_carriage_return() {
    let (token, rest) = get_next_word("HTTP/1.1\r\nrest").unwrap();
    assert_eq!(token, "HTTP/1.1");
    assert_eq!(rest, "\nrest");
}

#[test]
fn next_word_none_without_delimiter() {
    assert!(get_next_word("no-delimiter-here").is_none());
    assert!(get_next_word("").is_none());
}

#[test]
fn next_word_empty_token_at_leading_delimiter() {
    let (token, rest) = get_next_word(" abc").unwrap();
    assert_eq!(token, "");
    assert_eq!(rest, "abc");
}

#[test]
fn method_names_parse_case_sensitively() {
    assert_eq!(Method::from_name("GET"), Ok(Method::Get));
    assert_eq!(Method::from_name("POST"), Ok(Method::Post));
    assert_eq!(Method::from_name("PUT"), Ok(Method::Put));
    assert_eq!(Method::from_name("DELETE"), Ok(Method::Delete));
    assert_eq!(Method::from_name("HEAD"), Ok(Method::Head));
    assert_eq!(Method::from_name("OPTIONS"), Ok(Method::Options));
    assert_eq!(Method::from_name("PATCH"), Ok(Method::Patch));
    assert_eq!(Method::from_name("get"), Err(MethodError));
    assert_eq!(Method::from_name("FROB"), Err(MethodError));
    assert_eq!(Method::from_name(" GET"), Err(MethodError));
    assert_eq!(Method::from_name(""), Err(MethodError));
}

#[test]
fn error_messages() {
    assert_eq!(ParseError::InvalidRequest.message(), "Invalid Request");
    assert_eq!(ParseError::InvalidEncoding.message(), "Invalid Encoding");
    assert_eq!(ParseError::InvalidProtocol.message(), "Invalid Protocol");
    assert_eq!(ParseError::InvalidMethod.message(), "Invalid Method");
}

#[test]
fn error_conversions() {
    assert_eq!(ParseError::from(MethodError), ParseError::InvalidMethod);
    let utf8_err = std::str::from_utf8([0xff].as_slice()).unwrap_err();
    assert_eq!(ParseError::from(utf8_err), ParseError::InvalidEncoding);
}
