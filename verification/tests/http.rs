use tunnel_proxy::http_parser::{content_length_from_trimmed, HttpParseStatus, HttpRequest, HttpRequestParser};
use tunnel_proxy::utils::ErrorKind;

#[test]
fn headers_in_one_chunk() {
    let mut parser = HttpRequestParser::new();
    let chunk = b"GET / HTTP/1.1\r\nHost: example.org\r\nAccept: */*\r\n\r\n";
    assert_eq!(parser.feed(chunk).unwrap(), HttpParseStatus::Complete);
    let request = parser.into_request();
    assert_eq!(request.bytes, chunk.to_vec());
    assert_eq!(request.host().unwrap(), " example.org");
    assert_eq!(request.headers.get("Accept").unwrap(), " */*");
    assert_eq!(request.headers.get("GET / HTTP/1.1").unwrap(), "");
    assert!(request.headers.get("Content-Length").is_none());
}

#[test]
fn value_stops_at_second_colon() {
    let mut parser = HttpRequestParser::new();
    assert_eq!(parser.feed(b"Host: localhost:3000\r\n\r\n").unwrap(), HttpParseStatus::Complete);
    let request = parser.into_request();
    assert_eq!(request.host().unwrap(), " localhost");
}

#[test]
fn later_header_wins() {
    let mut parser = HttpRequestParser::new();
    parser.feed(b"X: 1\r\nX: 2\r\n\r\n").unwrap();
    assert_eq!(parser.into_request().headers.get("X").unwrap(), " 2");
}

#[test]
fn body_read_until_content_length() {
    let mut parser = HttpRequestParser::new();
    assert_eq!(parser.feed(b"POST / HTTP/1.1\r\n").unwrap(), HttpParseStatus::ReadMore);
    assert_eq!(
        parser.feed(b"Content-Length:  5 \r\n\r\nab").unwrap(),
        HttpParseStatus::ReadMore
    );
    assert_eq!(parser.feed(b"cd").unwrap(), HttpParseStatus::ReadMore);
    assert_eq!(parser.feed(b"e").unwrap(), HttpParseStatus::Complete);
    let request = parser.into_request();
    assert_eq!(request.bytes, b"POST / HTTP/1.1\r\nContent-Length:  5 \r\n\r\nabcde".to_vec());
    assert_eq!(request.headers.content_length(), 5);
}

#[test]
fn terminator_split_across_chunks() {
    let mut parser = HttpRequestParser::new();
    assert_eq!(
        parser.feed(b"GET / HTTP/1.1\r\nHost: a\r\n\r").unwrap(),
        HttpParseStatus::ReadMore
    );
    assert_eq!(parser.feed(b"\n").unwrap(), HttpParseStatus::Complete);
    let request = parser.into_request();
    assert_eq!(request.bytes.len(), 27);
    assert_eq!(request.host(), Some(&" a".to_string()));
}

#[test]
fn terminator_split_with_body() {
    let mut parser = HttpRequestParser::new();
    assert_eq!(parser.feed(b"Content-Length: 2\r").unwrap(), HttpParseStatus::ReadMore);
    assert_eq!(parser.feed(b"\n\r\nx").unwrap(), HttpParseStatus::ReadMore);
    assert_eq!(parser.feed(b"").unwrap(), HttpParseStatus::ReadMore);
    assert_eq!(parser.feed(b"y").unwrap(), HttpParseStatus::Complete);
    assert_eq!(parser.into_request().headers.content_length(), 2);
}

#[test]
fn invalid_utf8_headers() {
    let mut parser = HttpRequestParser::new();
    let e = parser.feed(b"A: \xff\r\n\r\n").unwrap_err();
    assert_eq!(e.kind, ErrorKind::Other);
    assert_eq!(e.message, "could not parse headers");
}

#[test]
fn content_length_values() {
    assert_eq!(content_length_from_trimmed(Some("42")), 42);
    assert_eq!(content_length_from_trimmed(Some("+7")), 7);
    assert_eq!(content_length_from_trimmed(Some("-7")), 0);
    assert_eq!(content_length_from_trimmed(Some("4x")), 0);
    assert_eq!(content_length_from_trimmed(Some("")), 0);
    assert_eq!(content_length_from_trimmed(None), 0);
}

#[test]
fn content_length_is_trimmed() {
    let mut parser = HttpRequestParser::new();
    assert_eq!(parser.feed(b"Content-Length: \t12 \r\n\r\n").unwrap(), HttpParseStatus::ReadMore);
    assert_eq!(parser.into_request().headers.content_length(), 12);
}

#[test]
fn content_length_unicode_whitespace_trimmed() {
    let mut parser = HttpRequestParser::new();
    let chunk = "Content-Length:\u{a0}7\u{3000}\r\n\r\n1234567";
    assert_eq!(parser.feed(chunk.as_bytes()).unwrap(), HttpParseStatus::Complete);
    assert_eq!(parser.into_request().headers.content_length(), 7);
}

#[test]
fn empty_request() {
    let request = HttpRequest::empty();
    assert!(request.bytes.is_empty());
    assert!(request.host().is_none());
}
