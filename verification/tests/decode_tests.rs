use http_server::request::{decode, DecodeError};

#[test]
fn decode_simple_request() {
    let buf = "GET /index.html HTTP/1.1\r\nHost: localhost\r\nUser-Agent: curl/7.0\r\n\r\n";
    let req = decode(buf).unwrap();
    assert_eq!(req.method, "GET");
    assert_eq!(req.path, "/index.html");
    assert_eq!(req.version, "HTTP/1.1");
    assert_eq!(req.headers.get("Host").unwrap(), "localhost");
    assert_eq!(req.headers.get("User-Agent").unwrap(), "curl/7.0");
    assert!(req.headers.get("Missing").is_none());
    assert_eq!(req.body, "");
}

#[test]
fn decode_with_body() {
    let buf = "POST /files/a.txt HTTP/1.1\r\nContent-Length: 4\r\n\r\ndata";
    let req = decode(buf).unwrap();
    assert_eq!(req.method, "POST");
    assert_eq!(req.path, "/files/a.txt");
    assert_eq!(req.body, "data");
}

#[test]
fn decode_body_kept_verbatim() {
    let buf = "GET / HTTP/1.1\r\n\r\nline1\r\nline2";
    let req = decode(buf).unwrap();
    assert_eq!(req.body, "line1\r\nline2");
}

#[test]
fn decode_duplicate_header_last_wins() {
    let buf = "GET / HTTP/1.1\r\nX-Id: 1\r\nX-Id: 2\r\n\r\n";
    let req = decode(buf).unwrap();
    assert_eq!(req.headers.get("X-Id").unwrap(), "2");
    assert_eq!(req.headers.len(), 1);
}

#[test]
fn decode_request_line_too_few_tokens() {
    let buf = "GET /\r\n\r\n";
    assert_eq!(decode(buf).unwrap_err(), DecodeError::MalformedRequestLine);
}

#[test]
fn decode_request_line_too_many_tokens() {
    let buf = "GET / HTTP/1.1 extra\r\n\r\n";
    assert_eq!(decode(buf).unwrap_err(), DecodeError::MalformedRequestLine);
}

#[test]
fn decode_header_without_separator() {
    let buf = "GET / HTTP/1.1\r\nBadHeader\r\n\r\n";
    assert_eq!(decode(buf).unwrap_err(), DecodeError::MalformedHeaderLine);
}

#[test]
fn decode_request_line_only() {
    let req = decode("GET / HTTP/1.1").unwrap();
    assert_eq!(req.method, "GET");
    assert_eq!(req.path, "/");
    assert_eq!(req.version, "HTTP/1.1");
    assert_eq!(req.headers.len(), 0);
    assert_eq!(req.body, "");
}

#[test]
fn decode_header_value_keeps_later_separator() {
    let buf = "GET / HTTP/1.1\r\nAccept: a: b\r\n\r\n";
    let req = decode(buf).unwrap();
    assert_eq!(req.headers.get("Accept").unwrap(), "a: b");
}

#[test]
fn decode_headers_without_blank_line() {
    let buf = "GET / HTTP/1.1\r\nHost: h";
    let req = decode(buf).unwrap();
    assert_eq!(req.headers.get("Host").unwrap(), "h");
    assert_eq!(req.body, "");
}

#[test]
fn decode_empty_buffer_is_malformed() {
    assert_eq!(decode("").unwrap_err(), DecodeError::MalformedRequestLine);
}
