use http_server::headers::HeaderMap;
use http_server::http::{HttpResponse, ResponseBuilder};

#[test]
fn builder_body_sets_content_length() {
    let resp = ResponseBuilder::new()
        .body("hello".to_owned())
        .code("200 OK".to_owned())
        .build();
    assert_eq!(resp.write(), "HTTP/1.1 200 OK\r\nContent-Length: 5\r\n\r\nhello");
}

#[test]
fn builder_body_twice_keeps_last() {
    let resp = ResponseBuilder::new()
        .code("200 OK".to_owned())
        .body("hello".to_owned())
        .body("goodbye".to_owned())
        .build();
    assert_eq!(resp.write(), "HTTP/1.1 200 OK\r\nContent-Length: 7\r\n\r\ngoodbye");
}

#[test]
fn builder_serializes_exact_wire_form() {
    let resp = ResponseBuilder::new()
        .code("200 OK".to_owned())
        .header("Content-Type".to_owned(), "text/plain".to_owned())
        .body("hi".to_owned())
        .build();
    assert_eq!(
        resp.write(),
        "HTTP/1.1 200 OK\r\nContent-Type: text/plain\r\nContent-Length: 2\r\n\r\nhi"
    );
}

#[test]
fn builder_header_overwrites_by_name() {
    let resp = ResponseBuilder::new()
        .code("200 OK".to_owned())
        .header("X-Tag".to_owned(), "1".to_owned())
        .header("X-Tag".to_owned(), "2".to_owned())
        .build();
    assert_eq!(resp.write(), "HTTP/1.1 200 OK\r\nX-Tag: 2\r\n\r\n");
}

#[test]
fn builder_empty_body_has_zero_length() {
    let resp = ResponseBuilder::new()
        .code("200 OK".to_owned())
        .body(String::new())
        .build();
    assert_eq!(resp.write(), "HTTP/1.1 200 OK\r\nContent-Length: 0\r\n\r\n");
}

#[test]
fn with_body_serializes_as_plain_text_ok() {
    let resp = HttpResponse::with_body("hi".to_owned());
    assert_eq!(
        resp.write(),
        "HTTP/1.1 200 OK\r\nContent-Length: 2\r\nContent-Type: text/plain\r\n\r\nhi"
    );
}

#[test]
fn with_body_length_counts_bytes() {
    let resp = HttpResponse::with_body("twelve chars".to_owned());
    assert_eq!(resp.body, "twelve chars");
    assert_eq!(resp.headers.get("Content-Length").unwrap(), "12");
}

#[test]
fn header_map_insert_get_and_order() {
    let mut m = HeaderMap::new();
    m.insert("A".to_owned(), "1".to_owned());
    m.insert("B".to_owned(), "2".to_owned());
    m.insert("A".to_owned(), "3".to_owned());
    assert_eq!(m.len(), 2);
    assert_eq!(m.get("A").unwrap(), "3");
    assert_eq!(m.get("B").unwrap(), "2");
    assert!(m.get("C").is_none());
    assert_eq!(m.index(0).name, "A");
    assert_eq!(m.index(0).value, "3");
    assert_eq!(m.index(1).name, "B");
}
