use http_server::handlers::{
    created_response, echo_handler, echo_user_agent_handler, file_read_response, files_suffix,
    not_found_handler, ok_handler, route, Route,
};
use http_server::headers::HeaderMap;
use http_server::request::{decode, HttpRequest};

fn request(method: &str, path: &str) -> HttpRequest {
    HttpRequest {
        method: method.to_owned(),
        path: path.to_owned(),
        version: "HTTP/1.1".to_owned(),
        headers: HeaderMap::new(),
        body: String::new(),
    }
}

#[test]
fn route_root_gets_ok() {
    assert_eq!(route(&request("GET", "/")), Route::Root);
    let resp = ok_handler();
    assert_eq!(
        resp.write(),
        "HTTP/1.1 200 OK\r\nContent-Length: 0\r\nContent-Type: text/plain\r\n\r\n"
    );
}

#[test]
fn route_echo_returns_suffix() {
    let req = request("GET", "/echo/abc123");
    assert_eq!(route(&req), Route::Echo);
    let resp = echo_handler(req);
    assert_eq!(
        resp.write(),
        "HTTP/1.1 200 OK\r\nContent-Length: 6\r\nContent-Type: text/plain\r\n\r\nabc123"
    );
}

#[test]
fn route_echo_is_method_agnostic() {
    assert_eq!(route(&request("POST", "/echo/x")), Route::Echo);
    assert_eq!(route(&request("DELETE", "/echo/x")), Route::Echo);
}

#[test]
fn route_unknown_gets_not_found() {
    assert_eq!(route(&request("GET", "/nope")), Route::Unknown);
    let resp = not_found_handler();
    assert_eq!(
        resp.write(),
        "HTTP/1.1 404 Not Found\r\nContent-Length: 0\r\nContent-Type: text/plain\r\n\r\n"
    );
}

#[test]
fn route_files_by_method() {
    assert_eq!(route(&request("POST", "/files/foo.txt")), Route::FileWrite);
    assert_eq!(route(&request("GET", "/files/foo.txt")), Route::FileRead);
    assert_eq!(route(&request("DELETE", "/files/foo.txt")), Route::Unknown);
}

#[test]
fn route_files_needs_trailing_slash() {
    assert_eq!(route(&request("GET", "/files")), Route::Unknown);
    assert_eq!(route(&request("POST", "/files")), Route::Unknown);
}

#[test]
fn files_suffix_strips_prefix() {
    assert_eq!(files_suffix(&request("GET", "/files/foo.txt")), "foo.txt");
}

#[test]
fn file_write_success_is_created() {
    let resp = created_response();
    assert_eq!(resp.write(), "HTTP/1.1 201 Created\r\nContent-Length: 0\r\n\r\n");
}

#[test]
fn file_read_success_is_octet_stream() {
    let resp = file_read_response(Some("data".to_owned()));
    assert_eq!(
        resp.write(),
        "HTTP/1.1 200 OK\r\nContent-Length: 4\r\nContent-Type: application/octet-stream\r\n\r\ndata"
    );
}

#[test]
fn file_read_missing_is_not_found() {
    let resp = file_read_response(None);
    assert_eq!(
        resp.write(),
        "HTTP/1.1 404 Not Found\r\nContent-Length: 0\r\nContent-Type: text/plain\r\n\r\n"
    );
}

#[test]
fn user_agent_echoed_back() {
    let buf = "GET /user-agent HTTP/1.1\r\nUser-Agent: test-client\r\n\r\n";
    let req = decode(buf).unwrap();
    assert_eq!(route(&req), Route::UserAgent);
    let resp = echo_user_agent_handler(req);
    assert_eq!(resp.body, "test-client");
    assert_eq!(resp.response_code, "200 OK");
}

#[test]
fn user_agent_missing_gives_empty_body() {
    let req = request("GET", "/user-agent");
    let resp = echo_user_agent_handler(req);
    assert_eq!(resp.body, "");
}

#[test]
fn file_write_then_read_flow() {
    let write_req = decode("POST /files/foo.txt HTTP/1.1\r\nContent-Length: 4\r\n\r\ndata").unwrap();
    assert_eq!(route(&write_req), Route::FileWrite);
    assert_eq!(files_suffix(&write_req), "foo.txt");
    assert_eq!(write_req.body, "data");
    let created = created_response();
    assert_eq!(created.response_code, "201 Created");
    assert_eq!(created.body, "");

    let read_req = decode("GET /files/foo.txt HTTP/1.1\r\n\r\n").unwrap();
    assert_eq!(route(&read_req), Route::FileRead);
    assert_eq!(files_suffix(&read_req), "foo.txt");
    let resp = file_read_response(Some("data".to_owned()));
    assert_eq!(resp.response_code, "200 OK");
    assert_eq!(resp.body, "data");
    assert_eq!(resp.headers.get("Content-Type").unwrap(), "application/octet-stream");
    assert_eq!(resp.headers.get("Content-Length").unwrap(), "4");
}

#[test]
fn distinct_echo_ids_stay_distinct() {
    let a = echo_handler(request("GET", "/echo/alpha"));
    let b = echo_handler(request("GET", "/echo/beta"));
    assert_eq!(a.body, "alpha");
    assert_eq!(b.body, "beta");
    assert_ne!(a.write(), b.write());
}
