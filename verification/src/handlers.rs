//! Route dispatch and the route handlers, in their fixed priority order.

use vstd::prelude::*;
use vstd::string::StrSliceExecFns;
use crate::headers::{HeaderMap, spec_insert, spec_lookup, names_unique};
use crate::http::{HttpResponse, byte_len};
use crate::request::HttpRequest;
use crate::text::{starts_with, starts_with_exec, str_eq, dec_str};

verus! {

/// The handler a request is dispatched to.
#[derive(Debug, PartialEq, Eq, Structural)]
pub enum Route {
    /// `POST` under `/files/`: write the body to a file.
    FileWrite,
    /// `GET` under `/files/`: read a file back.
    FileRead,
    /// Any method under `/echo/`: echo the path remainder.
    Echo,
    /// Exactly `/user-agent`: echo the `User-Agent` header.
    UserAgent,
    /// Exactly `/`: trivial OK.
    Root,
    /// Anything else: not found.
    Unknown,
}

/// First-match-wins over the fixed rule list.
pub open spec fn spec_route(method: Seq<char>, path: Seq<char>) -> Route {
    if starts_with(path, "/files/"@) && method == "POST"@ {
        Route::FileWrite
    } else if starts_with(path, "/files/"@) && method == "GET"@ {
        Route::FileRead
    } else if starts_with(path, "/echo/"@) {
        Route::Echo
    } else if path == "/user-agent"@ {
        Route::UserAgent
    } else if path == "/"@ {
        Route::Root
    } else {
        Route::Unknown
    }
}

/// Selects exactly one handler for a request, in the fixed priority order.
pub fn route(req: &HttpRequest) -> (r: Route)
    ensures
        r == spec_route(req.method@, req.path@),
{
    let files = starts_with_exec(req.path.as_str(), "/files/");
    if files && str_eq(req.method.as_str(), "POST") {
        Route::FileWrite
    } else if files && str_eq(req.method.as_str(), "GET") {
        Route::FileRead
    } else if starts_with_exec(req.path.as_str(), "/echo/") {
        Route::Echo
    } else if str_eq(req.path.as_str(), "/user-agent") {
        Route::UserAgent
    } else if str_eq(req.path.as_str(), "/") {
        Route::Root
    } else {
        Route::Unknown
    }
}

/// The filename part of a `/files/` path: everything after the prefix.
pub fn files_suffix(req: &HttpRequest) -> (r: String)
    requires
        starts_with(req.path@, "/files/"@),
    ensures
        r@ == req.path@.skip(7),
{
    proof {
        reveal_strlit("/files/");
    }
    let n: usize = req.path.as_str().unicode_len();
    let suffix = req.path.as_str().substring_char(7, n);
    proof {
        assert(suffix@ =~= req.path@.skip(7));
    }
    suffix.to_owned()
}

/// The echo handler: `200 OK`, `text/plain`, body = the path after `/echo/`.
pub fn echo_handler(req: HttpRequest) -> (r: HttpResponse)
    requires
        starts_with(req.path@, "/echo/"@),
        byte_len(req.path@.skip(6)) <= usize::MAX,
    ensures
        r.version@ == "HTTP/1.1"@,
        r.response_code@ == "200 OK"@,
        r.headers@ == spec_insert(
            spec_insert(Seq::empty(), "Content-Length"@, dec_str(byte_len(req.path@.skip(6)))),
            "Content-Type"@,
            "text/plain"@,
        ),
        r.body@ == req.path@.skip(6),
        names_unique(r.headers@),
{
    proof {
        reveal_strlit("/echo/");
    }
    let n: usize = req.path.as_str().unicode_len();
    let to_echo = req.path.as_str().substring_char(6, n);
    proof {
        assert(to_echo@ =~= req.path@.skip(6));
    }
    HttpResponse::with_body(to_echo.to_owned())
}

/// The body the user-agent handler must answer with: the `User-Agent`
/// header's value, or empty when the header is absent.
pub open spec fn user_agent_body(req: &HttpRequest) -> Seq<char> {
    match spec_lookup(req.headers@, "User-Agent"@) {
        Some(v) => v,
        None => Seq::empty(),
    }
}

/// The user-agent handler: `200 OK`, `text/plain`, body = the `User-Agent`
/// header's value, else empty.
pub fn echo_user_agent_handler(req: HttpRequest) -> (r: HttpResponse)
    requires
        byte_len(user_agent_body(&req)) <= usize::MAX,
    ensures
        r.version@ == "HTTP/1.1"@,
        r.response_code@ == "200 OK"@,
        r.headers@ == spec_insert(
            spec_insert(Seq::empty(), "Content-Length"@, dec_str(byte_len(user_agent_body(&req)))),
            "Content-Type"@,
            "text/plain"@,
        ),
        r.body@ == user_agent_body(&req),
        names_unique(r.headers@),
{
    match req.headers.get("User-Agent") {
        Some(v) => HttpResponse::with_body(v.clone()),
        None => {
            proof {
                assert(byte_len(Seq::<char>::empty()) == 0) by {
                    assert(vstd::utf8::encode_utf8(Seq::<char>::empty()) =~= Seq::<u8>::empty());
                }
            }
            HttpResponse::with_body(String::new())
        },
    }
}

/// The trivial-OK handler: `200 OK` with an empty body.
pub fn ok_handler() -> (r: HttpResponse)
    ensures
        r.version@ == "HTTP/1.1"@,
        r.response_code@ == "200 OK"@,
        r.headers@ == spec_insert(
            spec_insert(Seq::empty(), "Content-Length"@, seq!['0']),
            "Content-Type"@,
            "text/plain"@,
        ),
        r.body@ == Seq::<char>::empty(),
        names_unique(r.headers@),
{
    proof {
        assert(byte_len(Seq::<char>::empty()) == 0) by {
            assert(vstd::utf8::encode_utf8(Seq::<char>::empty()) =~= Seq::<u8>::empty());
        }
        assert(dec_str(0) =~= seq!['0']);
    }
    HttpResponse::with_body(String::new())
}

/// The not-found handler: `404 Not Found` with an empty body.
pub fn not_found_handler() -> (r: HttpResponse)
    ensures
        r.version@ == "HTTP/1.1"@,
        r.response_code@ == "404 Not Found"@,
        r.headers@ == spec_insert(
            spec_insert(Seq::empty(), "Content-Length"@, seq!['0']),
            "Content-Type"@,
            "text/plain"@,
        ),
        r.body@ == Seq::<char>::empty(),
        names_unique(r.headers@),
{
    proof {
        reveal_strlit("0");
        assert("0"@ =~= seq!['0']);
    }
    let mut headers = HeaderMap::new();
    headers.insert("Content-Length".to_owned(), "0".to_owned());
    headers.insert("Content-Type".to_owned(), "text/plain".to_owned());
    HttpResponse {
        version: "HTTP/1.1".to_owned(),
        response_code: "404 Not Found".to_owned(),
        headers,
        body: String::new(),
    }
}

/// The file-read handler's response, from the outcome of the filesystem
/// read: the file's content on success, not-found otherwise.
pub fn file_read_response(contents: Option<String>) -> (r: HttpResponse)
    requires
        contents matches Some(s) ==> byte_len(s@) <= usize::MAX,
    ensures
        match contents {
            Some(s) => {
                &&& r.version@ == "HTTP/1.1"@
                &&& r.response_code@ == "200 OK"@
                &&& r.headers@ == spec_insert(
                    spec_insert(Seq::empty(), "Content-Length"@, dec_str(byte_len(s@))),
                    "Content-Type"@,
                    "application/octet-stream"@,
                )
                &&& r.body@ == s@
            },
            None => {
                &&& r.version@ == "HTTP/1.1"@
                &&& r.response_code@ == "404 Not Found"@
                &&& r.headers@ == spec_insert(
                    spec_insert(Seq::empty(), "Content-Length"@, seq!['0']),
                    "Content-Type"@,
                    "text/plain"@,
                )
                &&& r.body@ == Seq::<char>::empty()
            },
        },
        names_unique(r.headers@),
{
    match contents {
        Some(s) => {
            let mut headers = HeaderMap::new();
            headers.insert(
                "Content-Length".to_owned(),
                crate::text::dec_string(s.as_str().len()),
            );
            headers.insert("Content-Type".to_owned(), "application/octet-stream".to_owned());
            HttpResponse {
                version: "HTTP/1.1".to_owned(),
                response_code: "200 OK".to_owned(),
                headers,
                body: s,
            }
        },
        None => not_found_handler(),
    }
}

/// The file-write handler's response on success: `201 Created`, empty body.
pub fn created_response() -> (r: HttpResponse)
    ensures
        r.version@ == "HTTP/1.1"@,
        r.response_code@ == "201 Created"@,
        r.headers@ == spec_insert(Seq::empty(), "Content-Length"@, seq!['0']),
        r.body@ == Seq::<char>::empty(),
        names_unique(r.headers@),
{
    proof {
        reveal_strlit("0");
        assert("0"@ =~= seq!['0']);
    }
    let mut headers = HeaderMap::new();
    headers.insert("Content-Length".to_owned(), "0".to_owned());
    HttpResponse {
        version: "HTTP/1.1".to_owned(),
        response_code: "201 Created".to_owned(),
        headers,
        body: String::new(),
    }
}

} // verus!
