//! Responses: typestate construction and wire-format serialization.
//!
//! A `Response` can only be produced through `ResponseBuilder::build`, and
//! `build` exists only on a builder whose status code has been set: the type
//! system itself rejects serializing a response with no status code.

use vstd::prelude::*;
use vstd::string::StringExecFns;
use crate::headers::{HeaderMap, HeaderSeq, spec_insert};
use crate::text::{crlf, dec_str};

verus! {

/// One serialized header line: `name: value` followed by the line terminator.
pub open spec fn render_header_line(p: (Seq<char>, Seq<char>)) -> Seq<char> {
    p.0 + seq![':', ' '] + p.1 + crlf()
}

/// The serialized header block, one line per entry, in entry order.
pub open spec fn render_header_lines(hs: HeaderSeq) -> Seq<char>
    decreases hs.len(),
{
    if hs.len() == 0 {
        Seq::empty()
    } else {
        render_header_line(hs[0]) + render_header_lines(hs.drop_first())
    }
}

/// The full wire form: status line, header lines, a blank line, then the
/// body verbatim with no trailing terminator.
pub open spec fn render_message(
    version: Seq<char>,
    code: Seq<char>,
    hs: HeaderSeq,
    body: Seq<char>,
) -> Seq<char> {
    version + seq![' '] + code + crlf() + render_header_lines(hs) + crlf() + body
}

/// The byte length of `s` in its UTF-8 encoding, which is what the
/// `Content-Length` header must carry.
pub open spec fn byte_len(s: Seq<char>) -> nat {
    vstd::utf8::encode_utf8(s).len()
}

/// Renders a message into its exact wire form.
pub(crate) fn render_message_exec(
    version: &str,
    code: &str,
    headers: &HeaderMap,
    body: &str,
) -> (out: String)
    ensures
        out@ == render_message(version@, code@, headers@, body@),
{
    proof {
        reveal_strlit(" ");
        reveal_strlit(": ");
        reveal_strlit("\r\n");
    }
    let mut out = String::new();
    out.append(version);
    out.append(" ");
    out.append(code);
    out.append("\r\n");
    let ghost head = version@ + seq![' '] + code@ + crlf();
    proof {
        assert(out@ =~= head);
    }
    let n: usize = headers.len();
    proof {
        assert(headers@.skip(0) =~= headers@);
    }
    let mut i: usize = 0;
    while i < n
        invariant
            n == headers@.len(),
            i <= n,
            out@ + render_header_lines(headers@.skip(i as int)) == head + render_header_lines(
                headers@,
            ),
        decreases n - i,
    {
        proof {
            reveal_strlit(": ");
            reveal_strlit("\r\n");
            assert(headers@.skip(i as int)[0] == headers@[i as int]);
            assert(headers@.skip(i as int).drop_first() =~= headers@.skip(i + 1));
        }
        let ghost pre = out@;
        let p = headers.index(i);
        out.append(p.name.as_str());
        out.append(": ");
        out.append(p.value.as_str());
        out.append("\r\n");
        proof {
            assert(out@ =~= pre + render_header_line(headers@[i as int]));
            assert(out@ + render_header_lines(headers@.skip(i + 1)) =~= pre
                + render_header_lines(headers@.skip(i as int)));
        }
        i = i + 1;
    }
    proof {
        assert(headers@.skip(n as int) =~= Seq::<(Seq<char>, Seq<char>)>::empty());
        assert(out@ =~= head + render_header_lines(headers@));
    }
    out.append("\r\n");
    out.append(body);
    proof {
        assert(out@ =~= render_message(version@, code@, headers@, body@));
    }
    out
}

/// Setting a body sets `Content-Length` atomically with it; setting it a
/// second time keeps only the last value and the last length, both in the
/// body field (stated by `ResponseBuilder::body`) and in the header map,
/// where the second `Content-Length` overwrites the first in place.
pub proof fn lemma_body_twice_last_wins(m: HeaderSeq, b1: Seq<char>, b2: Seq<char>)
    ensures
        spec_insert(
            spec_insert(m, "Content-Length"@, dec_str(byte_len(b1))),
            "Content-Length"@,
            dec_str(byte_len(b2)),
        ) == spec_insert(m, "Content-Length"@, dec_str(byte_len(b2))),
{
    crate::headers::lemma_insert_overwrite(
        m,
        "Content-Length"@,
        dec_str(byte_len(b1)),
        dec_str(byte_len(b2)),
    );
}

/// The abstract content of a built response.
pub struct RespView {
    pub version: Seq<char>,
    pub code: Seq<char>,
    pub headers: HeaderSeq,
    pub body: Seq<char>,
}

/// An immutable response, produced only by `ResponseBuilder::build`.
#[derive(Debug)]
pub struct Response {
    version: String,
    response_code: String,
    headers: HeaderMap,
    body: String,
}

impl View for Response {
    type V = RespView;

    closed spec fn view(&self) -> RespView {
        RespView {
            version: self.version@,
            code: self.response_code@,
            headers: self.headers@,
            body: self.body@,
        }
    }
}

impl Response {
    /// Renders this response into the exact byte sequence the wire format
    /// requires; the caller hands the result to the transport in one write.
    pub fn write(self) -> (out: String)
        ensures
            out@ == render_message(self@.version, self@.code, self@.headers, self@.body),
    {
        render_message_exec(
            self.version.as_str(),
            self.response_code.as_str(),
            &self.headers,
            self.body.as_str(),
        )
    }
}

/// A response assembled directly by the route handlers.
#[derive(Debug)]
pub struct HttpResponse {
    pub version: String,
    pub response_code: String,
    pub headers: HeaderMap,
    pub body: String,
}

impl HttpResponse {
    /// A `200 OK` response with the given body: `Content-Length` carries the
    /// body's byte length and `Content-Type` is `text/plain`.
    pub fn with_body(body: String) -> (r: HttpResponse)
        requires
            byte_len(body@) <= usize::MAX,
        ensures
            r.version@ == "HTTP/1.1"@,
            r.response_code@ == "200 OK"@,
            r.headers@ == spec_insert(
                spec_insert(Seq::empty(), "Content-Length"@, dec_str(byte_len(body@))),
                "Content-Type"@,
                "text/plain"@,
            ),
            r.body@ == body@,
            crate::headers::names_unique(r.headers@),
    {
        let mut headers = HeaderMap::new();
        headers.insert("Content-Length".to_owned(), crate::text::dec_string(body.as_str().len()));
        headers.insert("Content-Type".to_owned(), "text/plain".to_owned());
        HttpResponse {
            version: "HTTP/1.1".to_owned(),
            response_code: "200 OK".to_owned(),
            headers,
            body,
        }
    }

    /// Renders this response into its exact wire form; the caller hands the
    /// result to the transport in one write.
    pub fn write(self) -> (out: String)
        ensures
            out@ == render_message(self.version@, self.response_code@, self.headers@, self.body@),
    {
        render_message_exec(
            self.version.as_str(),
            self.response_code.as_str(),
            &self.headers,
            self.body.as_str(),
        )
    }
}

/// Phase marker: no status code has been supplied yet.
#[derive(Debug)]
pub struct MissingResponseCode {}

/// Phase marker: a status code has been supplied.
#[derive(Debug)]
pub struct ResponseCode {
    code: String,
}

impl View for ResponseCode {
    type V = Seq<char>;

    closed spec fn view(&self) -> Seq<char> {
        self.code@
    }
}

/// A staged response builder; `C` tracks whether a status code is set.
#[derive(Debug)]
pub struct ResponseBuilder<C> {
    code: C,
    headers: HeaderMap,
    body: String,
}

impl<C> ResponseBuilder<C> {
    /// The phase value carried by the builder.
    pub closed spec fn spec_code(&self) -> C {
        self.code
    }

    /// The header entries accumulated so far.
    pub closed spec fn spec_headers(&self) -> HeaderSeq {
        self.headers@
    }

    /// The body set so far.
    pub closed spec fn spec_body(&self) -> Seq<char> {
        self.body@
    }

    /// Header names are unique.
    pub open spec fn wf(&self) -> bool {
        crate::headers::names_unique(self.spec_headers())
    }

    /// Supplies the status line content and moves to the "has code" phase.
    pub fn code(self, code: String) -> (r: ResponseBuilder<ResponseCode>)
        ensures
            r.spec_code()@ == code@,
            r.spec_headers() == self.spec_headers(),
            r.spec_body() == self.spec_body(),
    {
        ResponseBuilder { code: ResponseCode { code }, headers: self.headers, body: self.body }
    }

    /// Inserts a header, overwriting any entry with the same name.
    pub fn header(self, name: String, value: String) -> (r: ResponseBuilder<C>)
        requires
            self.wf(),
        ensures
            r.spec_code() == self.spec_code(),
            r.spec_headers() == spec_insert(self.spec_headers(), name@, value@),
            r.spec_body() == self.spec_body(),
            r.wf(),
    {
        let mut headers = self.headers;
        headers.insert(name, value);
        ResponseBuilder { code: self.code, headers, body: self.body }
    }

    /// Sets the body and, atomically with it, a `Content-Length` header
    /// carrying the body's byte length.
    pub fn body(self, body: String) -> (r: ResponseBuilder<C>)
        requires
            self.wf(),
            byte_len(body@) <= usize::MAX,
        ensures
            r.spec_code() == self.spec_code(),
            r.spec_headers() == spec_insert(
                self.spec_headers(),
                "Content-Length"@,
                dec_str(byte_len(body@)),
            ),
            r.spec_body() == body@,
            r.wf(),
    {
        proof {
            reveal_strlit("Content-Length");
        }
        let len_str = crate::text::dec_string(body.as_str().len());
        let name = "Content-Length".to_owned();
        proof {
            assert(name@ == "Content-Length"@);
            assert(len_str@ == dec_str(byte_len(body@)));
        }
        let with_len = self.header(name, len_str);
        ResponseBuilder { code: with_len.code, headers: with_len.headers, body }
    }
}

impl ResponseBuilder<MissingResponseCode> {
    /// A fresh builder: no code, no headers, empty body.
    pub fn new() -> (r: ResponseBuilder<MissingResponseCode>)
        ensures
            r.spec_headers() =~= Seq::<(Seq<char>, Seq<char>)>::empty(),
            r.spec_body() =~= Seq::<char>::empty(),
            r.wf(),
    {
        ResponseBuilder {
            code: MissingResponseCode {},
            headers: HeaderMap::new(),
            body: String::new(),
        }
    }
}

impl ResponseBuilder<ResponseCode> {
    /// Freezes the builder into a response; only a builder that holds a
    /// status code has this method.
    pub fn build(self) -> (r: Response)
        ensures
            r@.version == "HTTP/1.1"@,
            r@.code == self.spec_code()@,
            r@.headers == self.spec_headers(),
            r@.body == self.spec_body(),
    {
        Response {
            version: "HTTP/1.1".to_owned(),
            response_code: self.code.code,
            headers: self.headers,
            body: self.body,
        }
    }
}

} // verus!
