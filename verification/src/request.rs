//! The request decoder: turns one raw buffer into a structured request.
//!
//! The buffer is split on the line terminator; the first line must hold
//! exactly three space-separated tokens (method, path, version); each
//! following line up to the first empty line must contain the `": "`
//! separator; everything after the blank line is the body, verbatim.

use vstd::prelude::*;
use crate::headers::{HeaderMap, HeaderSeq, spec_insert, spec_insert_all};
use crate::http::{render_header_line, render_header_lines};
use crate::text::{
    crlf, find_pat, split_once, starts_with, lemma_find_pat, lemma_split_at_boundary, find_pat_exec,
    split_once_exec,
};

verus! {

/// Why a buffer failed to decode.
#[derive(Debug, PartialEq, Eq, Structural)]
pub enum DecodeError {
    /// The first line did not hold exactly three space-separated tokens.
    MalformedRequestLine,
    /// A header line had no `": "` separator.
    MalformedHeaderLine,
}

/// The abstract content of a decoded request. `headers` is the parsed list
/// of header lines in buffer order, before duplicate names collapse.
pub struct ReqSpec {
    pub method: Seq<char>,
    pub path: Seq<char>,
    pub version: Seq<char>,
    pub headers: HeaderSeq,
    pub body: Seq<char>,
}

/// The request-line grammar: exactly three tokens split on single spaces.
pub open spec fn parse_request_line(line: Seq<char>) -> Option<(Seq<char>, Seq<char>, Seq<char>)> {
    match split_once(line, seq![' ']) {
        None => None,
        Some((method, rest)) => match split_once(rest, seq![' ']) {
            None => None,
            Some((path, version)) => if find_pat(version, seq![' ']) is Some {
                None
            } else {
                Some((method, path, version))
            },
        },
    }
}

/// One header line: name and value split on the first `": "`.
pub open spec fn parse_header_line(seg: Seq<char>) -> Option<(Seq<char>, Seq<char>)> {
    split_once(seg, seq![':', ' '])
}

/// The header block and body that follow the request line: header lines up
/// to the first empty line, then the rest of the buffer verbatim.
pub open spec fn parse_headers(s: Seq<char>) -> Option<(HeaderSeq, Seq<char>)>
    decreases s.len(),
    via parse_headers_decreases
{
    match split_once(s, crlf()) {
        None => {
            if s.len() == 0 {
                Some((Seq::empty(), Seq::empty()))
            } else {
                match parse_header_line(s) {
                    None => None,
                    Some(h) => Some((seq![h], Seq::empty())),
                }
            }
        },
        Some((seg, rest)) => {
            if seg.len() == 0 {
                Some((Seq::empty(), rest))
            } else {
                match parse_header_line(seg) {
                    None => None,
                    Some(h) => match parse_headers(rest) {
                        None => None,
                        Some((hs, body)) => Some((seq![h] + hs, body)),
                    },
                }
            }
        },
    }
}

#[via_fn]
proof fn parse_headers_decreases(s: Seq<char>) {
    lemma_find_pat(s, crlf());
}

/// The decode function, in full: the structured request a buffer denotes,
/// or the failure it provokes.
pub open spec fn spec_decode(buf: Seq<char>) -> Result<ReqSpec, DecodeError> {
    let (line, tail) = match split_once(buf, crlf()) {
        None => (buf, None),
        Some((l, r)) => (l, Some(r)),
    };
    match parse_request_line(line) {
        None => Err(DecodeError::MalformedRequestLine),
        Some((method, path, version)) => match tail {
            None => Ok(
                ReqSpec {
                    method,
                    path,
                    version,
                    headers: Seq::empty(),
                    body: Seq::empty(),
                },
            ),
            Some(rest) => match parse_headers(rest) {
                None => Err(DecodeError::MalformedHeaderLine),
                Some((hs, body)) => Ok(ReqSpec { method, path, version, headers: hs, body }),
            },
        },
    }
}

/// A structured request: the decoder's output.
#[derive(Debug)]
pub struct HttpRequest {
    pub method: String,
    pub path: String,
    pub version: String,
    pub headers: HeaderMap,
    pub body: String,
}

impl HttpRequest {
    /// The decoded fields agree with what `spec_decode` says of `buf`, the
    /// header map being the parsed lines folded in order, last name wins.
    pub open spec fn decodes(&self, buf: Seq<char>) -> bool {
        match spec_decode(buf) {
            Err(_) => false,
            Ok(m) => {
                &&& self.method@ == m.method
                &&& self.path@ == m.path
                &&& self.version@ == m.version
                &&& self.headers@ == spec_insert_all(Seq::empty(), m.headers)
                &&& self.body@ == m.body
            },
        }
    }
}

/// A request-line token round-trips when it holds no space (the token
/// separator) and no carriage return (the start of the line terminator).
pub open spec fn token_ok(s: Seq<char>) -> bool {
    forall|i: int| 0 <= i < s.len() ==> s[i] != ' ' && s[i] != '\r'
}

/// A header name round-trips when it holds no colon (the start of the
/// name/value separator) and no carriage return.
pub open spec fn header_name_ok(s: Seq<char>) -> bool {
    forall|i: int| 0 <= i < s.len() ==> s[i] != ':' && s[i] != '\r'
}

/// A header value round-trips when it holds no carriage return.
pub open spec fn header_value_ok(s: Seq<char>) -> bool {
    forall|i: int| 0 <= i < s.len() ==> s[i] != '\r'
}

/// Every entry of the list has a round-trippable name and value.
pub open spec fn headers_ok(hs: HeaderSeq) -> bool {
    forall|k: int| 0 <= k < hs.len() ==> header_name_ok(#[trigger] hs[k].0) && header_value_ok(
        hs[k].1,
    )
}

/// The wire form of a request: request line, header lines, a blank line,
/// then the body verbatim.
pub open spec fn render_request(
    method: Seq<char>,
    path: Seq<char>,
    version: Seq<char>,
    hs: HeaderSeq,
    body: Seq<char>,
) -> Seq<char> {
    method + seq![' '] + path + seq![' '] + version + crlf() + render_header_lines(hs) + crlf()
        + body
}

proof fn lemma_parse_headers_render(hs: HeaderSeq, body: Seq<char>)
    requires
        headers_ok(hs),
    ensures
        parse_headers(render_header_lines(hs) + crlf() + body) == Some((hs, body)),
    decreases hs.len(),
{
    if hs.len() == 0 {
        let s = render_header_lines(hs) + crlf() + body;
        assert(s =~= Seq::<char>::empty() + (crlf() + body));
        assert(starts_with(crlf() + body, crlf())) by {
            assert((crlf() + body).subrange(0, 2) =~= crlf());
        }
        lemma_split_at_boundary(Seq::empty(), crlf() + body, crlf());
        assert((crlf() + body).skip(2) =~= body);
        assert(split_once(s, crlf()) == Some((Seq::<char>::empty(), body)));
    } else {
        let h = hs[0];
        let hs2 = hs.drop_first();
        let line = h.0 + seq![':', ' '] + h.1;
        let rest = render_header_lines(hs2) + crlf() + body;
        let s = render_header_lines(hs) + crlf() + body;
        assert(render_header_lines(hs) == render_header_line(h) + render_header_lines(hs2));
        assert(s =~= line + (crlf() + rest));
        assert(starts_with(crlf() + rest, crlf())) by {
            assert((crlf() + rest).subrange(0, 2) =~= crlf());
        }
        assert forall|i: int| 0 <= i < line.len() implies line[i] != '\r' by {
            if i < h.0.len() {
                assert(line[i] == h.0[i]);
            } else if i < h.0.len() + 2 {
            } else {
                assert(line[i] == h.1[i - h.0.len() - 2]);
            }
        }
        lemma_split_at_boundary(line, crlf() + rest, crlf());
        assert((crlf() + rest).skip(2) =~= rest);
        assert(split_once(s, crlf()) == Some((line, rest)));
        assert(line.len() > 0);

        assert(starts_with(seq![':', ' '] + h.1, seq![':', ' '])) by {
            assert((seq![':', ' '] + h.1).subrange(0, 2) =~= seq![':', ' ']);
        }
        assert(line =~= h.0 + (seq![':', ' '] + h.1));
        lemma_split_at_boundary(h.0, seq![':', ' '] + h.1, seq![':', ' ']);
        assert((seq![':', ' '] + h.1).skip(2) =~= h.1);
        assert(parse_header_line(line) == Some((h.0, h.1)));

        assert forall|k: int| 0 <= k < hs2.len() implies header_name_ok(#[trigger] hs2[k].0)
            && header_value_ok(hs2[k].1) by {
            assert(hs2[k] == hs[k + 1]);
        }
        lemma_parse_headers_render(hs2, body);
        assert(seq![h] + hs2 =~= hs);
    }
}

/// Decoding inverts rendering: a request built from round-trippable tokens,
/// header lines, and any body decodes back to exactly those parts.
pub proof fn lemma_decode_round_trip(
    method: Seq<char>,
    path: Seq<char>,
    version: Seq<char>,
    hs: HeaderSeq,
    body: Seq<char>,
)
    requires
        token_ok(method),
        token_ok(path),
        token_ok(version),
        headers_ok(hs),
    ensures
        spec_decode(render_request(method, path, version, hs, body)) == Ok::<
            ReqSpec,
            DecodeError,
        >(ReqSpec { method, path, version, headers: hs, body }),
{
    let line = method + seq![' '] + path + seq![' '] + version;
    let rest = render_header_lines(hs) + crlf() + body;
    let buf = render_request(method, path, version, hs, body);
    assert(buf =~= line + (crlf() + rest));
    assert(starts_with(crlf() + rest, crlf())) by {
        assert((crlf() + rest).subrange(0, 2) =~= crlf());
    }
    assert forall|i: int| 0 <= i < line.len() implies line[i] != '\r' && (line[i] == ' ' ==> i
        == method.len() || i == method.len() + 1 + path.len()) by {
        if i < method.len() {
            assert(line[i] == method[i]);
        } else if i == method.len() {
        } else if i < method.len() + 1 + path.len() {
            assert(line[i] == path[i - method.len() - 1]);
        } else if i == method.len() + 1 + path.len() {
        } else {
            assert(line[i] == version[i - method.len() - path.len() - 2]);
        }
    }
    lemma_split_at_boundary(line, crlf() + rest, crlf());
    assert((crlf() + rest).skip(2) =~= rest);
    assert(split_once(buf, crlf()) == Some((line, rest)));

    let after_method = seq![' '] + (path + seq![' '] + version);
    assert(line =~= method + after_method);
    assert(starts_with(after_method, seq![' '])) by {
        assert(after_method.subrange(0, 1) =~= seq![' ']);
    }
    lemma_split_at_boundary(method, after_method, seq![' ']);
    assert(after_method.skip(1) =~= path + (seq![' '] + version));
    assert(split_once(line, seq![' ']) == Some((method, path + (seq![' '] + version))));

    let after_path = seq![' '] + version;
    assert(starts_with(after_path, seq![' '])) by {
        assert(after_path.subrange(0, 1) =~= seq![' ']);
    }
    lemma_split_at_boundary(path, after_path, seq![' ']);
    assert(after_path.skip(1) =~= version);
    assert(split_once(path + (seq![' '] + version), seq![' ']) == Some((path, version)));

    assert(find_pat(version, seq![' ']) is None) by {
        lemma_find_pat(version, seq![' ']);
        match find_pat(version, seq![' ']) {
            Some(i) => {
                assert(version.subrange(i, i + 1)[0] == version[i]);
            },
            None => {},
        }
    }
    assert(parse_request_line(line) == Some((method, path, version)));

    lemma_parse_headers_render(hs, body);
}

/// Decoding a rendered request with distinct header names gives back
/// exactly the method, path, version, headers and body supplied; the header
/// map reproduces the list, each supplied name looks up to its value, and a
/// name held by no entry looks up to absence.
pub proof fn lemma_decode_preserves_request(
    method: Seq<char>,
    path: Seq<char>,
    version: Seq<char>,
    hs: HeaderSeq,
    body: Seq<char>,
)
    requires
        token_ok(method),
        token_ok(path),
        token_ok(version),
        headers_ok(hs),
        crate::headers::names_unique(hs),
    ensures
        spec_decode(render_request(method, path, version, hs, body)) == Ok::<
            ReqSpec,
            DecodeError,
        >(ReqSpec { method, path, version, headers: hs, body }),
        spec_insert_all(Seq::empty(), hs) == hs,
        forall|k: int| 0 <= k < hs.len() ==> crate::headers::spec_lookup(hs, #[trigger] hs[k].0)
            == Some(hs[k].1),
        forall|name: Seq<char>|
            (forall|j: int| 0 <= j < hs.len() ==> #[trigger] hs[j].0 != name)
                ==> crate::headers::spec_lookup(hs, name) is None,
{
    lemma_decode_round_trip(method, path, version, hs, body);
    crate::headers::lemma_insert_all_distinct(hs);
    assert forall|k: int| 0 <= k < hs.len() implies crate::headers::spec_lookup(
        hs,
        #[trigger] hs[k].0,
    ) == Some(hs[k].1) by {
        crate::headers::lemma_lookup_present(hs, k);
    }
    assert forall|name: Seq<char>|
        (forall|j: int| 0 <= j < hs.len() ==> #[trigger] hs[j].0 != name)
            implies crate::headers::spec_lookup(hs, name) is None by {
        crate::headers::lemma_lookup_absent(hs, name);
    }
}

/// Parses the request line into its three tokens.
fn parse_request_line_exec(line: &str) -> (r: Option<(String, String, String)>)
    ensures
        match r {
            Some(t) => parse_request_line(line@) == Some((t.0@, t.1@, t.2@)),
            None => parse_request_line(line@) is None,
        },
{
    proof {
        reveal_strlit(" ");
        assert(" "@ =~= seq![' ']);
    }
    match split_once_exec(line, " ") {
        None => None,
        Some((method, rest)) => match split_once_exec(rest, " ") {
            None => None,
            Some((path, version)) => match find_pat_exec(version, " ") {
                Some(_) => None,
                None => Some((method.to_owned(), path.to_owned(), version.to_owned())),
            },
        },
    }
}

/// Parses one header line into its name and value.
fn parse_header_line_exec(seg: &str) -> (r: Option<(String, String)>)
    ensures
        match r {
            Some(t) => parse_header_line(seg@) == Some((t.0@, t.1@)),
            None => parse_header_line(seg@) is None,
        },
{
    proof {
        reveal_strlit(": ");
        assert(": "@ =~= seq![':', ' ']);
    }
    match split_once_exec(seg, ": ") {
        None => None,
        Some((name, value)) => Some((name.to_owned(), value.to_owned())),
    }
}

/// Parses header lines into `map` in buffer order and returns the body.
fn parse_headers_into(s: &str, map: &mut HeaderMap) -> (r: Result<String, DecodeError>)
    requires
        old(map).wf(),
    ensures
        match parse_headers(s@) {
            Some(p) => {
                &&& r is Ok
                &&& (r matches Ok(b) ==> b@ == p.1)
                &&& final(map)@ == spec_insert_all(old(map)@, p.0)
                &&& final(map).wf()
            },
            None => r == Err::<String, DecodeError>(DecodeError::MalformedHeaderLine),
        },
    decreases s@.len(),
{
    proof {
        reveal_strlit("\r\n");
        assert("\r\n"@ =~= crlf());
        lemma_find_pat(s@, crlf());
    }
    match split_once_exec(s, "\r\n") {
        None => {
            if s.is_empty() {
                proof {
                    assert(spec_insert_all(old(map)@, Seq::empty()) == old(map)@);
                }
                Ok(String::new())
            } else {
                match parse_header_line_exec(s) {
                    None => Err(DecodeError::MalformedHeaderLine),
                    Some((name, value)) => {
                        let ghost h = (name@, value@);
                        map.insert(name, value);
                        proof {
                            assert(seq![h].drop_first() =~= Seq::<(Seq<char>, Seq<char>)>::empty());
                            assert(spec_insert_all(spec_insert(old(map)@, h.0, h.1), Seq::empty())
                                == spec_insert(old(map)@, h.0, h.1));
                            assert(spec_insert_all(old(map)@, seq![h])
                                == spec_insert(old(map)@, h.0, h.1));
                        }
                        Ok(String::new())
                    },
                }
            }
        },
        Some((seg, rest)) => {
            if seg.is_empty() {
                proof {
                    assert(spec_insert_all(old(map)@, Seq::empty()) == old(map)@);
                }
                Ok(rest.to_owned())
            } else {
                match parse_header_line_exec(seg) {
                    None => Err(DecodeError::MalformedHeaderLine),
                    Some((name, value)) => {
                        let ghost h = (name@, value@);
                        let ghost mid = spec_insert(old(map)@, h.0, h.1);
                        map.insert(name, value);
                        let r = parse_headers_into(rest, map);
                        proof {
                            if let Some((hs, body)) = parse_headers(rest@) {
                                assert((seq![h] + hs).drop_first() =~= hs);
                                assert((seq![h] + hs)[0] == h);
                                assert(spec_insert_all(old(map)@, seq![h] + hs)
                                    == spec_insert_all(mid, hs));
                            }
                        }
                        r
                    },
                }
            }
        },
    }
}

/// Decodes one raw buffer into a structured request, or reports exactly why
/// it is malformed.
pub fn decode(input: &str) -> (r: Result<HttpRequest, DecodeError>)
    ensures
        match r {
            Ok(req) => spec_decode(input@) is Ok && req.decodes(input@) && req.headers.wf(),
            Err(e) => spec_decode(input@) == Err::<ReqSpec, DecodeError>(e),
        },
{
    proof {
        reveal_strlit("\r\n");
        assert("\r\n"@ =~= crlf());
    }
    match split_once_exec(input, "\r\n") {
        None => {
            match parse_request_line_exec(input) {
                None => Err(DecodeError::MalformedRequestLine),
                Some((method, path, version)) => {
                    let headers = HeaderMap::new();
                    proof {
                        assert(spec_insert_all(Seq::empty(), Seq::empty())
                            =~= Seq::<(Seq<char>, Seq<char>)>::empty());
                    }
                    Ok(HttpRequest { method, path, version, headers, body: String::new() })
                },
            }
        },
        Some((line, rest)) => {
            match parse_request_line_exec(line) {
                None => Err(DecodeError::MalformedRequestLine),
                Some((method, path, version)) => {
                    let mut headers = HeaderMap::new();
                    match parse_headers_into(rest, &mut headers) {
                        Err(e) => Err(e),
                        Ok(body) => Ok(HttpRequest { method, path, version, headers, body }),
                    }
                },
            }
        },
    }
}

} // verus!
