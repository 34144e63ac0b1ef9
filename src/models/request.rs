//! The owned request value and the validated conversion of views into it.
use vstd::prelude::*;
use vstd::utf8::*;
use vstd::string::*;
use crate::error::Error;
use crate::parse::{COLON, lemma_headers_in_order, span_bytes};
use crate::text::{find_byte_from, text_eq};
use crate::models::body::{HttpBody, PossibleHttpBody};
use crate::models::headers::{HttpHeader, key_index, header_position, put_header, header_set};
use crate::models::partial_request::PartialHttpRequest;
use crate::models::parsed_request::ParsedHttpRequest;
use crate::models::uri::{Uri, url_serialization, with_scheme};
use crate::models::version::HttpVersion;
use crate::span::Span;

verus! {

broadcast use vstd::utf8::group_utf8_lib;

/// An HTTP method: one of the common ones, or any other by its name.
#[derive(Debug, PartialEq)]
pub enum HttpMethod {
    GET,
    POST,
    PUT,
    PATCH,
    DELETE,
    HEAD,
    OPTIONS,
    Other(String),
}

impl HttpMethod {
    /// The method is the one named `s`: a common method exactly when `s` is its
    /// name, else `Other` holding `s`.
    pub open spec fn names(&self, s: Seq<char>) -> bool {
        &&& (*self == HttpMethod::GET <==> s == "GET"@)
        &&& (*self == HttpMethod::POST <==> s == "POST"@)
        &&& (*self == HttpMethod::PUT <==> s == "PUT"@)
        &&& (*self == HttpMethod::PATCH <==> s == "PATCH"@)
        &&& (*self == HttpMethod::DELETE <==> s == "DELETE"@)
        &&& (*self == HttpMethod::HEAD <==> s == "HEAD"@)
        &&& (*self == HttpMethod::OPTIONS <==> s == "OPTIONS"@)
        &&& (self matches HttpMethod::Other(t) ==> t@ == s)
    }
}

impl<'a> From<&'a str> for HttpMethod {
    fn from(value: &'a str) -> (r: Self)
        ensures
            r.names(value@),
    {
        proof {
            reveal_strlit("GET");
            reveal_strlit("POST");
            reveal_strlit("PUT");
            reveal_strlit("PATCH");
            reveal_strlit("DELETE");
            reveal_strlit("HEAD");
            reveal_strlit("OPTIONS");
            let names = seq!["GET"@, "POST"@, "PUT"@, "PATCH"@, "DELETE"@, "HEAD"@, "OPTIONS"@];
            assert forall|i: int, j: int| 0 <= i < j < 7 implies names[i] != names[j] by {
                assert(names[i].len() != names[j].len() || names[i][0] != names[j][0]);
            }
        }
        if text_eq(value, "GET") {
            HttpMethod::GET
        } else if text_eq(value, "POST") {
            HttpMethod::POST
        } else if text_eq(value, "PUT") {
            HttpMethod::PUT
        } else if text_eq(value, "PATCH") {
            HttpMethod::PATCH
        } else if text_eq(value, "DELETE") {
            HttpMethod::DELETE
        } else if text_eq(value, "HEAD") {
            HttpMethod::HEAD
        } else if text_eq(value, "OPTIONS") {
            HttpMethod::OPTIONS
        } else {
            HttpMethod::Other(value.to_owned())
        }
    }
}

impl<'a> vstd::std_specs::convert::FromSpecImpl<&'a str> for HttpMethod {
    open spec fn obeys_from_spec() -> bool {
        false
    }

    open spec fn from_spec(v: &'a str) -> Self {
        arbitrary()
    }
}

/// The text of the bytes of `b` that the span `r` covers.
pub open spec fn span_text(b: Seq<u8>, r: Span) -> Seq<char> {
    decode_utf8(span_bytes(b, r))
}

/// Index of the first of the lines `ls[i..]` that holds no `:`.
pub open spec fn first_without_colon_from(ls: Seq<Seq<u8>>, i: int) -> Option<int>
    decreases ls.len() - i,
{
    if 0 <= i < ls.len() {
        if find_byte_from(ls[i], COLON, 0) is None {
            Some(i)
        } else {
            first_without_colon_from(ls, i + 1)
        }
    } else {
        None
    }
}

proof fn lemma_first_without_colon_in_range(ls: Seq<Seq<u8>>, i: int)
    requires
        0 <= i,
    ensures
        first_without_colon_from(ls, i) matches Some(j) ==> i <= j < ls.len(),
    decreases ls.len() - i,
{
    if 0 <= i < ls.len() && find_byte_from(ls[i], COLON, 0) is Some {
        lemma_first_without_colon_in_range(ls, i + 1);
    }
}

/// Each of `hs` is the split of the line at the same index of `ls`.
pub open spec fn splits_of(hs: Seq<HttpHeader>, ls: Seq<Seq<u8>>) -> bool {
    &&& hs.len() == ls.len()
    &&& forall|i: int| 0 <= i < hs.len() ==> (#[trigger] hs[i]).is_split_of(ls[i])
}

/// The bytes of each of `lines`.
pub open spec fn line_bytes(lines: Seq<&str>) -> Seq<Seq<u8>> {
    lines.map_values(|s: &str| s.spec_bytes())
}

/// An HTTP request with owned, typed parts.
#[derive(Debug, PartialEq)]
pub struct HttpRequest {
    pub uri: Uri,
    pub method: HttpMethod,
    pub http_version: HttpVersion,
    pub headers: Vec<HttpHeader>,
    pub body: PossibleHttpBody,
}

impl HttpRequest {
    /// The request is what converting these texts gives: the target parsed as a
    /// URL, the method named, the version as written, one header per header line
    /// in the same order, and the body verbatim.
    pub open spec fn converts(
        &self,
        method: Seq<char>,
        uri: Seq<char>,
        http_version: Seq<char>,
        lines: Seq<Seq<u8>>,
        body: Option<Seq<char>>,
    ) -> bool {
        &&& url_serialization(with_scheme(uri)) == Some(self.uri.spec_text())
        &&& self.method.names(method)
        &&& self.http_version.spec_text() == http_version
        &&& splits_of(self.headers@, lines)
        &&& match body {
            Some(t) => self.body matches Some(s) && s@ == t,
            None => self.body is None,
        }
    }

    /// A `GET` request for `uri` with `headers`, version `HTTP/1.1` and no body.
    pub fn get(uri: &str, headers: Vec<HttpHeader>) -> (r: Result<Self, Error>)
        ensures
            match r {
                Ok(req) => {
                    &&& url_serialization(with_scheme(uri@)) == Some(req.uri.spec_text())
                    &&& req.method == HttpMethod::GET
                    &&& req.http_version.spec_text() == "HTTP/1.1"@
                    &&& req.headers@ == headers@
                    &&& req.body is None
                },
                Err(e) => url_serialization(with_scheme(uri@)) is None && (e matches Error::InvalidUri {
                    uri: t,
                } && t@ == uri@),
            },
    {
        match Uri::new(uri) {
            Ok(uri) => Ok(HttpRequest {
                uri,
                method: HttpMethod::GET,
                http_version: HttpVersion::default(),
                headers,
                body: None,
            }),
            Err(e) => Err(e),
        }
    }

    /// A `POST` request for `uri` with `headers` and `body`, version `HTTP/1.1`.
    pub fn post(uri: &str, headers: Vec<HttpHeader>, body: PossibleHttpBody) -> (r: Result<
        Self,
        Error,
    >)
        ensures
            match r {
                Ok(req) => {
                    &&& url_serialization(with_scheme(uri@)) == Some(req.uri.spec_text())
                    &&& req.method == HttpMethod::POST
                    &&& req.http_version.spec_text() == "HTTP/1.1"@
                    &&& req.headers@ == headers@
                    &&& req.body == body
                },
                Err(e) => url_serialization(with_scheme(uri@)) is None && (e matches Error::InvalidUri {
                    uri: t,
                } && t@ == uri@),
            },
    {
        match Uri::new(uri) {
            Ok(uri) => Ok(HttpRequest {
                uri,
                method: HttpMethod::POST,
                headers,
                body,
                http_version: HttpVersion::default(),
            }),
            Err(e) => Err(e),
        }
    }

    /// The headers, in order.
    pub fn headers(&self) -> (r: &Vec<HttpHeader>)
        ensures
            r@ == self.headers@,
    {
        &self.headers
    }

    /// The first header whose key is `key`.
    pub fn get_header(&self, key: &str) -> (r: Option<&HttpHeader>)
        ensures
            match key_index(self.headers@, key@) {
                Some(i) => r == Some(&self.headers@[i]),
                None => r is None,
            },
    {
        match header_position(&self.headers, key) {
            Some(i) => Some(&self.headers[i]),
            None => None,
        }
    }

    /// Set or update header by key.
    pub fn set_header(&mut self, key: &str, value: &str)
        ensures
            header_set(old(self).headers@, final(self).headers@, key@, value@),
            final(self).uri == old(self).uri,
            final(self).method == old(self).method,
            final(self).http_version == old(self).http_version,
            final(self).body == old(self).body,
    {
        put_header(&mut self.headers, key, value);
    }

    /// The first header whose key is `key`, to change in place.
    pub fn get_header_mut(&mut self, key: &str) -> (r: Option<&mut HttpHeader>)
        ensures
            final(self).uri == old(self).uri,
            final(self).method == old(self).method,
            final(self).http_version == old(self).http_version,
            final(self).body == old(self).body,
            match key_index(old(self).headers@, key@) {
                Some(i) => r matches Some(h) && *h == old(self).headers@[i]
                    && final(self).headers@ == old(self).headers@.update(i, *final(h)),
                None => r is None && final(self).headers@ == old(self).headers@,
            },
    {
        match header_position(&self.headers, key) {
            Some(i) => Some(&mut self.headers[i]),
            None => None,
        }
    }

    /// Builds a request from the texts of a view's parts.
    fn assemble(
        method: &str,
        uri: &str,
        http_version: &str,
        lines: &Vec<&str>,
        body: Option<&str>,
    ) -> (r: Result<Self, Error>)
        ensures
            match r {
                Ok(req) => {
                    &&& first_without_colon_from(line_bytes(lines@), 0) is None
                    &&& req.converts(
                        method@,
                        uri@,
                        http_version@,
                        line_bytes(lines@),
                        match body {
                            Some(s) => Some(s@),
                            None => None,
                        },
                    )
                },
                Err(e) => if url_serialization(with_scheme(uri@)) is None {
                    e matches Error::InvalidUri { uri: t } && t@ == uri@
                } else {
                    first_without_colon_from(line_bytes(lines@), 0) matches Some(i) && (
                    e matches Error::MalformedHeader { line } && line@ == lines@[i]@)
                },
            },
    {
        let uri = match Uri::new(uri) {
            Ok(u) => u,
            Err(e) => return Err(e),
        };
        let headers = match split_header_lines(lines) {
            Ok(hs) => hs,
            Err(e) => return Err(e),
        };
        let body = match body {
            Some(s) => Some(s.to_owned()),
            None => None,
        };
        Ok(HttpRequest {
            uri,
            method: HttpMethod::from(method),
            http_version: HttpVersion::from(http_version),
            headers,
            body,
        })
    }
}

/// Splits each header line into a header; fails on the first line without `:`.
fn split_header_lines(lines: &Vec<&str>) -> (r: Result<Vec<HttpHeader>, Error>)
    ensures
        match r {
            Ok(hs) => first_without_colon_from(line_bytes(lines@), 0) is None && splits_of(
                hs@,
                line_bytes(lines@),
            ),
            Err(e) => first_without_colon_from(line_bytes(lines@), 0) matches Some(i) && (
            e matches Error::MalformedHeader { line } && line@ == lines@[i]@),
        },
{
    let ghost ls = line_bytes(lines@);
    let mut hs: Vec<HttpHeader> = Vec::new();
    let mut i: usize = 0;
    while i < lines.len()
        invariant
            i <= lines@.len(),
            ls == line_bytes(lines@),
            first_without_colon_from(ls, 0) == first_without_colon_from(ls, i as int),
            hs@.len() == i,
            forall|j: int| 0 <= j < i ==> (#[trigger] hs@[j]).is_split_of(ls[j]),
        decreases lines@.len() - i,
    {
        let line = lines[i];
        match HttpHeader::from_line(line) {
            Some(h) => {
                hs.push(h);
            },
            None => {
                return Err(Error::MalformedHeader { line: line.to_owned() });
            },
        }
        i += 1;
    }
    Ok(hs)
}

/// The bytes of each header line `hs` of the message bytes `b`.
pub open spec fn header_bytes(b: Seq<u8>, hs: Seq<Span>) -> Seq<Seq<u8>> {
    hs.map_values(|h: Span| span_bytes(b, h))
}

/// The text of the body span `o` of the message bytes `b`, if any.
pub open spec fn body_text(b: Seq<u8>, o: Option<Span>) -> Option<Seq<char>> {
    match o {
        Some(r) => Some(span_text(b, r)),
        None => None,
    }
}

impl<'a> TryFrom<PartialHttpRequest<'a>> for HttpRequest {
    type Error = Error;

    /// Converts a lenient view: fails when the method, the target or the version
    /// is absent (checked in that order), when the target is no URL, or when a
    /// header line holds no `:`.
    fn try_from(value: PartialHttpRequest<'a>) -> (r: Result<Self, Error>)
        ensures
            ({
                let b = value.bytes();
                let hs = value.spec_headers();
                match r {
                    Ok(req) => {
                        &&& value.spec_method() is Some
                        &&& value.spec_uri() is Some
                        &&& value.spec_http_version() is Some
                        &&& first_without_colon_from(header_bytes(b, hs), 0) is None
                        &&& req.converts(
                            span_text(b, value.spec_method()->0),
                            span_text(b, value.spec_uri()->0),
                            span_text(b, value.spec_http_version()->0),
                            header_bytes(b, hs),
                            body_text(b, value.spec_body()),
                        )
                    },
                    Err(e) => if value.spec_method() is None {
                        e matches Error::MissingRequired { key } && key@ == "method"@
                    } else if value.spec_uri() is None {
                        e matches Error::MissingRequired { key } && key@ == "uri"@
                    } else if value.spec_http_version() is None {
                        e matches Error::MissingRequired { key } && key@ == "http_version"@
                    } else if url_serialization(with_scheme(span_text(b, value.spec_uri()->0))) is None {
                        e matches Error::InvalidUri { uri } && uri@ == span_text(b, value.spec_uri()->0)
                    } else {
                        first_without_colon_from(header_bytes(b, hs), 0) matches Some(i) && (
                        e matches Error::MalformedHeader { line } && line@ == span_text(b, hs[i]))
                    },
                }
            }),
    {
        let method = match value.method_str() {
            Some(m) => m,
            None => return Err(Error::missing_required("method")),
        };
        let uri = match value.uri_str() {
            Some(u) => u,
            None => return Err(Error::missing_required("uri")),
        };
        let http_version = match value.http_version_str() {
            Some(v) => v,
            None => return Err(Error::missing_required("http_version")),
        };
        let lines = value.header_strs();
        let body = value.body_str();
        proof {
            assert(line_bytes(lines@) =~= header_bytes(value.bytes(), value.spec_headers()));
            lemma_first_without_colon_in_range(line_bytes(lines@), 0);
            encode_utf8_decode_utf8(method@);
            encode_utf8_decode_utf8(uri@);
            encode_utf8_decode_utf8(http_version@);
            if let Some(t) = body {
                encode_utf8_decode_utf8(t@);
            }
            if let Some(i) = first_without_colon_from(line_bytes(lines@), 0) {
                encode_utf8_decode_utf8(lines@[i]@);
            }
        }
        HttpRequest::assemble(method, uri, http_version, &lines, body)
    }
}

impl<'a> vstd::std_specs::convert::TryFromSpecImpl<PartialHttpRequest<'a>> for HttpRequest {
    open spec fn obeys_try_from_spec() -> bool {
        false
    }

    open spec fn try_from_spec(v: PartialHttpRequest<'a>) -> Result<Self, Error> {
        arbitrary()
    }
}

impl<'a> TryFrom<ParsedHttpRequest<'a>> for HttpRequest {
    type Error = Error;

    /// Converts a strict view, whose method, target and version are present:
    /// fails only when the target is no URL or a header line holds no `:`.
    fn try_from(value: ParsedHttpRequest<'a>) -> (r: Result<Self, Error>)
        ensures
            ({
                let b = value.bytes();
                let hs = value.spec_headers();
                match r {
                    Ok(req) => {
                        &&& first_without_colon_from(header_bytes(b, hs), 0) is None
                        &&& req.converts(
                            span_text(b, value.spec_method()),
                            span_text(b, value.spec_uri()),
                            span_text(b, value.spec_http_version()),
                            header_bytes(b, hs),
                            body_text(b, value.spec_body()),
                        )
                    },
                    Err(e) => if url_serialization(with_scheme(span_text(b, value.spec_uri()))) is None {
                        e matches Error::InvalidUri { uri } && uri@ == span_text(b, value.spec_uri())
                    } else {
                        first_without_colon_from(header_bytes(b, hs), 0) matches Some(i) && (
                        e matches Error::MalformedHeader { line } && line@ == span_text(b, hs[i]))
                    },
                }
            }),
    {
        let method = value.method_str();
        let uri = value.uri_str();
        let http_version = value.http_version_str();
        let lines = value.header_strs();
        let body = value.body_str();
        proof {
            assert(line_bytes(lines@) =~= header_bytes(value.bytes(), value.spec_headers()));
            lemma_first_without_colon_in_range(line_bytes(lines@), 0);
            encode_utf8_decode_utf8(method@);
            encode_utf8_decode_utf8(uri@);
            encode_utf8_decode_utf8(http_version@);
            if let Some(t) = body {
                encode_utf8_decode_utf8(t@);
            }
            if let Some(i) = first_without_colon_from(line_bytes(lines@), 0) {
                encode_utf8_decode_utf8(lines@[i]@);
            }
        }
        HttpRequest::assemble(method, uri, http_version, &lines, body)
    }
}

impl<'a> vstd::std_specs::convert::TryFromSpecImpl<ParsedHttpRequest<'a>> for HttpRequest {
    open spec fn obeys_try_from_spec() -> bool {
        false
    }

    open spec fn try_from_spec(v: ParsedHttpRequest<'a>) -> Result<Self, Error> {
        arbitrary()
    }
}

/// Header order: converting a lenient view gives one header per header line,
/// duplicates included, and the header at each index comes from the line at
/// that index, so headers earlier in the request come from lines earlier in
/// the text.
pub proof fn lemma_header_order(
    p: PartialHttpRequest,
    req: HttpRequest,
    method: Seq<char>,
    uri: Seq<char>,
    http_version: Seq<char>,
    body: Option<Seq<char>>,
    i: int,
    j: int,
)
    requires
        p.well_formed(),
        req.converts(method, uri, http_version, header_bytes(p.bytes(), p.spec_headers()), body),
        0 <= i < j < p.spec_headers().len(),
    ensures
        req.headers@.len() == p.spec_headers().len(),
        req.headers@[i].is_split_of(span_bytes(p.bytes(), p.spec_headers()[i])),
        req.headers@[j].is_split_of(span_bytes(p.bytes(), p.spec_headers()[j])),
        p.spec_headers()[i].end <= p.spec_headers()[j].start,
{
    let hs = p.spec_headers();
    let ls = header_bytes(p.bytes(), hs);
    lemma_headers_in_order(
        p.bytes(),
        p.spec_method(),
        p.spec_uri(),
        p.spec_http_version(),
        hs,
        p.spec_body(),
        i,
        j,
    );
    assert(splits_of(req.headers@, ls));
    assert(ls[i] == span_bytes(p.bytes(), hs[i]));
    assert(ls[j] == span_bytes(p.bytes(), hs[j]));
    assert(req.headers@[i].is_split_of(ls[i]));
    assert(req.headers@[j].is_split_of(ls[j]));
}

impl HttpBody for HttpRequest {
    fn get_body(&self) -> (r: &PossibleHttpBody)
        ensures
            *r == self.body,
    {
        &self.body
    }

    fn set_body(&mut self, value: PossibleHttpBody)
        ensures
            final(self).body == value,
            final(self).uri == old(self).uri,
            final(self).method == old(self).method,
            final(self).http_version == old(self).http_version,
            final(self).headers == old(self).headers,
    {
        self.body = value;
    }
}

} // verus!
