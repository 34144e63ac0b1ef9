//! The strict request view: method, target and version are always present.
use vstd::prelude::*;
use vstd::utf8::*;
use vstd::string::*;
use crate::error::Error;
use crate::span::{Span, copy_span};
use crate::parse::{
    first_blank_line, RequestParts, spans_well_formed, nth_span, request_line_tokens,
    header_lines, body_of, is_blank_text, find_key_from, parse_parts, is_blank_message,
    find_header, lemma_parts_well_formed, valid_slice, lemma_view_slices, span_bytes,
};
use crate::text::slice_text;

verus! {

broadcast use vstd::utf8::group_utf8_lib;

/// An HTTP request message in the expected shape (request line, headers, blank
/// line, body): each part is a byte range of the message text.
#[derive(Debug, PartialEq)]
pub struct ParsedHttpRequest<'http_message> {
    message: &'http_message str,
    method: Span,
    uri: Span,
    http_version: Span,
    headers: Vec<Span>,
    body: Option<Span>,
}

impl<'http_message> ParsedHttpRequest<'http_message> {
    #[verifier::type_invariant]
    spec fn spans_valid(&self) -> bool {
        spans_well_formed(
            self.message.spec_bytes(),
            Some(self.method),
            Some(self.uri),
            Some(self.http_version),
            self.headers@,
            self.body,
        )
    }

    /// The message text.
    pub closed spec fn text(&self) -> Seq<char> {
        self.message@
    }

    /// The message text as UTF-8 bytes, which the spans index.
    pub open spec fn bytes(&self) -> Seq<u8> {
        encode_utf8(self.text())
    }

    /// The method's span.
    pub closed spec fn spec_method(&self) -> Span {
        self.method
    }

    /// The target's span.
    pub closed spec fn spec_uri(&self) -> Span {
        self.uri
    }

    /// The version's span.
    pub closed spec fn spec_http_version(&self) -> Span {
        self.http_version
    }

    /// The header lines' spans, in message order.
    pub closed spec fn spec_headers(&self) -> Seq<Span> {
        self.headers@
    }

    /// The body's span.
    pub closed spec fn spec_body(&self) -> Option<Span> {
        self.body
    }

    /// The view holds exactly what the pipeline finds in the message bytes `b`.
    pub open spec fn is_strict_parse_of(&self, b: Seq<u8>) -> bool {
        &&& self.bytes() == b
        &&& Some(self.spec_method()) == nth_span(request_line_tokens(b), 0)
        &&& Some(self.spec_uri()) == nth_span(request_line_tokens(b), 1)
        &&& Some(self.spec_http_version()) == nth_span(request_line_tokens(b), 2)
        &&& self.spec_headers() == header_lines(b)
        &&& self.spec_body() == body_of(b)
    }

    /// The span invariant holds of the view.
    pub open spec fn well_formed(&self) -> bool {
        spans_well_formed(
            self.bytes(),
            Some(self.spec_method()),
            Some(self.spec_uri()),
            Some(self.spec_http_version()),
            self.spec_headers(),
            self.spec_body(),
        )
    }

    /// Parses `message` strictly: it fails when the message holds only
    /// whitespace, when its first line lacks a method, target or version, or
    /// when no blank line ends the headers.
    pub fn from_str(message: &'http_message str) -> (r: Result<Self, Error>)
        ensures
            ({
                let b = message.spec_bytes();
                let n = request_line_tokens(b).len();
                match r {
                    Ok(p) => !is_blank_text(b) && n >= 3 && first_blank_line(b) is Some
                        && p.is_strict_parse_of(b) && p.text() == message@ && p.well_formed(),
                    Err(e) => if is_blank_text(b) {
                        e == Error::EmptyHttpMessage
                    } else if n == 0 {
                        e matches Error::MissingRequired { key } && key@ == "method"@
                    } else if n == 1 {
                        e matches Error::MissingRequired { key } && key@ == "uri"@
                    } else if n == 2 {
                        e matches Error::MissingRequired { key } && key@ == "http_version"@
                    } else {
                        first_blank_line(b) is None && e == Error::MissingBlankLine
                    },
                }
            }),
    {
        parse_request(message)
    }

    /// Builds a view from spans that already meet the span invariant.
    pub fn parsed(
        message: &'http_message str,
        method: Span,
        uri: Span,
        http_version: Span,
        headers: Vec<Span>,
        body: Option<Span>,
    ) -> (r: Self)
        requires
            spans_well_formed(
                message.spec_bytes(),
                Some(method),
                Some(uri),
                Some(http_version),
                headers@,
                body,
            ),
        ensures
            r.text() == message@,
            r.spec_method() == method,
            r.spec_uri() == uri,
            r.spec_http_version() == http_version,
            r.spec_headers() == headers@,
            r.spec_body() == body,
            r.well_formed(),
    {
        ParsedHttpRequest { message, method, uri, http_version, headers, body }
    }

    /// Returns whether the given spans meet the span invariant over `message`,
    /// that is, whether `parsed` accepts them.
    pub fn verify_spans(
        message: &str,
        method: &Span,
        uri: &Span,
        http_version: &Span,
        headers: &Vec<Span>,
        body: &Option<Span>,
    ) -> (r: bool)
        ensures
            r == spans_well_formed(
                message.spec_bytes(),
                Some(*method),
                Some(*uri),
                Some(*http_version),
                headers@,
                *body,
            ),
    {
        crate::parse::verify_spans(
            message,
            &Some(copy_span(method)),
            &Some(copy_span(uri)),
            &Some(copy_span(http_version)),
            headers,
            body,
        )
    }

    /// The message rendered as text, exactly as it was given.
    pub fn to_string(&self) -> (r: String)
        ensures
            r@ == self.text(),
    {
        self.message.to_owned()
    }

    /// Get the HTTP request message text, as it was given.
    pub fn message(&self) -> (r: &'http_message str)
        ensures
            r@ == self.text(),
    {
        self.message
    }

    /// Get the text span of the uri.
    pub fn uri_span(&self) -> (r: &Span)
        ensures
            *r == self.spec_uri(),
    {
        &self.uri
    }

    /// Get the string text of the uri.
    pub fn uri_str(&self) -> (r: &str)
        ensures
            r.spec_bytes() == span_bytes(self.bytes(), self.spec_uri()),
    {
        self.prove_slices();
        self.slice_message(&self.uri)
    }

    /// Get the text span of the method.
    pub fn method_span(&self) -> (r: &Span)
        ensures
            *r == self.spec_method(),
    {
        &self.method
    }

    /// Get the string text of the method.
    pub fn method_str(&self) -> (r: &str)
        ensures
            r.spec_bytes() == span_bytes(self.bytes(), self.spec_method()),
    {
        self.prove_slices();
        self.slice_message(&self.method)
    }

    /// Get the text span of the http version.
    pub fn http_version_span(&self) -> (r: &Span)
        ensures
            *r == self.spec_http_version(),
    {
        &self.http_version
    }

    /// Get the string text of the http version.
    pub fn http_version_str(&self) -> (r: &str)
        ensures
            r.spec_bytes() == span_bytes(self.bytes(), self.spec_http_version()),
    {
        self.prove_slices();
        self.slice_message(&self.http_version)
    }

    /// Get a list of the header line text spans.
    pub fn header_spans(&self) -> (r: &Vec<Span>)
        ensures
            r@ == self.spec_headers(),
    {
        &self.headers
    }

    /// Get a list of the string text header lines.
    pub fn header_strs(&self) -> (r: Vec<&str>)
        ensures
            r@.len() == self.spec_headers().len(),
            forall|i: int|
                0 <= i < r@.len() ==> (#[trigger] r@[i]).spec_bytes() == span_bytes(
                    self.bytes(),
                    self.spec_headers()[i],
                ),
    {
        self.prove_slices();
        let mut r: Vec<&str> = Vec::new();
        let mut i: usize = 0;
        while i < self.headers.len()
            invariant
                forall|j: int| 0 <= j < self.headers@.len() ==> valid_slice(self.bytes(), #[trigger] self.headers@[j]),
                i <= self.headers@.len(),
                r@.len() == i,
                forall|j: int|
                    0 <= j < i ==> (#[trigger] r@[j]).spec_bytes() == span_bytes(
                        self.bytes(),
                        self.headers@[j],
                    ),
            decreases self.headers@.len() - i,
        {
            r.push(self.slice_message(&self.headers[i]));
            i += 1;
        }
        r
    }

    /// Get the text span of the first header line whose key is `key`, that is,
    /// which starts with `key` followed by `:`.
    pub fn header_span(&self, key: &str) -> (r: Option<&Span>)
        ensures
            match r {
                Some(s) => exists|i: int|
                    find_key_from(self.bytes(), self.spec_headers(), key.spec_bytes(), 0) == Some(i)
                        && *s == self.spec_headers()[i],
                None => find_key_from(self.bytes(), self.spec_headers(), key.spec_bytes(), 0) is None,
            },
    {
        self.prove_slices();
        match find_header(self.message.as_bytes(), &self.headers, key.as_bytes()) {
            Some(i) => Some(&self.headers[i]),
            None => None,
        }
    }

    /// Get the string text of the first header line whose key is `key`.
    pub fn header_str(&self, key: &str) -> (r: Option<&str>)
        ensures
            match r {
                Some(s) => exists|i: int|
                    find_key_from(self.bytes(), self.spec_headers(), key.spec_bytes(), 0) == Some(i)
                        && s.spec_bytes() == span_bytes(self.bytes(), self.spec_headers()[i]),
                None => find_key_from(self.bytes(), self.spec_headers(), key.spec_bytes(), 0) is None,
            },
    {
        self.prove_slices();
        match find_header(self.message.as_bytes(), &self.headers, key.as_bytes()) {
            Some(i) => Some(self.slice_message(&self.headers[i])),
            None => None,
        }
    }

    /// Get the string text of the body, if defined.
    pub fn body_str(&self) -> (r: Option<&str>)
        ensures
            r is Some <==> self.spec_body() is Some,
            r matches Some(s) ==> s.spec_bytes() == span_bytes(self.bytes(), self.spec_body()->0),
    {
        self.prove_slices();
        match &self.body {
            Some(span) => Some(self.slice_message(span)),
            None => None,
        }
    }

    fn prove_slices(&self)
        ensures
            valid_slice(self.bytes(), self.method),
            valid_slice(self.bytes(), self.uri),
            valid_slice(self.bytes(), self.http_version),
            self.body matches Some(r) ==> valid_slice(self.bytes(), r),
            forall|j: int| 0 <= j < self.headers@.len() ==> valid_slice(self.bytes(), #[trigger] self.headers@[j]),
    {
        proof {
            use_type_invariant(self);
            lemma_view_slices(
                self.message.spec_bytes(),
                Some(self.method),
                Some(self.uri),
                Some(self.http_version),
                self.headers@,
                self.body,
            );
        }
    }

    /// Return a slice of the message string.
    fn slice_message(&self, span: &Span) -> (r: &'http_message str)
        requires
            valid_slice(self.bytes(), *span),
        ensures
            r.spec_bytes() == span_bytes(self.bytes(), *span),
    {
        slice_text(self.message, span.start, span.end)
    }
}

/// Parses `input` strictly into a view.
fn parse_request<'http_message>(input: &'http_message str) -> (r: Result<
    ParsedHttpRequest<'http_message>,
    Error,
>)
    ensures
        ({
            let b = input.spec_bytes();
            let n = request_line_tokens(b).len();
            match r {
                Ok(p) => !is_blank_text(b) && n >= 3 && first_blank_line(b) is Some
                    && p.is_strict_parse_of(b) && p.text() == input@ && p.well_formed(),
                Err(e) => if is_blank_text(b) {
                    e == Error::EmptyHttpMessage
                } else if n == 0 {
                    e matches Error::MissingRequired { key } && key@ == "method"@
                } else if n == 1 {
                    e matches Error::MissingRequired { key } && key@ == "uri"@
                } else if n == 2 {
                    e matches Error::MissingRequired { key } && key@ == "http_version"@
                } else {
                    first_blank_line(b) is None && e == Error::MissingBlankLine
                },
            }
        }),
{
    if is_blank_message(input) {
        return Err(Error::EmptyHttpMessage);
    }
    let parts = parse_parts(input);
    let n = input.as_bytes().len();
    proof {
        lemma_parts_well_formed(input.spec_bytes());
    }
    let RequestParts { method, uri, http_version, headers, body, has_blank_line } = parts;
    let method = match method {
        Some(m) => m,
        None => return Err(Error::missing_required("method")),
    };
    let uri = match uri {
        Some(u) => u,
        None => return Err(Error::missing_required("uri")),
    };
    let http_version = match http_version {
        Some(v) => v,
        None => return Err(Error::missing_required("http_version")),
    };
    if !has_blank_line {
        return Err(Error::MissingBlankLine);
    }
    Ok(ParsedHttpRequest::parsed(input, method, uri, http_version, headers, body))
}

} // verus!
