//! The lenient request view: request-line parts may be absent.
use vstd::prelude::*;
use vstd::utf8::*;
use vstd::string::*;
use crate::error::Error;
use crate::span::Span;
use crate::parse::{
    RequestParts, spans_well_formed, view_spans, nth_span, request_line_tokens, header_lines,
    body_of, is_blank_text, find_key_from, parse_parts, is_blank_message, find_header,
    lemma_parts_well_formed, valid_slice, lemma_view_slices, span_bytes,
    lemma_line_feed_is_blank,
};
use crate::text::{slice_text, LINE_FEED};

verus! {

broadcast use vstd::utf8::group_utf8_lib;

/// A partial HTTP request that might not conform to the HTTP grammar, such as a
/// templated message: each part is a byte range of the message text.
#[derive(Debug, PartialEq)]
pub struct PartialHttpRequest<'http_message> {
    message: &'http_message str,
    method: Option<Span>,
    uri: Option<Span>,
    http_version: Option<Span>,
    headers: Vec<Span>,
    body: Option<Span>,
}

impl<'http_message> PartialHttpRequest<'http_message> {
    #[verifier::type_invariant]
    spec fn spans_valid(&self) -> bool {
        spans_well_formed(
            self.message.spec_bytes(),
            self.method,
            self.uri,
            self.http_version,
            self.headers@,
            self.body,
        )
    }

    /// The message text.
    pub closed spec fn text(&self) -> Seq<char> {
        self.message@
    }

    /// The message text as UTF-8 bytes, which the spans index.
    pub open spec fn bytes(&self) -> Seq<u8> {
        encode_utf8(self.text())
    }

    /// The method's span.
    pub closed spec fn spec_method(&self) -> Option<Span> {
        self.method
    }

    /// The target's span.
    pub closed spec fn spec_uri(&self) -> Option<Span> {
        self.uri
    }

    /// The version's span.
    pub closed spec fn spec_http_version(&self) -> Option<Span> {
        self.http_version
    }

    /// The header lines' spans, in message order.
    pub closed spec fn spec_headers(&self) -> Seq<Span> {
        self.headers@
    }

    /// The body's span.
    pub closed spec fn spec_body(&self) -> Option<Span> {
        self.body
    }

    /// The view holds exactly what lenient parsing finds in the message bytes `b`:
    /// nothing for a message of whitespace only, else the pipeline's parts.
    pub open spec fn is_lenient_parse_of(&self, b: Seq<u8>) -> bool {
        &&& self.bytes() == b
        &&& if is_blank_text(b) {
            &&& self.spec_method() is None
            &&& self.spec_uri() is None
            &&& self.spec_http_version() is None
            &&& self.spec_headers().len() == 0
            &&& self.spec_body() is None
        } else {
            &&& self.spec_method() == nth_span(request_line_tokens(b), 0)
            &&& self.spec_uri() == nth_span(request_line_tokens(b), 1)
            &&& self.spec_http_version() == nth_span(request_line_tokens(b), 2)
            &&& self.spec_headers() == header_lines(b)
            &&& self.spec_body() == body_of(b)
        }
    }

    /// The span invariant holds of the view.
    pub open spec fn well_formed(&self) -> bool {
        spans_well_formed(
            self.bytes(),
            self.spec_method(),
            self.spec_uri(),
            self.spec_http_version(),
            self.spec_headers(),
            self.spec_body(),
        )
    }

    /// Parses `message` leniently; this never fails.
    pub fn from_str(message: &'http_message str) -> (r: Result<Self, Error>)
        ensures
            r matches Ok(p) && p.is_lenient_parse_of(message.spec_bytes()) && p.text() == message@
                && p.well_formed(),
    {
        Ok(parse_request(message))
    }

    /// Builds a view from spans that already meet the span invariant.
    pub fn parsed(
        message: &'http_message str,
        method: Option<Span>,
        uri: Option<Span>,
        http_version: Option<Span>,
        headers: Vec<Span>,
        body: Option<Span>,
    ) -> (r: Self)
        requires
            spans_well_formed(message.spec_bytes(), method, uri, http_version, headers@, body),
        ensures
            r.text() == message@,
            r.spec_method() == method,
            r.spec_uri() == uri,
            r.spec_http_version() == http_version,
            r.spec_headers() == headers@,
            r.spec_body() == body,
            r.well_formed(),
    {
        PartialHttpRequest { message, method, uri, http_version, headers, body }
    }

    /// Returns whether the given spans meet the span invariant over `message`,
    /// that is, whether `parsed` accepts them.
    pub fn verify_spans(
        message: &str,
        method: &Option<Span>,
        uri: &Option<Span>,
        http_version: &Option<Span>,
        headers: &Vec<Span>,
        body: &Option<Span>,
    ) -> (r: bool)
        ensures
            r == spans_well_formed(message.spec_bytes(), *method, *uri, *http_version, headers@, *body),
    {
        crate::parse::verify_spans(message, method, uri, http_version, headers, body)
    }

    /// The message rendered as text, exactly as it was given.
    pub fn to_string(&self) -> (r: String)
        ensures
            r@ == self.text(),
    {
        self.message.to_owned()
    }

    /// Get the HTTP request message text, as it was given.
    pub fn message(&self) -> (r: &'http_message str)
        ensures
            r@ == self.text(),
    {
        self.message
    }

    /// Get the text span of the uri, if defined.
    pub fn uri_span(&self) -> (r: &Option<Span>)
        ensures
            *r == self.spec_uri(),
    {
        &self.uri
    }

    /// Get the string text of the uri, if defined.
    pub fn uri_str(&self) -> (r: Option<&str>)
        ensures
            r is Some <==> self.spec_uri() is Some,
            r matches Some(s) ==> s.spec_bytes() == span_bytes(self.bytes(), self.spec_uri()->0),
    {
        self.prove_slices();
        match &self.uri {
            Some(span) => Some(self.slice_message(span)),
            None => None,
        }
    }

    /// Get the text span of the method, if defined.
    pub fn method_span(&self) -> (r: &Option<Span>)
        ensures
            *r == self.spec_method(),
    {
        &self.method
    }

    /// Get the string text of the method, if defined.
    pub fn method_str(&self) -> (r: Option<&str>)
        ensures
            r is Some <==> self.spec_method() is Some,
            r matches Some(s) ==> s.spec_bytes() == span_bytes(self.bytes(), self.spec_method()->0),
    {
        self.prove_slices();
        match &self.method {
            Some(span) => Some(self.slice_message(span)),
            None => None,
        }
    }

    /// Get the text span of the http version, if defined.
    pub fn http_version_span(&self) -> (r: &Option<Span>)
        ensures
            *r == self.spec_http_version(),
    {
        &self.http_version
    }

    /// Get the string text of the http version, if defined.
    pub fn http_version_str(&self) -> (r: Option<&str>)
        ensures
            r is Some <==> self.spec_http_version() is Some,
            r matches Some(s) ==> s.spec_bytes() == span_bytes(
                self.bytes(),
                self.spec_http_version()->0,
            ),
    {
        self.prove_slices();
        match &self.http_version {
            Some(span) => Some(self.slice_message(span)),
            None => None,
        }
    }

    /// Get a list of the header line text spans.
    pub fn header_spans(&self) -> (r: &Vec<Span>)
        ensures
            r@ == self.spec_headers(),
    {
        &self.headers
    }

    /// Get a list of the string text header lines.
    pub fn header_strs(&self) -> (r: Vec<&str>)
        ensures
            r@.len() == self.spec_headers().len(),
            forall|i: int|
                0 <= i < r@.len() ==> (#[trigger] r@[i]).spec_bytes() == span_bytes(
                    self.bytes(),
                    self.spec_headers()[i],
                ),
    {
        self.prove_slices();
        let mut r: Vec<&str> = Vec::new();
        let mut i: usize = 0;
        while i < self.headers.len()
            invariant
                forall|j: int| 0 <= j < self.headers@.len() ==> valid_slice(self.bytes(), #[trigger] self.headers@[j]),
                i <= self.headers@.len(),
                r@.len() == i,
                forall|j: int|
                    0 <= j < i ==> (#[trigger] r@[j]).spec_bytes() == span_bytes(
                        self.bytes(),
                        self.headers@[j],
                    ),
            decreases self.headers@.len() - i,
        {
            r.push(self.slice_message(&self.headers[i]));
            i += 1;
        }
        r
    }

    /// Get the text span of the first header line whose key is `key`, that is,
    /// which starts with `key` followed by `:`.
    pub fn header_span(&self, key: &str) -> (r: Option<&Span>)
        ensures
            match r {
                Some(s) => exists|i: int|
                    find_key_from(self.bytes(), self.spec_headers(), key.spec_bytes(), 0) == Some(i)
                        && *s == self.spec_headers()[i],
                None => find_key_from(self.bytes(), self.spec_headers(), key.spec_bytes(), 0) is None,
            },
    {
        self.prove_slices();
        match find_header(self.message.as_bytes(), &self.headers, key.as_bytes()) {
            Some(i) => Some(&self.headers[i]),
            None => None,
        }
    }

    /// Get the string text of the first header line whose key is `key`.
    pub fn header_str(&self, key: &str) -> (r: Option<&str>)
        ensures
            match r {
                Some(s) => exists|i: int|
                    find_key_from(self.bytes(), self.spec_headers(), key.spec_bytes(), 0) == Some(i)
                        && s.spec_bytes() == span_bytes(self.bytes(), self.spec_headers()[i]),
                None => find_key_from(self.bytes(), self.spec_headers(), key.spec_bytes(), 0) is None,
            },
    {
        self.prove_slices();
        match find_header(self.message.as_bytes(), &self.headers, key.as_bytes()) {
            Some(i) => Some(self.slice_message(&self.headers[i])),
            None => None,
        }
    }

    /// Get the string text of the body, if defined.
    pub fn body_str(&self) -> (r: Option<&str>)
        ensures
            r is Some <==> self.spec_body() is Some,
            r matches Some(s) ==> s.spec_bytes() == span_bytes(self.bytes(), self.spec_body()->0),
    {
        self.prove_slices();
        match &self.body {
            Some(span) => Some(self.slice_message(span)),
            None => None,
        }
    }

    fn prove_slices(&self)
        ensures
            self.method matches Some(r) ==> valid_slice(self.bytes(), r),
            self.uri matches Some(r) ==> valid_slice(self.bytes(), r),
            self.http_version matches Some(r) ==> valid_slice(self.bytes(), r),
            self.body matches Some(r) ==> valid_slice(self.bytes(), r),
            forall|j: int| 0 <= j < self.headers@.len() ==> valid_slice(self.bytes(), #[trigger] self.headers@[j]),
    {
        proof {
            use_type_invariant(self);
            lemma_view_slices(
                self.message.spec_bytes(),
                self.method,
                self.uri,
                self.http_version,
                self.headers@,
                self.body,
            );
        }
    }

    /// Return a slice of the message string.
    fn slice_message(&self, span: &Span) -> (r: &'http_message str)
        requires
            valid_slice(self.bytes(), *span),
        ensures
            r.spec_bytes() == span_bytes(self.bytes(), *span),
    {
        slice_text(self.message, span.start, span.end)
    }
}

/// Lenient parsing keeps the text: a view parsed from `text` renders back to
/// exactly `text`.
pub proof fn lemma_round_trip(text: Seq<char>, p: PartialHttpRequest)
    requires
        p.is_lenient_parse_of(encode_utf8(text)),
    ensures
        p.text() == text,
{
    encode_utf8_decode_utf8(text);
    encode_utf8_decode_utf8(p.text());
}

/// A message that is a lone blank line, or that holds only whitespace, gives a
/// lenient view without method, target, version, headers or body.
pub proof fn lemma_blank_message(b: Seq<u8>, p: PartialHttpRequest)
    requires
        b == seq![LINE_FEED] || is_blank_text(b),
        p.is_lenient_parse_of(b),
    ensures
        is_blank_text(b),
        p.spec_method() is None,
        p.spec_uri() is None,
        p.spec_http_version() is None,
        p.spec_headers().len() == 0,
        p.spec_body() is None,
{
    if b == seq![LINE_FEED] {
        lemma_line_feed_is_blank(b);
    }
}

/// Parses `input` leniently into a view.
fn parse_request<'http_message>(input: &'http_message str) -> (r: PartialHttpRequest<'http_message>)
    ensures
        r.is_lenient_parse_of(input.spec_bytes()),
        r.text() == input@,
        r.well_formed(),
{
    if is_blank_message(input) {
        assert(view_spans(None, None, None, Seq::empty(), None) =~= Seq::empty());
        return PartialHttpRequest::parsed(input, None, None, None, Vec::new(), None);
    }
    let parts = parse_parts(input);
    let n = input.as_bytes().len();
    proof {
        lemma_parts_well_formed(input.spec_bytes());
    }
    let RequestParts { method, uri, http_version, headers, body, .. } = parts;
    PartialHttpRequest::parsed(input, method, uri, http_version, headers, body)
}

} // verus!
