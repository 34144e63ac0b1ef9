//! The extraction pipeline shared by both parsing modes: line spans, then the
//! request-line tokens, then the header spans and the body span.
use vstd::prelude::*;
use vstd::utf8::*;
use vstd::string::*;
use crate::span::{Span, copy_span, line_spans, tiles_from, get_line_spans, lemma_lines_from};
use crate::text::{LINE_FEED, span, tokens, find_tokens, is_blank, separated_within, lemma_scan_tokens};

verus! {

broadcast use vstd::utf8::group_utf8_lib;

/// A line that holds nothing but its line feed.
pub open spec fn is_blank_line(b: Seq<u8>, r: Span) -> bool {
    r.end == r.start + 1 && b[r.start as int] == LINE_FEED
}

/// Index of the first blank line in `l` at or after `k`.
pub open spec fn first_blank_from(b: Seq<u8>, l: Seq<Span>, k: int) -> Option<int>
    decreases l.len() - k,
{
    if 0 <= k < l.len() {
        if is_blank_line(b, l[k]) {
            Some(k)
        } else {
            first_blank_from(b, l, k + 1)
        }
    } else {
        None
    }
}

/// Index of the first blank line of the message, the header/body separator.
pub open spec fn first_blank_line(b: Seq<u8>) -> Option<int> {
    first_blank_from(b, line_spans(b), 0)
}

/// The tokens of the message's first line.
pub open spec fn request_line_tokens(b: Seq<u8>) -> Seq<Span> {
    let l = line_spans(b);
    if l.len() > 0 {
        tokens(b, 0, l[0].end as int)
    } else {
        seq![]
    }
}

/// The `i`-th element of `t`, if there is one.
pub open spec fn nth_span(t: Seq<Span>, i: int) -> Option<Span> {
    if 0 <= i < t.len() {
        Some(t[i])
    } else {
        None
    }
}

/// The header lines: those strictly between the first line and the first blank
/// line, or all lines after the first one when there is no blank line.
pub open spec fn header_lines(b: Seq<u8>) -> Seq<Span> {
    let l = line_spans(b);
    match first_blank_line(b) {
        Some(k) => if k >= 1 {
            l.subrange(1, k)
        } else {
            seq![]
        },
        None => if l.len() >= 1 {
            l.subrange(1, l.len() as int)
        } else {
            seq![]
        },
    }
}

/// The body: everything after the first blank line, absent when there is no
/// blank line or nothing follows it.
pub open spec fn body_of(b: Seq<u8>) -> Option<Span> {
    let l = line_spans(b);
    match first_blank_line(b) {
        Some(k) => if l[k].end < b.len() {
            Some(span(l[k].end as int, b.len() as int))
        } else {
            None
        },
        None => None,
    }
}

/// The spans found by one pass of the pipeline over a message.
pub struct RequestParts {
    pub method: Option<Span>,
    pub uri: Option<Span>,
    pub http_version: Option<Span>,
    pub headers: Vec<Span>,
    pub body: Option<Span>,
    pub has_blank_line: bool,
}

impl RequestParts {
    /// The parts are those that the pipeline defines for the message bytes `b`.
    pub open spec fn of(&self, b: Seq<u8>) -> bool {
        let t = request_line_tokens(b);
        &&& self.method == nth_span(t, 0)
        &&& self.uri == nth_span(t, 1)
        &&& self.http_version == nth_span(t, 2)
        &&& self.headers@ == header_lines(b)
        &&& self.body == body_of(b)
        &&& self.has_blank_line == first_blank_line(b) is Some
    }
}

/// Returns the index of the first blank line among `lines`.
fn find_first_blank_line(b: &[u8], lines: &Vec<Span>) -> (r: Option<usize>)
    requires
        valid_utf8(b@),
        b@.len() <= usize::MAX,
        lines@ == line_spans(b@),
    ensures
        match r {
            Some(k) => first_blank_line(b@) == Some(k as int),
            None => first_blank_line(b@) is None,
        },
{
    proof {
        lemma_boundary_zero(b@);
        lemma_lines_from(b@, 0, 0);
    }
    let mut k: usize = 0;
    while k < lines.len()
        invariant
            k <= lines@.len(),
            lines@ == line_spans(b@),
            tiles_from(b@, lines@, 0),
            first_blank_from(b@, lines@, 0) == first_blank_from(b@, lines@, k as int),
        decreases lines@.len() - k,
    {
        let line = &lines[k];
        assert(line.start < line.end <= b@.len());
        if line.end - line.start == 1 && b[line.start] == LINE_FEED {
            return Some(k);
        }
        k += 1;
    }
    None
}

proof fn lemma_boundary_zero(b: Seq<u8>)
    requires
        valid_utf8(b),
    ensures
        is_char_boundary(b, 0),
{
    is_char_boundary_start_end_of_seq(b);
}

/// Splits the first line `line` of `b` into its method, target and version tokens.
pub fn parse_first_line(b: &[u8], line: &Span) -> (r: (Option<Span>, Option<Span>, Option<Span>))
    requires
        line.start <= line.end <= b@.len(),
    ensures
        r.0 == nth_span(tokens(b@, line.start as int, line.end as int), 0),
        r.1 == nth_span(tokens(b@, line.start as int, line.end as int), 1),
        r.2 == nth_span(tokens(b@, line.start as int, line.end as int), 2),
{
    let parts = find_tokens(b, line.start, line.end);
    let method = if parts.len() > 0 {
        Some(copy_span(&parts[0]))
    } else {
        None
    };
    let uri = if parts.len() > 1 {
        Some(copy_span(&parts[1]))
    } else {
        None
    };
    let http_version = if parts.len() > 2 {
        Some(copy_span(&parts[2]))
    } else {
        None
    };
    (method, uri, http_version)
}

/// The span from just after the first of `spans[from..]`, a line that holds only
/// its line feed, to the end of the last one; absent when that span is empty.
pub fn get_span_extent_from_spans(spans: &Vec<Span>, from: usize) -> (r: Option<Span>)
    requires
        from < spans@.len(),
        spans@[from as int].start < spans@[from as int].end,
    ensures
        r == (if spans@[from as int].start + 1 < spans@.last().end {
            Some(span(spans@[from as int].start + 1, spans@.last().end as int))
        } else {
            None
        }),
{
    let first = spans[from].start + 1;
    let last = spans[spans.len() - 1].end;
    if first < last {
        Some(first..last)
    } else {
        None
    }
}

/// Splits the lines after the first into header lines and the body span, at the
/// first blank line `first_empty_line_idx`.
pub fn get_header_and_body_spans(
    b: &[u8],
    lines: &Vec<Span>,
    first_empty_line_idx: Option<usize>,
) -> (r: (Vec<Span>, Option<Span>))
    requires
        valid_utf8(b@),
        b@.len() <= usize::MAX,
        lines@ == line_spans(b@),
        match first_empty_line_idx {
            Some(k) => first_blank_line(b@) == Some(k as int),
            None => first_blank_line(b@) is None,
        },
    ensures
        r.0@ == header_lines(b@),
        r.1 == body_of(b@),
{
    proof {
        lemma_boundary_zero(b@);
        lemma_lines_from(b@, 0, 0);
        lemma_first_blank_in_range(b@, lines@, 0);
    }
    let end = match first_empty_line_idx {
        Some(k) => k,
        None => lines.len(),
    };
    let mut headers: Vec<Span> = Vec::new();
    if end >= 1 {
        let mut i: usize = 1;
        assert(headers@ =~= lines@.subrange(1, 1));
        while i < end
            invariant
                1 <= i <= end <= lines@.len(),
                headers@ == lines@.subrange(1, i as int),
            decreases end - i,
        {
            headers.push(copy_span(&lines[i]));
            assert(headers@ =~= lines@.subrange(1, i + 1));
            i += 1;
        }
    }
    let body = match first_empty_line_idx {
        Some(k) => {
            let r = get_span_extent_from_spans(lines, k);
            assert(lines@[k as int].start + 1 == lines@[k as int].end);
            r
        },
        None => None,
    };
    (headers, body)
}

/// The first blank line found from `k` on lies in `l`.
proof fn lemma_first_blank_in_range(b: Seq<u8>, l: Seq<Span>, k: int)
    requires
        0 <= k,
    ensures
        first_blank_from(b, l, k) matches Some(j) ==> k <= j < l.len() && is_blank_line(b, l[j]),
    decreases l.len() - k,
{
    if 0 <= k < l.len() && !is_blank_line(b, l[k]) {
        lemma_first_blank_in_range(b, l, k + 1);
    }
}

/// Ranges that are non-empty, lie in `[lo, hi]`, start and end on character
/// boundaries of `b`, and come one after the other without overlap.
pub open spec fn ordered_within(b: Seq<u8>, s: Seq<Span>, lo: int, hi: int) -> bool {
    &&& forall|k: int|
        0 <= k < s.len() ==> lo <= (#[trigger] s[k]).start < s[k].end <= hi
            && is_char_boundary(b, s[k].start as int) && is_char_boundary(b, s[k].end as int)
    &&& forall|k: int| 0 <= k < s.len() - 1 ==> (#[trigger] s[k]).end <= s[k + 1].start
}

/// The bytes of `b` that the span `r` covers.
pub open spec fn span_bytes(b: Seq<u8>, r: Span) -> Seq<u8> {
    b.subrange(r.start as int, r.end as int)
}

/// `r` lies in `b` and starts and ends on character boundaries.
pub open spec fn valid_slice(b: Seq<u8>, r: Span) -> bool {
    &&& r.start <= r.end <= b.len()
    &&& is_char_boundary(b, r.start as int)
    &&& is_char_boundary(b, r.end as int)
}

/// Each span of a well-formed view can be sliced out of the message.
pub proof fn lemma_view_slices(
    b: Seq<u8>,
    method: Option<Span>,
    uri: Option<Span>,
    http_version: Option<Span>,
    headers: Seq<Span>,
    body: Option<Span>,
)
    requires
        spans_well_formed(b, method, uri, http_version, headers, body),
    ensures
        method matches Some(r) ==> valid_slice(b, r),
        uri matches Some(r) ==> valid_slice(b, r),
        http_version matches Some(r) ==> valid_slice(b, r),
        body matches Some(r) ==> valid_slice(b, r),
        forall|j: int| 0 <= j < headers.len() ==> valid_slice(b, #[trigger] headers[j]),
{
    let s = view_spans(method, uri, http_version, headers, body);
    let a = opt_spans(method);
    let u = opt_spans(uri);
    let v = opt_spans(http_version);
    let pre = a + u + v;
    assert(s == pre + headers + opt_spans(body));
    if method is Some {
        assert(s[0] == method->0);
    }
    if uri is Some {
        assert(s[a.len() as int] == uri->0);
    }
    if http_version is Some {
        assert(s[(a.len() + u.len()) as int] == http_version->0);
    }
    if body is Some {
        assert(s[s.len() - 1] == body->0);
    }
    assert forall|j: int| 0 <= j < headers.len() implies valid_slice(b, #[trigger] headers[j]) by {
        assert(s[pre.len() + j] == headers[j]);
    }
}

/// The span in `o`, if any, as a sequence of zero or one spans.
pub open spec fn opt_spans(o: Option<Span>) -> Seq<Span> {
    match o {
        Some(r) => seq![r],
        None => seq![],
    }
}

/// All spans of a request view, in the order in which they must appear.
pub open spec fn view_spans(
    method: Option<Span>,
    uri: Option<Span>,
    http_version: Option<Span>,
    headers: Seq<Span>,
    body: Option<Span>,
) -> Seq<Span> {
    opt_spans(method) + opt_spans(uri) + opt_spans(http_version) + headers + opt_spans(body)
}

/// The span invariant of a request view over the message bytes `b`: every span
/// is non-empty, lies in the message, starts and ends on character boundaries,
/// and method, target, version, headers and body follow each other in that order.
pub open spec fn spans_well_formed(
    b: Seq<u8>,
    method: Option<Span>,
    uri: Option<Span>,
    http_version: Option<Span>,
    headers: Seq<Span>,
    body: Option<Span>,
) -> bool {
    ordered_within(b, view_spans(method, uri, http_version, headers, body), 0, b.len() as int)
}

proof fn lemma_chain_lo(s: Seq<Span>, lo: int, k: int)
    requires
        0 <= k < s.len(),
        forall|j: int| 0 <= j < s.len() ==> (#[trigger] s[j]).start < s[j].end,
        forall|j: int| 0 <= j < s.len() - 1 ==> (#[trigger] s[j]).end <= s[j + 1].start,
        lo <= s[0].start,
    ensures
        lo <= s[k].start,
    decreases k,
{
    if k > 0 {
        lemma_chain_lo(s, lo, k - 1);
    }
}

proof fn lemma_chain_hi(s: Seq<Span>, hi: int, k: int)
    requires
        0 <= k < s.len(),
        forall|j: int| 0 <= j < s.len() ==> (#[trigger] s[j]).start < s[j].end,
        forall|j: int| 0 <= j < s.len() - 1 ==> (#[trigger] s[j]).end <= s[j + 1].start,
        s[s.len() - 1].end <= hi,
    ensures
        s[k].end <= hi,
    decreases s.len() - k,
{
    if k < s.len() - 1 {
        lemma_chain_hi(s, hi, k + 1);
    }
}

/// A chain of non-empty spans that starts at or after `lo` and ends at or
/// before `hi` lies in `[lo, hi]`.
proof fn lemma_chain_within(b: Seq<u8>, s: Seq<Span>, lo: int, hi: int)
    requires
        forall|j: int|
            0 <= j < s.len() ==> (#[trigger] s[j]).start < s[j].end && is_char_boundary(
                b,
                s[j].start as int,
            ) && is_char_boundary(b, s[j].end as int),
        forall|j: int| 0 <= j < s.len() - 1 ==> (#[trigger] s[j]).end <= s[j + 1].start,
        s.len() > 0 ==> lo <= s[0].start && s[s.len() - 1].end <= hi,
    ensures
        ordered_within(b, s, lo, hi),
{
    assert forall|k: int| 0 <= k < s.len() implies lo <= (#[trigger] s[k]).start && s[k].end
        <= hi by {
        lemma_chain_lo(s, lo, k);
        lemma_chain_hi(s, hi, k);
    }
}

proof fn lemma_ordered_concat(b: Seq<u8>, x: Seq<Span>, y: Seq<Span>, lo: int, mid: int, hi: int)
    requires
        lo <= mid <= hi,
        ordered_within(b, x, lo, mid),
        ordered_within(b, y, mid, hi),
    ensures
        ordered_within(b, x + y, lo, hi),
{
    let z = x + y;
    assert forall|k: int| 0 <= k < z.len() implies lo <= (#[trigger] z[k]).start < z[k].end <= hi
        && is_char_boundary(b, z[k].start as int) && is_char_boundary(b, z[k].end as int) by {
        if k < x.len() {
            assert(z[k] == x[k]);
        } else {
            assert(z[k] == y[k - x.len()]);
        }
    }
    assert forall|k: int| 0 <= k < z.len() - 1 implies (#[trigger] z[k]).end <= z[k + 1].start by {
        if k < x.len() - 1 {
            assert(z[k] == x[k]);
            assert(z[k + 1] == x[k + 1]);
        } else if k == x.len() - 1 {
            assert(z[k] == x[k]);
            assert(z[k + 1] == y[0]);
        } else {
            assert(z[k] == y[k - x.len()]);
            assert(z[k + 1] == y[k + 1 - x.len()]);
        }
    }
}

/// The first three tokens of a line are ordered within it.
proof fn lemma_first_three(b: Seq<u8>, t: Seq<Span>, lo: int, hi: int)
    requires
        separated_within(b, t, lo, hi),
        lo <= hi,
    ensures
        ordered_within(
            b,
            opt_spans(nth_span(t, 0)) + opt_spans(nth_span(t, 1)) + opt_spans(nth_span(t, 2)),
            lo,
            hi,
        ),
{
    let n: int = if t.len() < 3 {
        t.len() as int
    } else {
        3
    };
    let r = opt_spans(nth_span(t, 0)) + opt_spans(nth_span(t, 1)) + opt_spans(nth_span(t, 2));
    assert(r =~= t.subrange(0, n));
    assert forall|k: int| 0 <= k < r.len() implies lo <= (#[trigger] r[k]).start < r[k].end <= hi
        && is_char_boundary(b, r[k].start as int) && is_char_boundary(b, r[k].end as int) by {
        assert(r[k] == t[k]);
    }
    assert forall|k: int| 0 <= k < r.len() - 1 implies (#[trigger] r[k]).end <= r[k + 1].start by {
        assert(r[k] == t[k]);
        assert(r[k + 1] == t[k + 1]);
    }
}

/// Where the header block ends: the start of the first blank line after the
/// first line, else the end of the first line, or the end of the message.
pub open spec fn header_block_end(b: Seq<u8>) -> int {
    let l = line_spans(b);
    match first_blank_line(b) {
        Some(k) => if k >= 1 {
            l[k].start as int
        } else {
            l[0].end as int
        },
        None => b.len() as int,
    }
}

proof fn lemma_headers_ordered(b: Seq<u8>)
    requires
        valid_utf8(b),
        b.len() <= usize::MAX,
        line_spans(b).len() > 0,
    ensures
        line_spans(b)[0].end <= header_block_end(b) <= b.len(),
        ordered_within(b, header_lines(b), line_spans(b)[0].end as int, header_block_end(b)),
{
    let l = line_spans(b);
    let h = header_lines(b);
    let e0 = l[0].end as int;
    let x = header_block_end(b);
    lemma_boundary_zero(b);
    lemma_lines_from(b, 0, 0);
    lemma_first_blank_in_range(b, l, 0);
    if h.len() > 0 {
        assert(h[0] == l[1]);
        match first_blank_line(b) {
            Some(k) => {
                assert(h[h.len() - 1] == l[k - 1]);
            },
            None => {
                assert(h[h.len() - 1] == l[l.len() - 1]);
            },
        }
    }
    assert forall|j: int| 0 <= j < h.len() implies (#[trigger] h[j]).start < h[j].end
        && is_char_boundary(b, h[j].start as int) && is_char_boundary(b, h[j].end as int) by {
        assert(h[j] == l[j + 1]);
    }
    assert forall|j: int| 0 <= j < h.len() - 1 implies (#[trigger] h[j]).end <= h[j + 1].start by {
        assert(h[j] == l[j + 1]);
        assert(h[j + 1] == l[j + 2]);
    }
    lemma_chain_within(b, h, e0, x);
    if let Some(k) = first_blank_line(b) {
        if k >= 1 {
            let rest = l.subrange(1, l.len() as int);
            assert forall|j: int| 0 <= j < rest.len() implies (#[trigger] rest[j]).start
                < rest[j].end by {
                assert(rest[j] == l[j + 1]);
            }
            assert forall|j: int| 0 <= j < rest.len() - 1 implies (#[trigger] rest[j]).end
                <= rest[j + 1].start by {
                assert(rest[j] == l[j + 1]);
                assert(rest[j + 1] == l[j + 2]);
            }
            assert(rest[0] == l[1]);
            lemma_chain_lo(rest, e0, k - 1);
            assert(rest[k - 1] == l[k]);
        }
    }
}

proof fn lemma_body_ordered(b: Seq<u8>)
    requires
        valid_utf8(b),
        b.len() <= usize::MAX,
        line_spans(b).len() > 0,
    ensures
        ordered_within(b, opt_spans(body_of(b)), header_block_end(b), b.len() as int),
{
    let l = line_spans(b);
    let body = body_of(b);
    let ob = opt_spans(body);
    lemma_boundary_zero(b);
    lemma_lines_from(b, 0, 0);
    lemma_first_blank_in_range(b, l, 0);
    if let Some(k) = first_blank_line(b) {
        if body is Some {
            assert(ob[0] == span(l[k].end as int, b.len() as int));
            is_char_boundary_start_end_of_seq(b);
        }
    }
}

/// Whatever the message, the pipeline's spans meet the span invariant.
pub proof fn lemma_parts_well_formed(b: Seq<u8>)
    requires
        valid_utf8(b),
        b.len() <= usize::MAX,
    ensures
        spans_well_formed(
            b,
            nth_span(request_line_tokens(b), 0),
            nth_span(request_line_tokens(b), 1),
            nth_span(request_line_tokens(b), 2),
            header_lines(b),
            body_of(b),
        ),
{
    let l = line_spans(b);
    let t = request_line_tokens(b);
    let h = header_lines(b);
    let body = body_of(b);
    let n = b.len() as int;
    lemma_boundary_zero(b);
    lemma_lines_from(b, 0, 0);
    if l.len() == 0 {
        assert(view_spans(nth_span(t, 0), nth_span(t, 1), nth_span(t, 2), h, body) =~= seq![]);
    } else {
        let e0 = l[0].end as int;
        lemma_scan_tokens(b, 0, e0, 0);
        lemma_first_three(b, t, 0, e0);
        let rl = opt_spans(nth_span(t, 0)) + opt_spans(nth_span(t, 1)) + opt_spans(nth_span(t, 2));
        let x = header_block_end(b);
        lemma_headers_ordered(b);
        lemma_body_ordered(b);
        lemma_ordered_concat(b, rl, h, 0, e0, x);
        lemma_ordered_concat(b, rl + h, opt_spans(body), 0, x, n);
        assert(view_spans(nth_span(t, 0), nth_span(t, 1), nth_span(t, 2), h, body) =~= rl + h
            + opt_spans(body));
    }
}

/// Returns all spans of a view in their required order.
fn collect_view_spans(
    method: &Option<Span>,
    uri: &Option<Span>,
    http_version: &Option<Span>,
    headers: &Vec<Span>,
    body: &Option<Span>,
) -> (r: Vec<Span>)
    ensures
        r@ == view_spans(*method, *uri, *http_version, headers@, *body),
{
    let mut r: Vec<Span> = Vec::new();
    if let Some(m) = method {
        r.push(copy_span(m));
    }
    if let Some(u) = uri {
        r.push(copy_span(u));
    }
    if let Some(v) = http_version {
        r.push(copy_span(v));
    }
    let ghost line = r@;
    assert(line =~= opt_spans(*method) + opt_spans(*uri) + opt_spans(*http_version));
    let mut i: usize = 0;
    while i < headers.len()
        invariant
            i <= headers@.len(),
            r@ == line + headers@.subrange(0, i as int),
        decreases headers@.len() - i,
    {
        r.push(copy_span(&headers[i]));
        assert(r@ =~= line + headers@.subrange(0, i + 1));
        i += 1;
    }
    assert(headers@.subrange(0, i as int) =~= headers@);
    let ghost with_headers = r@;
    if let Some(bd) = body {
        r.push(copy_span(bd));
    }
    assert(r@ =~= with_headers + opt_spans(*body));
    r
}

/// Checks the span invariant: returns whether the given spans are non-empty,
/// lie in `message`, start and end on character boundaries, and come in the
/// order method, target, version, headers, body without overlap.
pub fn verify_spans(
    message: &str,
    method: &Option<Span>,
    uri: &Option<Span>,
    http_version: &Option<Span>,
    headers: &Vec<Span>,
    body: &Option<Span>,
) -> (r: bool)
    ensures
        r == spans_well_formed(message.spec_bytes(), *method, *uri, *http_version, headers@, *body),
{
    let spans = collect_view_spans(method, uri, http_version, headers, body);
    let n = message.as_bytes().len();
    let ghost b = message.spec_bytes();
    let mut k: usize = 0;
    while k < spans.len()
        invariant
            k <= spans@.len(),
            n == b.len(),
            b == message.spec_bytes(),
            spans@ == view_spans(*method, *uri, *http_version, headers@, *body),
            ordered_within(b, spans@.subrange(0, k as int), 0, n as int),
        decreases spans@.len() - k,
    {
        let sp = &spans[k];
        let ghost prefix = spans@.subrange(0, k as int);
        let ghost next = spans@.subrange(0, k + 1);
        assert(forall|j: int| 0 <= j < prefix.len() ==> #[trigger] prefix[j] == next[j]);
        assert(next[k as int] == spans@[k as int]);
        if !(sp.start < sp.end && sp.end <= n) {
            assert(!ordered_within(b, spans@, 0, n as int)) by {
                assert(spans@[k as int] == *sp);
            }
            return false;
        }
        if !message.is_char_boundary(sp.start) || !message.is_char_boundary(sp.end) {
            assert(!ordered_within(b, spans@, 0, n as int)) by {
                assert(spans@[k as int] == *sp);
            }
            return false;
        }
        if k > 0 && spans[k - 1].end > sp.start {
            assert(!ordered_within(b, spans@, 0, n as int)) by {
                assert(spans@[k as int] == *sp);
            }
            return false;
        }
        assert(ordered_within(b, next, 0, n as int)) by {
            assert forall|j: int| 0 <= j < next.len() - 1 implies (#[trigger] next[j]).end
                <= next[j + 1].start by {
                if j < k - 1 {
                    assert(next[j + 1] == prefix[j + 1]);
                }
            }
        }
        k += 1;
    }
    assert(spans@.subrange(0, k as int) =~= spans@);
    true
}

/// The byte `:` that ends a header key.
pub const COLON: u8 = 0x3a;

/// Whether the header line `h` of `b` starts with `key` followed by `:`.
pub open spec fn has_key(b: Seq<u8>, h: Span, key: Seq<u8>) -> bool {
    let p = key.push(COLON);
    &&& h.start + p.len() <= h.end
    &&& b.subrange(h.start as int, h.start + p.len()) == p
}

/// Index of the first of `hs[i..]` whose line starts with `key` followed by `:`.
pub open spec fn find_key_from(b: Seq<u8>, hs: Seq<Span>, key: Seq<u8>, i: int) -> Option<int>
    decreases hs.len() - i,
{
    if 0 <= i < hs.len() {
        if has_key(b, hs[i], key) {
            Some(i)
        } else {
            find_key_from(b, hs, key, i + 1)
        }
    } else {
        None
    }
}

/// Returns whether the header line `h` of `b` starts with `key` followed by `:`.
fn starts_with_key(b: &[u8], h: &Span, key: &[u8]) -> (r: bool)
    requires
        h.start <= h.end <= b@.len(),
    ensures
        r == has_key(b@, *h, key@),
{
    let ghost p = key@.push(COLON);
    if h.end - h.start <= key.len() {
        return false;
    }
    let mut i: usize = 0;
    while i < key.len()
        invariant
            i <= key@.len(),
            h.start + key@.len() < h.end <= b@.len(),
            p == key@.push(COLON),
            forall|j: int| 0 <= j < i ==> b@[h.start + j] == key@[j],
        decreases key@.len() - i,
    {
        if b[h.start + i] != key[i] {
            assert(b@.subrange(h.start as int, h.start + p.len())[i as int] != p[i as int]);
            return false;
        }
        i += 1;
    }
    let r = b[h.start + key.len()] == COLON;
    if r {
        assert(b@.subrange(h.start as int, h.start + p.len()) =~= p);
    } else {
        assert(b@.subrange(h.start as int, h.start + p.len())[key@.len() as int] != p[key@.len() as int]);
    }
    r
}

/// Returns the index of the first of `headers` whose line starts with `key` followed by `:`.
pub fn find_header(b: &[u8], headers: &Vec<Span>, key: &[u8]) -> (r: Option<usize>)
    requires
        forall|j: int| 0 <= j < headers@.len() ==> (#[trigger] headers@[j]).start <= headers@[j].end <= b@.len(),
    ensures
        match r {
            Some(i) => find_key_from(b@, headers@, key@, 0) == Some(i as int) && i < headers@.len(),
            None => find_key_from(b@, headers@, key@, 0) is None,
        },
{
    let mut i: usize = 0;
    while i < headers.len()
        invariant
            i <= headers@.len(),
            forall|j: int| 0 <= j < headers@.len() ==> (#[trigger] headers@[j]).start <= headers@[j].end <= b@.len(),
            find_key_from(b@, headers@, key@, 0) == find_key_from(b@, headers@, key@, i as int),
        decreases headers@.len() - i,
    {
        if starts_with_key(b, &headers[i], key) {
            return Some(i);
        }
        i += 1;
    }
    None
}

/// The message holds nothing but whitespace.
pub open spec fn is_blank_text(b: Seq<u8>) -> bool {
    tokens(b, 0, b.len() as int).len() == 0
}

/// A message that is a lone line feed holds nothing but whitespace.
pub proof fn lemma_line_feed_is_blank(b: Seq<u8>)
    requires
        b == seq![LINE_FEED],
    ensures
        is_blank_text(b),
{
    assert(crate::text::ws_width(b, 0, 1) == 1);
    assert(tokens(b, 0, 1) == crate::text::scan_tokens(b, 1, 1, 1));
}

/// In well-ordered spans, each span ends before any later one starts.
pub proof fn lemma_ordered_before(b: Seq<u8>, s: Seq<Span>, lo: int, hi: int, i: int, j: int)
    requires
        ordered_within(b, s, lo, hi),
        0 <= i < j < s.len(),
    ensures
        s[i].end <= s[j].start,
    decreases j - i,
{
    if j > i + 1 {
        lemma_ordered_before(b, s, lo, hi, i, j - 1);
    }
}

/// In a well-formed view, each header line ends before any later one starts.
pub proof fn lemma_headers_in_order(
    b: Seq<u8>,
    method: Option<Span>,
    uri: Option<Span>,
    http_version: Option<Span>,
    headers: Seq<Span>,
    body: Option<Span>,
    i: int,
    j: int,
)
    requires
        spans_well_formed(b, method, uri, http_version, headers, body),
        0 <= i < j < headers.len(),
    ensures
        headers[i].end <= headers[j].start,
{
    let s = view_spans(method, uri, http_version, headers, body);
    let pre = opt_spans(method) + opt_spans(uri) + opt_spans(http_version);
    assert(s == pre + headers + opt_spans(body));
    assert(s[pre.len() + i] == headers[i]);
    assert(s[pre.len() + j] == headers[j]);
    lemma_ordered_before(b, s, 0, b.len() as int, pre.len() + i, pre.len() + j);
}

/// Runs the pipeline over `input`.
pub fn parse_parts(input: &str) -> (r: RequestParts)
    ensures
        r.of(input.spec_bytes()),
{
    let b = input.as_bytes();
    let n = b.len();
    assert(b@.len() == n);
    let lines = get_line_spans(input);
    let first_empty_line_idx = find_first_blank_line(b, &lines);
    let (method, uri, http_version) = if lines.len() > 0 {
        proof {
            lemma_boundary_zero(b@);
            lemma_lines_from(b@, 0, 0);
        }
        parse_first_line(b, &lines[0])
    } else {
        (None, None, None)
    };
    let (headers, body) = get_header_and_body_spans(b, &lines, first_empty_line_idx);
    RequestParts {
        method,
        uri,
        http_version,
        headers,
        body,
        has_blank_line: first_empty_line_idx.is_some(),
    }
}

/// Returns whether `input` holds nothing but whitespace.
pub fn is_blank_message(input: &str) -> (r: bool)
    ensures
        r == is_blank_text(input.spec_bytes()),
{
    let b = input.as_bytes();
    is_blank(b, 0, b.len())
}

} // verus!
