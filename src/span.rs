//! Line spans: one half-open byte range per line of a message.
use core::ops::Range;
use vstd::prelude::*;
use vstd::utf8::*;
use vstd::string::*;
use crate::text::{LINE_FEED, span, lemma_boundary_at, lemma_boundary_after_char};

verus! {

broadcast use vstd::utf8::group_utf8_lib;

/// A half-open byte range `[start, end)` into one message.
pub type Span = Range<usize>;

/// Returns a copy of `r`.
pub fn copy_span(r: &Span) -> (c: Span)
    ensures
        c == *r,
{
    r.start..r.end
}

/// The lines of `b` from position `p` on, where the current line began at `start`:
/// each line runs up to and including its line feed; a last line without one
/// runs to the end.
pub open spec fn lines_from(b: Seq<u8>, p: int, start: int) -> Seq<Span>
    decreases b.len() - p,
{
    if p >= b.len() {
        if start < b.len() {
            seq![span(start, b.len() as int)]
        } else {
            seq![]
        }
    } else if b[p] == LINE_FEED {
        seq![span(start, p + 1)] + lines_from(b, p + 1, p + 1)
    } else {
        lines_from(b, p + 1, start)
    }
}

/// The line spans of the message bytes `b`.
pub open spec fn line_spans(b: Seq<u8>) -> Seq<Span> {
    lines_from(b, 0, 0)
}

/// Spans that are non-empty, lie in `b`, start and end on character boundaries,
/// and follow each other without gap from `start` to the end of `b`.
pub open spec fn tiles_from(b: Seq<u8>, l: Seq<Span>, start: int) -> bool {
    &&& forall|k: int|
        0 <= k < l.len() ==> start <= (#[trigger] l[k]).start < l[k].end <= b.len()
            && is_char_boundary(b, l[k].start as int) && is_char_boundary(b, l[k].end as int)
    &&& forall|k: int| 0 <= k < l.len() - 1 ==> (#[trigger] l[k]).end == l[k + 1].start
    &&& l.len() > 0 ==> l[0].start == start && l[l.len() - 1].end == b.len()
    &&& l.len() == 0 ==> start == b.len()
}

/// The lines tile the message from `start` to its end.
pub proof fn lemma_lines_from(b: Seq<u8>, p: int, start: int)
    requires
        valid_utf8(b),
        b.len() <= usize::MAX,
        0 <= start <= p <= b.len(),
        is_char_boundary(b, start),
    ensures
        tiles_from(b, lines_from(b, p, start), start),
    decreases b.len() - p,
{
    let l = lines_from(b, p, start);
    if p >= b.len() {
        if start == b.len() {
        } else {
            is_char_boundary_start_end_of_seq(b);
        }
    } else if b[p] == LINE_FEED {
        lemma_boundary_at(b, p);
        lemma_boundary_after_char(b, p, 1);
        lemma_lines_from(b, p + 1, p + 1);
        let rest = lines_from(b, p + 1, p + 1);
        assert(l == seq![span(start, p + 1)] + rest);
        assert forall|k: int| 0 <= k < l.len() implies start <= (#[trigger] l[k]).start < l[k].end
            <= b.len() && is_char_boundary(b, l[k].start as int) && is_char_boundary(
            b,
            l[k].end as int,
        ) by {
            if k > 0 {
                assert(l[k] == rest[k - 1]);
            }
        }
        assert forall|k: int| 0 <= k < l.len() - 1 implies (#[trigger] l[k]).end == l[k + 1].start by {
            if k > 0 {
                assert(l[k] == rest[k - 1]);
            }
            assert(l[k + 1] == rest[k]);
        }
        if rest.len() > 0 {
            assert(l[l.len() - 1] == rest[rest.len() - 1]);
        } else {
            assert(l.len() == 1);
        }
    } else {
        lemma_lines_from(b, p + 1, start);
    }
}

/// Returns the line spans of `input`.
pub fn get_line_spans(input: &str) -> (spans: Vec<Span>)
    ensures
        spans@ == line_spans(input.spec_bytes()),
{
    let b = input.as_bytes();
    let mut spans: Vec<Span> = Vec::new();
    let mut start: usize = 0;
    let mut i: usize = 0;
    while i < b.len()
        invariant
            b@ == input.spec_bytes(),
            start <= i <= b@.len(),
            spans@ + lines_from(b@, i as int, start as int) == line_spans(b@),
        decreases b@.len() - i,
    {
        if b[i] == LINE_FEED {
            let ghost before = spans@;
            spans.push(start..i + 1);
            assert(spans@ + lines_from(b@, i + 1, i + 1) =~= before + lines_from(
                b@,
                i as int,
                start as int,
            ));
            start = i + 1;
        }
        i += 1;
    }
    if start < b.len() {
        let ghost before = spans@;
        spans.push(start..b.len());
        assert(spans@ =~= before + lines_from(b@, i as int, start as int));
    } else {
        assert(spans@ =~= spans@ + lines_from(b@, i as int, start as int));
    }
    spans
}

} // verus!
