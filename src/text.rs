//! Byte-level text facts: whitespace characters, line breaks, character boundaries.
use vstd::prelude::*;
use vstd::utf8::*;
use vstd::string::*;

verus! {

broadcast use vstd::utf8::group_utf8_lib;

/// The line-feed byte that terminates a line.
pub const LINE_FEED: u8 = 0x0a;

/// Byte length of the whitespace character (Unicode `White_Space`) whose UTF-8
/// encoding starts at `i` and ends no later than `hi`, or 0 when none starts there.
pub open spec fn ws_width(b: Seq<u8>, i: int, hi: int) -> int {
    if !(0 <= i < hi && hi <= b.len()) {
        0
    } else if (0x09 <= b[i] <= 0x0d) || b[i] == 0x20 {
        1
    } else if i + 1 < hi && b[i] == 0xc2 && (b[i + 1] == 0x85 || b[i + 1] == 0xa0) {
        2
    } else if i + 2 < hi && (
        (b[i] == 0xe1 && b[i + 1] == 0x9a && b[i + 2] == 0x80)
        || (b[i] == 0xe2 && b[i + 1] == 0x80 && ((0x80 <= b[i + 2] <= 0x8a) || b[i + 2] == 0xa8
            || b[i + 2] == 0xa9 || b[i + 2] == 0xaf))
        || (b[i] == 0xe2 && b[i + 1] == 0x81 && b[i + 2] == 0x9f)
        || (b[i] == 0xe3 && b[i + 1] == 0x80 && b[i + 2] == 0x80)) {
        3
    } else {
        0
    }
}

/// The half-open range `[s, e)` as a `Range<usize>`.
pub open spec fn span(s: int, e: int) -> core::ops::Range<usize> {
    core::ops::Range { start: s as usize, end: e as usize }
}

/// Maximal runs of non-whitespace bytes in `[p, hi)`; the run that `p` is in
/// began at `s` (`s == p` when that run is still empty).
pub open spec fn scan_tokens(b: Seq<u8>, p: int, hi: int, s: int) -> Seq<core::ops::Range<usize>>
    decreases hi - p,
{
    if p >= hi {
        if s < hi {
            seq![span(s, hi)]
        } else {
            seq![]
        }
    } else if ws_width(b, p, hi) > 0 {
        let run = if s < p {
            seq![span(s, p)]
        } else {
            seq![]
        };
        run + scan_tokens(b, p + ws_width(b, p, hi), hi, p + ws_width(b, p, hi))
    } else {
        scan_tokens(b, p + 1, hi, s)
    }
}

/// The whitespace-delimited tokens of the bytes in `[lo, hi)`, as ranges of `b`.
pub open spec fn tokens(b: Seq<u8>, lo: int, hi: int) -> Seq<core::ops::Range<usize>> {
    scan_tokens(b, lo, hi, lo)
}

/// Ranges that are non-empty, lie in `[lo, hi)`, start and end on character
/// boundaries, and are separated from each other by at least one byte.
pub open spec fn separated_within(b: Seq<u8>, t: Seq<core::ops::Range<usize>>, lo: int, hi: int) -> bool {
    &&& forall|k: int|
        0 <= k < t.len() ==> lo <= (#[trigger] t[k]).start < t[k].end <= hi
            && is_char_boundary(b, t[k].start as int) && is_char_boundary(b, t[k].end as int)
    &&& forall|k: int| 0 <= k < t.len() - 1 ==> (#[trigger] t[k]).end < t[k + 1].start
}

/// Returns the width of the whitespace character starting at `i`, or 0.
pub fn whitespace_width(b: &[u8], i: usize, hi: usize) -> (w: usize)
    requires
        i < hi <= b@.len(),
    ensures
        w == ws_width(b@, i as int, hi as int),
{
    let c = b[i];
    if (0x09 <= c && c <= 0x0d) || c == 0x20 {
        1
    } else if hi - i > 1 && c == 0xc2 && (b[i + 1] == 0x85 || b[i + 1] == 0xa0) {
        2
    } else if hi - i > 2 {
        let c1 = b[i + 1];
        let c2 = b[i + 2];
        if (c == 0xe1 && c1 == 0x9a && c2 == 0x80) || (c == 0xe2 && c1 == 0x80 && ((0x80 <= c2
            && c2 <= 0x8a) || c2 == 0xa8 || c2 == 0xa9 || c2 == 0xaf)) || (c == 0xe2 && c1 == 0x81
            && c2 == 0x9f) || (c == 0xe3 && c1 == 0x80 && c2 == 0x80) {
            3
        } else {
            0
        }
    } else {
        0
    }
}

/// A run that is already open at `p` yields at least one token.
pub proof fn lemma_open_run_yields_token(b: Seq<u8>, p: int, hi: int, s: int)
    requires
        s < p <= hi,
    ensures
        scan_tokens(b, p, hi, s).len() > 0,
    decreases hi - p,
{
    if p < hi {
        let w = ws_width(b, p, hi);
        if w == 0 {
            lemma_open_run_yields_token(b, p + 1, hi, s);
        } else {
            let rest = scan_tokens(b, p + w, hi, p + w);
            assert(scan_tokens(b, p, hi, s) == seq![span(s, p)] + rest);
        }
    }
}

/// A whitespace character that fits before `e` fits before any later bound too.
proof fn lemma_ws_width_bound(b: Seq<u8>, p: int, e: int, hi: int)
    requires
        e <= hi <= b.len(),
        ws_width(b, p, hi) == 0,
    ensures
        ws_width(b, p, e) == 0,
{
}

/// Every token of `[p, hi)` lies in `[s, hi)`, is non-empty, and starts no
/// whitespace character anywhere inside it, when no whitespace starts in `[s, p)`.
proof fn lemma_scan_runs(b: Seq<u8>, p: int, hi: int, s: int)
    requires
        0 <= s <= p <= hi <= b.len(),
        b.len() <= usize::MAX,
        forall|q: int| s <= q < p ==> ws_width(b, q, hi) == 0,
    ensures
        forall|k: int|
            0 <= k < scan_tokens(b, p, hi, s).len() ==> s <= (#[trigger] scan_tokens(
                b,
                p,
                hi,
                s,
            )[k]).start < scan_tokens(b, p, hi, s)[k].end <= hi,
        forall|k: int, q: int|
            #![trigger scan_tokens(b, p, hi, s)[k], ws_width(b, q, hi)]
            0 <= k < scan_tokens(b, p, hi, s).len() && scan_tokens(b, p, hi, s)[k].start <= q
                < scan_tokens(b, p, hi, s)[k].end ==> ws_width(b, q, hi) == 0,
    decreases hi - p,
{
    let t = scan_tokens(b, p, hi, s);
    if p >= hi {
        if s < hi {
            assert(t =~= seq![span(s, hi)]);
            assert(t[0] == span(s, hi));
        } else {
            assert(t.len() == 0);
        }
    } else if ws_width(b, p, hi) > 0 {
        let w = ws_width(b, p, hi);
        lemma_scan_runs(b, p + w, hi, p + w);
        let rest = scan_tokens(b, p + w, hi, p + w);
        if s < p {
            assert(t == seq![span(s, p)] + rest);
            assert forall|k: int| 0 <= k < t.len() implies s <= (#[trigger] t[k]).start < t[k].end <= hi by {
                if k > 0 {
                    assert(t[k] == rest[k - 1]);
                }
            }
            assert forall|k: int, q: int|
                #![trigger t[k], ws_width(b, q, hi)]
                0 <= k < t.len() && t[k].start <= q < t[k].end implies ws_width(b, q, hi) == 0 by {
                if k > 0 {
                    assert(t[k] == rest[k - 1]);
                }
            }
        } else {
            assert(t =~= rest);
            assert forall|k: int| 0 <= k < t.len() implies s <= (#[trigger] t[k]).start by {
                assert(t[k] == rest[k]);
            }
        }
    } else {
        lemma_scan_runs(b, p + 1, hi, s);
        assert(t == scan_tokens(b, p + 1, hi, s));
    }
}

/// A range holding no whitespace character is a single token.
proof fn lemma_run_is_one_token(b: Seq<u8>, p: int, s: int, e: int)
    requires
        0 <= s < e <= b.len(),
        b.len() <= usize::MAX,
        s <= p <= e,
        forall|q: int| s <= q < e ==> ws_width(b, q, e) == 0,
    ensures
        scan_tokens(b, p, e, s) == seq![span(s, e)],
    decreases e - p,
{
    if p < e {
        lemma_run_is_one_token(b, p + 1, s, e);
    }
}

/// Token extraction is idempotent: tokenizing the range of any token that
/// `[lo, hi)` yields gives back exactly that token.
pub proof fn lemma_tokens_idempotent(b: Seq<u8>, lo: int, hi: int, k: int)
    requires
        0 <= lo <= hi <= b.len(),
        b.len() <= usize::MAX,
        0 <= k < tokens(b, lo, hi).len(),
    ensures
        tokens(b, tokens(b, lo, hi)[k].start as int, tokens(b, lo, hi)[k].end as int) == seq![
            tokens(b, lo, hi)[k],
        ],
{
    let t = tokens(b, lo, hi);
    lemma_scan_runs(b, lo, hi, lo);
    let s = t[k].start as int;
    let e = t[k].end as int;
    assert(s <= e);
    assert forall|q: int| s <= q < e implies ws_width(b, q, e) == 0 by {
        assert(ws_width(b, q, hi) == 0);
        lemma_ws_width_bound(b, q, e, hi);
    }
    lemma_run_is_one_token(b, s, s, e);
    assert(span(s, e) == t[k]);
}

/// In valid UTF-8, a position that holds no continuation byte is a character boundary.
pub proof fn lemma_boundary_at(b: Seq<u8>, i: int)
    requires
        valid_utf8(b),
        0 <= i <= b.len(),
        i < b.len() ==> !is_continuation_byte(b[i]),
    ensures
        is_char_boundary(b, i),
{
    if i == b.len() {
        is_char_boundary_start_end_of_seq(b);
    } else {
        is_char_boundary_iff_not_is_continuation_byte(b, i);
    }
}

/// In valid UTF-8, the position right after a character that starts at a boundary
/// is a boundary too; `w` is that character's width as its leading byte gives it.
pub proof fn lemma_boundary_after_char(b: Seq<u8>, i: int, w: int)
    requires
        valid_utf8(b),
        0 <= i < b.len(),
        is_char_boundary(b, i),
        is_leading_byte_width_1(b[i]) ==> w == 1,
        is_leading_byte_width_2(b[i]) ==> w == 2,
        is_leading_byte_width_3(b[i]) ==> w == 3,
        is_leading_byte_width_4(b[i]) ==> w == 4,
    ensures
        i + w <= b.len(),
        is_char_boundary(b, i + w),
{
    valid_utf8_split(b, i);
    let t = b.subrange(i, b.len() as int);
    assert(t[0] == b[i]);
    assert(valid_first_scalar(t));
    assert(length_of_first_scalar(t) == w);
    let rest = pop_first_scalar(t);
    assert(valid_utf8(rest));
    if i + w < b.len() {
        assert(rest[0] == b[i + w]);
        assert(valid_first_scalar(rest));
        lemma_boundary_at(b, i + w);
    } else {
        lemma_boundary_at(b, i + w);
    }
}

/// In valid UTF-8, a whitespace character found at `i` starts at a boundary
/// and ends at one.
pub proof fn lemma_whitespace_boundaries(b: Seq<u8>, i: int, hi: int)
    requires
        valid_utf8(b),
        ws_width(b, i, hi) > 0,
    ensures
        is_char_boundary(b, i),
        is_char_boundary(b, i + ws_width(b, i, hi)),
{
    lemma_boundary_at(b, i);
    lemma_boundary_after_char(b, i, ws_width(b, i, hi));
}

/// Returns the bytes `[start, end)` of `text` as a string slice.
pub fn slice_text<'a>(text: &'a str, start: usize, end: usize) -> (r: &'a str)
    requires
        start <= end <= text.spec_bytes().len(),
        is_char_boundary(text.spec_bytes(), start as int),
        is_char_boundary(text.spec_bytes(), end as int),
    ensures
        r.spec_bytes() == text.spec_bytes().subrange(start as int, end as int),
{
    let ghost b = text.spec_bytes();
    let (_, rest) = text.split_at(start);
    proof {
        let r = b.subrange(start as int, b.len() as int);
        assert(rest.spec_bytes() == r);
        valid_utf8_split(b, start as int);
        if end < b.len() {
            is_char_boundary_iff_not_is_continuation_byte(b, end as int);
            assert(r[(end - start) as int] == b[end as int]);
        }
        lemma_boundary_at(r, (end - start) as int);
    }
    let (mid, _) = rest.split_at(end - start);
    assert(mid.spec_bytes() =~= b.subrange(start as int, end as int));
    mid
}

/// The tokens of `[p, hi)` are separated ranges within `[s, hi)`, when `s` and `hi`
/// are character boundaries.
pub proof fn lemma_scan_tokens(b: Seq<u8>, p: int, hi: int, s: int)
    requires
        valid_utf8(b),
        b.len() <= usize::MAX,
        0 <= s <= p <= hi <= b.len(),
        is_char_boundary(b, s),
        is_char_boundary(b, hi),
    ensures
        separated_within(b, scan_tokens(b, p, hi, s), s, hi),
        scan_tokens(b, p, hi, s).len() > 0 ==> scan_tokens(b, p, hi, s)[0].start == s || s == p,
    decreases hi - p,
{
    let t = scan_tokens(b, p, hi, s);
    if p >= hi {
    } else if ws_width(b, p, hi) > 0 {
        let w = ws_width(b, p, hi);
        lemma_whitespace_boundaries(b, p, hi);
        lemma_scan_tokens(b, p + w, hi, p + w);
        let rest = scan_tokens(b, p + w, hi, p + w);
        if s < p {
            assert(t == seq![span(s, p)] + rest);
            assert forall|k: int| 0 <= k < t.len() implies s <= (#[trigger] t[k]).start < t[k].end
                <= hi && is_char_boundary(b, t[k].start as int) && is_char_boundary(
                b,
                t[k].end as int,
            ) by {
                if k > 0 {
                    assert(t[k] == rest[k - 1]);
                }
            }
            assert forall|k: int| 0 <= k < t.len() - 1 implies (#[trigger] t[k]).end < t[k
                + 1].start by {
                if k > 0 {
                    assert(t[k] == rest[k - 1]);
                }
                assert(t[k + 1] == rest[k]);
            }
        } else {
            assert(t =~= rest);
        }
    } else {
        lemma_scan_tokens(b, p + 1, hi, s);
    }
}

/// Returns the whitespace-delimited tokens of the bytes in `[lo, hi)` of `b`.
pub fn find_tokens(b: &[u8], lo: usize, hi: usize) -> (t: Vec<core::ops::Range<usize>>)
    requires
        lo <= hi <= b@.len(),
    ensures
        t@ == tokens(b@, lo as int, hi as int),
{
    let mut out: Vec<core::ops::Range<usize>> = Vec::new();
    let mut s: usize = lo;
    let mut p: usize = lo;
    while p < hi
        invariant
            lo <= s <= p <= hi <= b@.len(),
            out@ + scan_tokens(b@, p as int, hi as int, s as int) == tokens(b@, lo as int, hi as int),
        decreases hi - p,
    {
        let w = whitespace_width(b, p, hi);
        if w > 0 {
            let ghost before = out@;
            if s < p {
                out.push(s..p);
            }
            assert(out@ + scan_tokens(b@, p + w, hi as int, p + w) =~= before + scan_tokens(
                b@,
                p as int,
                hi as int,
                s as int,
            ));
            p = p + w;
            s = p;
        } else {
            p = p + 1;
        }
    }
    if s < hi {
        let ghost before = out@;
        out.push(s..hi);
        assert(out@ =~= before + scan_tokens(b@, p as int, hi as int, s as int));
    } else {
        assert(out@ =~= out@ + scan_tokens(b@, p as int, hi as int, s as int));
    }
    out
}

/// Returns whether the bytes in `[lo, hi)` of `b` are all whitespace characters.
pub fn is_blank(b: &[u8], lo: usize, hi: usize) -> (r: bool)
    requires
        lo <= hi <= b@.len(),
    ensures
        r == (tokens(b@, lo as int, hi as int).len() == 0),
{
    let mut p: usize = lo;
    while p < hi
        invariant
            lo <= p <= hi <= b@.len(),
            tokens(b@, lo as int, hi as int) == scan_tokens(b@, p as int, hi as int, p as int),
        decreases hi - p,
    {
        let w = whitespace_width(b, p, hi);
        if w == 0 {
            proof {
                lemma_open_run_yields_token(b@, p + 1, hi as int, p as int);
            }
            return false;
        }
        assert(scan_tokens(b@, p as int, hi as int, p as int) =~= scan_tokens(b@, p + w, hi as int, p + w));
        p = p + w;
    }
    true
}

/// Returns whether `a` and `b` hold the same text.
pub fn text_eq(a: &str, b: &str) -> (r: bool)
    ensures
        r == (a@ == b@),
{
    let x = a.as_bytes();
    let y = b.as_bytes();
    proof {
        encode_utf8_decode_utf8(a@);
        encode_utf8_decode_utf8(b@);
    }
    if x.len() != y.len() {
        return false;
    }
    let mut i: usize = 0;
    while i < x.len()
        invariant
            x@ == a.spec_bytes(),
            y@ == b.spec_bytes(),
            x@.len() == y@.len(),
            i <= x@.len(),
            forall|j: int| 0 <= j < i ==> x@[j] == y@[j],
        decreases x@.len() - i,
    {
        if x[i] != y[i] {
            return false;
        }
        i += 1;
    }
    assert(x@ =~= y@);
    true
}

/// Whether the bytes `b` start with the bytes `p`.
pub open spec fn starts_with_bytes(b: Seq<u8>, p: Seq<u8>) -> bool {
    p.len() <= b.len() && b.subrange(0, p.len() as int) == p
}

/// Returns whether the bytes of `s` start with those of `prefix`.
pub fn text_starts_with(s: &str, prefix: &str) -> (r: bool)
    ensures
        r == starts_with_bytes(s.spec_bytes(), prefix.spec_bytes()),
{
    let x = s.as_bytes();
    let y = prefix.as_bytes();
    if y.len() > x.len() {
        return false;
    }
    let mut i: usize = 0;
    while i < y.len()
        invariant
            x@ == s.spec_bytes(),
            y@ == prefix.spec_bytes(),
            y@.len() <= x@.len(),
            i <= y@.len(),
            forall|j: int| 0 <= j < i ==> x@[j] == y@[j],
        decreases y@.len() - i,
    {
        if x[i] != y[i] {
            assert(x@.subrange(0, y@.len() as int)[i as int] != y@[i as int]);
            return false;
        }
        i += 1;
    }
    assert(x@.subrange(0, y@.len() as int) =~= y@);
    true
}

/// Index of the first byte `x` in `b` at or after `i`.
pub open spec fn find_byte_from(b: Seq<u8>, x: u8, i: int) -> Option<int>
    decreases b.len() - i,
{
    if 0 <= i < b.len() {
        if b[i] == x {
            Some(i)
        } else {
            find_byte_from(b, x, i + 1)
        }
    } else {
        None
    }
}

/// Returns the index of the first byte `x` in `b`.
pub fn find_byte(b: &[u8], x: u8) -> (r: Option<usize>)
    ensures
        match r {
            Some(i) => find_byte_from(b@, x, 0) == Some(i as int) && i < b@.len() && b@[i as int] == x,
            None => find_byte_from(b@, x, 0) is None,
        },
{
    let mut i: usize = 0;
    while i < b.len()
        invariant
            i <= b@.len(),
            find_byte_from(b@, x, 0) == find_byte_from(b@, x, i as int),
        decreases b@.len() - i,
    {
        if b[i] == x {
            return Some(i);
        }
        i += 1;
    }
    None
}

/// The range of `[lo, hi)` that remains once leading and trailing whitespace
/// is removed: from the first token's start to the last token's end, or the
/// empty range at `hi` when there is no token.
pub open spec fn trimmed(b: Seq<u8>, lo: int, hi: int) -> core::ops::Range<usize> {
    let t = tokens(b, lo, hi);
    if t.len() == 0 {
        span(hi, hi)
    } else {
        span(t[0].start as int, t[t.len() - 1].end as int)
    }
}

/// Returns `[lo, hi)` of `text` without its leading and trailing whitespace.
pub fn trim_range<'a>(text: &'a str, lo: usize, hi: usize) -> (r: &'a str)
    requires
        lo <= hi <= text.spec_bytes().len(),
        is_char_boundary(text.spec_bytes(), lo as int),
        is_char_boundary(text.spec_bytes(), hi as int),
    ensures
        r.spec_bytes() == text.spec_bytes().subrange(
            trimmed(text.spec_bytes(), lo as int, hi as int).start as int,
            trimmed(text.spec_bytes(), lo as int, hi as int).end as int,
        ),
{
    let b = text.as_bytes();
    let n = b.len();
    let t = find_tokens(b, lo, hi);
    proof {
        lemma_scan_tokens(b@, lo as int, hi as int, lo as int);
    }
    if t.len() == 0 {
        slice_text(text, hi, hi)
    } else {
        assert(t@[0].end <= t@[t@.len() - 1].end) by {
            if t@.len() > 1 {
                lemma_tokens_ordered(b@, t@, lo as int, hi as int, t@.len() - 1);
            }
        }
        slice_text(text, t[0].start, t[t.len() - 1].end)
    }
}

proof fn lemma_tokens_ordered(b: Seq<u8>, t: Seq<core::ops::Range<usize>>, lo: int, hi: int, k: int)
    requires
        separated_within(b, t, lo, hi),
        0 <= k < t.len(),
    ensures
        t[0].end <= t[k].end,
    decreases k,
{
    if k > 0 {
        lemma_tokens_ordered(b, t, lo, hi, k - 1);
    }
}

} // verus!
