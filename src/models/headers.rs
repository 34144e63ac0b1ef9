//! Header key/value pairs and the split of a header line into one.
use vstd::prelude::*;
use vstd::utf8::*;
use vstd::string::*;
use crate::parse::COLON;
use crate::text::{
    text_eq,
    find_byte, find_byte_from, slice_text, trim_range, trimmed, lemma_boundary_at,
    lemma_boundary_after_char,
};

verus! {

broadcast use vstd::utf8::group_utf8_lib;

/// The key bytes of the header line `l`: what precedes its first `:`, or the
/// whole line when it has none.
pub open spec fn header_key_bytes(l: Seq<u8>) -> Seq<u8> {
    match find_byte_from(l, COLON, 0) {
        Some(c) => l.subrange(0, c),
        None => l,
    }
}

/// The value bytes of the header line `l`: what follows its first `:`, with
/// leading and trailing whitespace removed; empty when it has no `:`.
pub open spec fn header_value_bytes(l: Seq<u8>) -> Seq<u8> {
    match find_byte_from(l, COLON, 0) {
        Some(c) => {
            let t = trimmed(l, c + 1, l.len() as int);
            l.subrange(t.start as int, t.end as int)
        },
        None => seq![],
    }
}

/// An HTTP header key & value.
///
/// ```skip
/// GET example.com HTTP/1.1
/// key: value
/// ```
#[derive(Debug, Clone, PartialEq)]
pub struct HttpHeader(String, String);

impl HttpHeader {
    /// The key.
    pub closed spec fn spec_key(&self) -> Seq<char> {
        self.0@
    }

    /// The value.
    pub closed spec fn spec_value(&self) -> Seq<char> {
        self.1@
    }

    /// The header is the split of the header line whose bytes are `l`.
    pub open spec fn is_split_of(&self, l: Seq<u8>) -> bool {
        &&& encode_utf8(self.spec_key()) == header_key_bytes(l)
        &&& encode_utf8(self.spec_value()) == header_value_bytes(l)
    }

    /// A header with `key` and `value`.
    pub fn new(key: &str, value: &str) -> (r: Self)
        ensures
            r.spec_key() == key@,
            r.spec_value() == value@,
    {
        HttpHeader(key.to_owned(), value.to_owned())
    }

    /// The key.
    pub fn key(&self) -> (r: &str)
        ensures
            r@ == self.spec_key(),
    {
        self.0.as_str()
    }

    /// The value.
    pub fn value(&self) -> (r: &str)
        ensures
            r@ == self.spec_value(),
    {
        self.1.as_str()
    }

    /// The header as text: `key: value`.
    pub fn to_string(&self) -> (r: String)
        ensures
            r@ == self.spec_key() + ": "@ + self.spec_value(),
    {
        let mut s = self.0.clone();
        s.append(": ");
        s.append(self.1.as_str());
        s
    }

    /// Splits the header line `line` at its first `:` into key and value, the
    /// value trimmed of surrounding whitespace; `None` when the line has no `:`.
    pub fn from_line(line: &str) -> (r: Option<Self>)
        ensures
            r is Some <==> find_byte_from(line.spec_bytes(), COLON, 0) is Some,
            r matches Some(h) ==> h.is_split_of(line.spec_bytes()),
    {
        let b = line.as_bytes();
        let n = b.len();
        match find_byte(b, COLON) {
            Some(c) => {
                proof {
                    lemma_boundary_at(b@, 0);
                    lemma_boundary_at(b@, c as int);
                    lemma_boundary_after_char(b@, c as int, 1);
                    lemma_boundary_at(b@, n as int);
                }
                let key = slice_text(line, 0, c);
                let value = trim_range(line, c + 1, n);
                proof {
                    encode_utf8_decode_utf8(key@);
                    encode_utf8_decode_utf8(value@);
                }
                Some(HttpHeader::new(key, value))
            },
            None => None,
        }
    }
}

impl<'a> From<(&'a str, &'a str)> for HttpHeader {
    fn from(value: (&'a str, &'a str)) -> (r: Self)
        ensures
            r.spec_key() == value.0@,
            r.spec_value() == value.1@,
    {
        HttpHeader::new(value.0, value.1)
    }
}

impl<'a> vstd::std_specs::convert::FromSpecImpl<(&'a str, &'a str)> for HttpHeader {
    open spec fn obeys_from_spec() -> bool {
        false
    }

    open spec fn from_spec(v: (&'a str, &'a str)) -> Self {
        arbitrary()
    }
}

impl<'a> From<&'a str> for HttpHeader {
    /// Splits a header line as `from_line` does; a line without `:` becomes a
    /// key with an empty value.
    fn from(value: &'a str) -> (r: Self)
        ensures
            r.is_split_of(value.spec_bytes()),
    {
        match HttpHeader::from_line(value) {
            Some(h) => h,
            None => {
                proof {
                    reveal_strlit("");
                    assert(encode_utf8(""@) =~= seq![]);
                }
                HttpHeader::new(value, "")
            },
        }
    }
}

impl<'a> vstd::std_specs::convert::FromSpecImpl<&'a str> for HttpHeader {
    open spec fn obeys_from_spec() -> bool {
        false
    }

    open spec fn from_spec(v: &'a str) -> Self {
        arbitrary()
    }
}

/// Index of the first of `hs[i..]` whose key is `key`.
pub open spec fn key_index_from(hs: Seq<HttpHeader>, key: Seq<char>, i: int) -> Option<int>
    decreases hs.len() - i,
{
    if 0 <= i < hs.len() {
        if hs[i].spec_key() == key {
            Some(i)
        } else {
            key_index_from(hs, key, i + 1)
        }
    } else {
        None
    }
}

/// Index of the first of `hs` whose key is `key`.
pub open spec fn key_index(hs: Seq<HttpHeader>, key: Seq<char>) -> Option<int> {
    key_index_from(hs, key, 0)
}

proof fn lemma_key_index_in_range(hs: Seq<HttpHeader>, key: Seq<char>, i: int)
    requires
        0 <= i,
    ensures
        key_index_from(hs, key, i) matches Some(j) ==> i <= j < hs.len() && hs[j].spec_key() == key,
    decreases hs.len() - i,
{
    if 0 <= i < hs.len() && hs[i].spec_key() != key {
        lemma_key_index_in_range(hs, key, i + 1);
    }
}

/// Returns the index of the first of `headers` whose key is `key`.
pub fn header_position(headers: &Vec<HttpHeader>, key: &str) -> (r: Option<usize>)
    ensures
        match r {
            Some(i) => key_index(headers@, key@) == Some(i as int) && i < headers@.len(),
            None => key_index(headers@, key@) is None,
        },
{
    let mut i: usize = 0;
    while i < headers.len()
        invariant
            i <= headers@.len(),
            key_index(headers@, key@) == key_index_from(headers@, key@, i as int),
        decreases headers@.len() - i,
    {
        if text_eq(headers[i].key(), key) {
            return Some(i);
        }
        i += 1;
    }
    None
}

/// `after` is `before` with the value of the first header whose key is `key`
/// set to `value`, or with a header `key: value` appended when there is none.
pub open spec fn header_set(
    before: Seq<HttpHeader>,
    after: Seq<HttpHeader>,
    key: Seq<char>,
    value: Seq<char>,
) -> bool {
    match key_index(before, key) {
        Some(i) => {
            &&& after.len() == before.len()
            &&& forall|j: int| 0 <= j < before.len() && j != i ==> after[j] == before[j]
            &&& after[i].spec_key() == key
            &&& after[i].spec_value() == value
        },
        None => {
            &&& after.len() == before.len() + 1
            &&& forall|j: int| 0 <= j < before.len() ==> after[j] == before[j]
            &&& after[before.len() as int].spec_key() == key
            &&& after[before.len() as int].spec_value() == value
        },
    }
}

/// Sets the value of the first header whose key is `key`, or appends a header
/// `key: value` when there is none.
pub fn put_header(headers: &mut Vec<HttpHeader>, key: &str, value: &str)
    ensures
        header_set(old(headers)@, final(headers)@, key@, value@),
{
    match header_position(headers, key) {
        Some(i) => {
            headers.set(i, HttpHeader::new(key, value));
        },
        None => {
            headers.push(HttpHeader::new(key, value));
        },
    }
}

/// Access to the headers of a message by key.
pub trait HttpHeaders {
    type Header;

    fn headers(&self) -> Vec<Self::Header>;

    fn get_header(&self, key: &str) -> Option<Self::Header>;

    fn set_header(&mut self, key: &str, value: &str);
}

} // verus!
