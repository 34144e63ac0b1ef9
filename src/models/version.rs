//! The HTTP version of a request.
use vstd::prelude::*;
use vstd::utf8::*;
use vstd::string::*;
use crate::text::{starts_with_bytes, text_starts_with};

verus! {

/// An HTTP version as written, such as `HTTP/1.1` or `1.1`.
#[derive(Debug, Clone, PartialEq)]
pub struct HttpVersion(String);

impl HttpVersion {
    /// The version text as written.
    pub closed spec fn spec_text(&self) -> Seq<char> {
        self.0@
    }

    /// The version text starts with `HTTP/`.
    pub open spec fn spec_is_prefixed(&self) -> bool {
        starts_with_bytes(encode_utf8(self.spec_text()), encode_utf8("HTTP/"@))
    }

    /// Returns whether the version text starts with `HTTP/`.
    pub fn is_prefixed(&self) -> (r: bool)
        ensures
            r == self.spec_is_prefixed(),
    {
        text_starts_with(self.0.as_str(), "HTTP/")
    }

    /// The normalized version text: as written when it starts with `HTTP/`,
    /// else with `HTTP/` put before it.
    pub fn to_string(&self) -> (r: String)
        ensures
            r@ == if self.spec_is_prefixed() {
                self.spec_text()
            } else {
                "HTTP/"@ + self.spec_text()
            },
    {
        if self.is_prefixed() {
            self.0.clone()
        } else {
            let mut s = "HTTP/".to_owned();
            s.append(self.0.as_str());
            s
        }
    }
}

impl Default for HttpVersion {
    fn default() -> (r: Self)
        ensures
            r.spec_text() == "HTTP/1.1"@,
    {
        HttpVersion("HTTP/1.1".to_owned())
    }
}

impl<'a> From<&'a str> for HttpVersion {
    fn from(value: &'a str) -> (r: Self)
        ensures
            r.spec_text() == value@,
    {
        HttpVersion(value.to_owned())
    }
}

impl<'a> vstd::std_specs::convert::FromSpecImpl<&'a str> for HttpVersion {
    open spec fn obeys_from_spec() -> bool {
        false
    }

    open spec fn from_spec(v: &'a str) -> Self {
        arbitrary()
    }
}

} // verus!
