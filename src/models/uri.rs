//! The request target as a parsed absolute URL.
use vstd::prelude::*;
use vstd::utf8::*;
use vstd::string::*;
use crate::error::Error;
use crate::text::{starts_with_bytes, text_starts_with};

verus! {

/// The serialization of the absolute URL that `url::Url::parse` reads from
/// `input`, or `None` where it fails.
pub uninterp spec fn url_serialization(input: Seq<char>) -> Option<Seq<char>>;

/// Relies on `url::Url::parse`, which parses an absolute URL or fails, and on
/// `From<url::Url> for String`, which returns the parsed URL's serialization.
#[verifier::external_body]
fn parse_url(input: &str) -> (r: Option<String>)
    ensures
        match r {
            Some(t) => url_serialization(input@) == Some(t@),
            None => url_serialization(input@) is None,
        },
{
    match url::Url::parse(input) {
        Ok(u) => Some(String::from(u)),
        Err(_) => None,
    }
}

/// The target text with `https://` put before it unless it already starts with
/// `https://` or `http://`.
pub open spec fn with_scheme(s: Seq<char>) -> Seq<char> {
    if starts_with_bytes(encode_utf8(s), encode_utf8("https://"@)) || starts_with_bytes(
        encode_utf8(s),
        encode_utf8("http://"@),
    ) {
        s
    } else {
        "https://"@ + s
    }
}

/// A request target, held as the serialization of the URL parsed from it.
#[derive(Debug, Clone, PartialEq)]
pub struct Uri(String);

impl Uri {
    /// The URL's serialization.
    pub closed spec fn spec_text(&self) -> Seq<char> {
        self.0@
    }

    /// Parses the target `uri` as an absolute URL, taking `https://` as its
    /// scheme when it names neither `https://` nor `http://`.
    pub fn new(uri: &str) -> (r: Result<Self, Error>)
        ensures
            match r {
                Ok(u) => url_serialization(with_scheme(uri@)) == Some(u.spec_text()),
                Err(e) => url_serialization(with_scheme(uri@)) is None && (e matches Error::InvalidUri {
                    uri: t,
                } && t@ == uri@),
            },
    {
        let parsed = if text_starts_with(uri, "https://") || text_starts_with(uri, "http://") {
            parse_url(uri)
        } else {
            let mut full = "https://".to_owned();
            full.append(uri);
            parse_url(full.as_str())
        };
        match parsed {
            Some(t) => Ok(Uri(t)),
            None => Err(Error::InvalidUri { uri: uri.to_owned() }),
        }
    }

    /// The URL's serialization.
    pub fn as_str(&self) -> (r: &str)
        ensures
            r@ == self.spec_text(),
    {
        self.0.as_str()
    }

    /// The URL's serialization, owned.
    pub fn to_string(&self) -> (r: String)
        ensures
            r@ == self.spec_text(),
    {
        self.0.clone()
    }
}

} // verus!
