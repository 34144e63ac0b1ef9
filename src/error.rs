//! The library's recoverable errors.
use vstd::prelude::*;

verus! {

/// A recoverable parsing or conversion failure.
#[derive(Debug, PartialEq)]
pub enum Error {
    /// Strict parsing of a message that is empty or holds only whitespace.
    EmptyHttpMessage,
    /// A required part (`method`, `uri` or `http_version`) is absent.
    MissingRequired { key: String },
    /// Strict parsing of a message that has no blank line before its body.
    MissingBlankLine,
    /// The request target is not a URL that can be parsed.
    InvalidUri { uri: String },
    /// A header line holds no `:` between its key and its value.
    MalformedHeader { line: String },
}

impl Error {
    /// The error for a required part named `key` that is absent.
    pub fn missing_required(key: &str) -> (e: Self)
        ensures
            e matches Error::MissingRequired { key: k } && k@ == key@,
    {
        Error::MissingRequired { key: key.to_owned() }
    }
}

} // verus!
