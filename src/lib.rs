//! Parsing of HTTP request message text into views that locate the request
//! line, headers and body as byte ranges of the text, and validated conversion
//! of those views into owned requests.
use vstd::prelude::*;
use vstd::string::*;

pub mod error;
pub mod models;
pub mod parse;
pub mod span;
pub mod text;

pub use models::{ParsedHttpRequest, PartialHttpRequest};

use crate::error::Error;
use crate::parse::{first_blank_line, is_blank_text, request_line_tokens};

verus! {

/// Parse a partial HTTP request message string in to [PartialHttpRequest].
pub fn parse_partial_request(input: &str) -> (r: Result<PartialHttpRequest<'_>, Error>)
    ensures
        r matches Ok(p) && p.is_lenient_parse_of(input.spec_bytes()) && p.text() == input@
            && p.well_formed(),
{
    PartialHttpRequest::from_str(input)
}

/// Parse a spec compliant HTTP request message string in to [ParsedHttpRequest].
pub fn parse_request(input: &str) -> (r: Result<ParsedHttpRequest<'_>, Error>)
    ensures
        ({
            let b = input.spec_bytes();
            let n = request_line_tokens(b).len();
            match r {
                Ok(p) => !is_blank_text(b) && n >= 3 && first_blank_line(b) is Some
                    && p.is_strict_parse_of(b) && p.text() == input@ && p.well_formed(),
                Err(e) => if is_blank_text(b) {
                    e == Error::EmptyHttpMessage
                } else if n == 0 {
                    e matches Error::MissingRequired { key } && key@ == "method"@
                } else if n == 1 {
                    e matches Error::MissingRequired { key } && key@ == "uri"@
                } else if n == 2 {
                    e matches Error::MissingRequired { key } && key@ == "http_version"@
                } else {
                    first_blank_line(b) is None && e == Error::MissingBlankLine
                },
            }
        }),
{
    ParsedHttpRequest::from_str(input)
}

} // verus!
