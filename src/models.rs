//! Request views over message text and the owned request and response values.
pub mod body;
pub mod headers;
pub mod parsed_request;
pub mod partial_request;
pub mod request;
pub mod response;
pub mod uri;
pub mod version;

pub use body::{HttpBody, PossibleHttpBody};
pub use headers::{HttpHeader, HttpHeaders};
pub use parsed_request::ParsedHttpRequest;
pub use partial_request::PartialHttpRequest;
pub use request::{HttpMethod, HttpRequest};
pub use response::{HttpResponse, HttpStatusCode};
pub use uri::Uri;
pub use version::HttpVersion;
