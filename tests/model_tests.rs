use http_message::models::{
    HttpBody, HttpHeader, HttpMethod, HttpRequest, HttpResponse, HttpStatusCode, HttpVersion, Uri,
};

#[test]
fn test_http_header_new() {
    let header = HttpHeader::new("Content-Type", "application/json");
    assert_eq!(header.key(), "Content-Type");
    assert_eq!(header.value(), "application/json");
}

#[test]
fn test_http_header_display() {
    let header = HttpHeader::new("Content-Type", "application/json");
    assert_eq!(header.to_string(), "Content-Type: application/json");
}

#[test]
fn test_http_header_from_tuple() {
    let header: HttpHeader = ("Content-Type", "application/json").into();
    assert_eq!(header.key(), "Content-Type");
    assert_eq!(header.value(), "application/json");
}

#[test]
fn test_http_header_from_str() {
    let header: HttpHeader = "Content-Type: application/json".into();
    assert_eq!(header.key(), "Content-Type");
    assert_eq!(header.value(), "application/json");
}

#[test]
fn header_from_line_splits_at_first_colon_and_trims_value() {
    let header = HttpHeader::from_line("Host:  example.com:8080 \n").unwrap();
    assert_eq!(header.key(), "Host");
    assert_eq!(header.value(), "example.com:8080");
}

#[test]
fn header_from_line_without_colon_is_none() {
    assert_eq!(HttpHeader::from_line("no colon here"), None);
}

#[test]
fn header_from_str_without_colon_keeps_line_as_key() {
    let header: HttpHeader = "no-colon".into();
    assert_eq!(header.key(), "no-colon");
    assert_eq!(header.value(), "");
}

#[test]
fn header_value_of_only_whitespace_is_empty() {
    let header = HttpHeader::from_line("x-empty: \u{3000} \n").unwrap();
    assert_eq!(header.key(), "x-empty");
    assert_eq!(header.value(), "");
}

#[test]
fn test_http_status_code_new() {
    let status_code = HttpStatusCode::new(200);
    assert_eq!(status_code.code(), 200);
}

#[test]
fn test_http_status_code_display() {
    let status_code = HttpStatusCode::new(200);
    assert_eq!(status_code.to_string(), "200");
}

#[test]
fn test_http_status_code_from() {
    let status_code: HttpStatusCode = 200.into();
    assert_eq!(status_code.code(), 200);
}

#[test]
fn status_code_text_of_edge_values() {
    assert_eq!(HttpStatusCode::new(0).to_string(), "0");
    assert_eq!(HttpStatusCode::new(7).to_string(), "7");
    assert_eq!(HttpStatusCode::new(404).to_string(), "404");
    assert_eq!(HttpStatusCode::new(65535).to_string(), "65535");
}

#[test]
fn test_http_response_new() {
    let headers = vec!["Content-Type: application/json".into()];
    let body = Some("{\"message\": \"Hello, world!\"}");
    let response = HttpResponse::new(200.into(), headers.clone(), body);

    assert_eq!(response.status_code.code(), 200);
    assert_eq!(response.headers.len(), 1);
    assert_eq!(response.headers[0].key(), "Content-Type");
    assert_eq!(response.headers[0].value(), "application/json");
    assert_eq!(response.body, body.map(|b| b.to_string()));
}

#[test]
fn test_http_response_headers() {
    let response = HttpResponse::new(
        200.into(),
        vec!["Content-Type: application/json".into()].clone(),
        None,
    );

    let expected_headers_in_order: Vec<HttpHeader> = vec!["Content-Type: application/json".into()];

    assert_eq!(&expected_headers_in_order, response.headers());
}

#[test]
fn test_http_response_get_header() {
    let headers = vec!["Content-Type: application/json".into()];
    let response = HttpResponse::new(200.into(), headers.clone(), None);
    let header = response.get_header("Content-Type");
    assert_eq!(Some(&HttpHeader::new("Content-Type", "application/json")), header);
}

#[test]
fn test_http_response_set_header() {
    let mut response = HttpResponse::new(
        200.into(),
        vec!["Content-Type: application/json".into()],
        None,
    );

    response.set_header("Content-Type", "text/plain");

    let header = response.get_header("Content-Type").unwrap();

    assert_eq!(header.value(), "text/plain");
}

#[test]
fn response_get_header_mut_changes_in_place() {
    let mut response = HttpResponse::new(200.into(), vec!["Accept: */*".into()], None);
    if let Some(header) = response.get_header_mut("Accept") {
        *header = HttpHeader::new("Accept", "text/html");
    }
    assert_eq!(response.get_header("Accept").unwrap().value(), "text/html");
    assert!(response.get_header_mut("Missing").is_none());
}

#[test]
fn test_http_response_get_body() {
    let body = Some("{\"message\": \"Hello, world!\"}");
    let response = HttpResponse::new(200.into(), vec![], body);
    assert_eq!(response.get_body(), &body.map(|b| b.to_string()));
}

#[test]
fn test_http_response_set_body() {
    let mut response = HttpResponse::new(200.into(), vec![], None);
    let new_body = Some("{\"message\": \"Goodbye, world!\"}").map(|b| b.to_string());
    response.set_body(new_body.clone());
    assert_eq!(response.get_body(), &new_body);
}

#[test]
fn test_is_prefixed_with_http_prefix() {
    let version = HttpVersion::from("HTTP/1.1");
    assert!(version.is_prefixed());
}

#[test]
fn test_is_prefixed_without_http_prefix() {
    let version = HttpVersion::from("1.1");
    assert!(!version.is_prefixed());
}

#[test]
fn test_default_value() {
    let version = HttpVersion::default();
    assert_eq!(version.to_string(), "HTTP/1.1");
}

#[test]
fn test_from_str_with_http_prefix() {
    let version = HttpVersion::from("HTTP/1.1");
    assert_eq!(version.to_string(), "HTTP/1.1");
}

#[test]
fn test_from_str_without_http_prefix() {
    let version = HttpVersion::from("1.1");
    assert_eq!(version.to_string(), "HTTP/1.1");
}

#[test]
fn test_request_with_headers() {
    let mut request = HttpRequest::get(
        "https://example.com",
        vec!["Authorization: Bearer token".into()],
    )
    .unwrap();

    request.set_header("X-API-Key", "API Key");

    assert_eq!(request.get_header("Authorization").unwrap().value(), "Bearer token");

    assert_eq!(request.get_header("X-API-Key").unwrap().value(), "API Key");

    let expected_headers_in_order: Vec<HttpHeader> = vec![
        "Authorization: Bearer token".into(),
        ("X-API-Key", "API Key").into(),
    ];

    assert_eq!(&expected_headers_in_order, request.headers())
}

#[test]
fn test_request_get() {
    let request =
        HttpRequest::get("https://example.com", vec!["User-Agent: curl/7.64.1".into()]).unwrap();
    assert_eq!(request.method, HttpMethod::GET);
    assert!(request.body.is_none());

    let expected_headers_in_order: Vec<HttpHeader> = vec!["User-Agent: curl/7.64.1".into()];

    assert_eq!(expected_headers_in_order, *request.headers())
}

#[test]
fn test_request_post() {
    let headers = vec!["Content-Type: application/json".into()];
    let body = Some("{\"key\": \"value\"}".to_string());
    let request = HttpRequest::post("https://example.com", headers, body).unwrap();
    assert_eq!(request.method, HttpMethod::POST);
    assert_eq!(request.get_body(), &Some("{\"key\": \"value\"}".to_string()));

    let expected_headers_in_order: Vec<HttpHeader> = vec!["Content-Type: application/json".into()];

    assert_eq!(expected_headers_in_order, *request.headers())
}

#[test]
fn request_set_header_replaces_first_match_only() {
    let mut request = HttpRequest::get(
        "https://example.com",
        vec!["A: 1".into(), "B: 2".into(), "A: 3".into()],
    )
    .unwrap();
    request.set_header("A", "9");
    let expected: Vec<HttpHeader> = vec!["A: 9".into(), "B: 2".into(), "A: 3".into()];
    assert_eq!(&expected, request.headers());
}

#[test]
fn request_get_header_mut_changes_in_place() {
    let mut request = HttpRequest::get("https://example.com", vec!["A: 1".into()]).unwrap();
    *request.get_header_mut("A").unwrap() = HttpHeader::new("A", "2");
    assert_eq!(request.get_header("A").unwrap().value(), "2");
}

#[test]
fn method_from_known_and_other_names() {
    assert_eq!(HttpMethod::from("GET"), HttpMethod::GET);
    assert_eq!(HttpMethod::from("POST"), HttpMethod::POST);
    assert_eq!(HttpMethod::from("PUT"), HttpMethod::PUT);
    assert_eq!(HttpMethod::from("PATCH"), HttpMethod::PATCH);
    assert_eq!(HttpMethod::from("DELETE"), HttpMethod::DELETE);
    assert_eq!(HttpMethod::from("HEAD"), HttpMethod::HEAD);
    assert_eq!(HttpMethod::from("OPTIONS"), HttpMethod::OPTIONS);
    assert_eq!(HttpMethod::from("get"), HttpMethod::Other("get".to_string()));
    assert_eq!(HttpMethod::from("BREW"), HttpMethod::Other("BREW".to_string()));
}

#[test]
fn uri_gets_https_scheme_and_serialization() {
    let uri = Uri::new("example.com").unwrap();
    assert_eq!(uri.as_str(), "https://example.com/");
    let plain = Uri::new("http://example.com/a?b=c").unwrap();
    assert_eq!(plain.to_string(), "http://example.com/a?b=c");
}

#[test]
fn uri_that_does_not_parse_is_an_error() {
    assert_eq!(
        Uri::new("http://"),
        Err(http_message::error::Error::InvalidUri { uri: "http://".to_string() })
    );
}

#[test]
fn get_with_invalid_uri_is_an_error() {
    assert!(HttpRequest::get("https://exa mple.com", vec![]).is_err());
}
