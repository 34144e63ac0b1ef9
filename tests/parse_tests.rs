use http_message::error::Error;
use http_message::models::{HttpHeader, HttpMethod, HttpRequest, ParsedHttpRequest, PartialHttpRequest, Uri};
use http_message::parse::parse_first_line;
use http_message::{parse_partial_request, parse_request};

fn example_uri() -> Uri {
    Uri::new("https://example.com").unwrap()
}

#[test]
fn parse_empty_request() {
    let content = "";

    let partial = PartialHttpRequest::from_str(&content).expect("should be parsable");

    assert_eq!(PartialHttpRequest::parsed(&content, None, None, None, vec![], None), partial);
}

#[test]
fn parse_whitespace_request() {
    let content = "  \n\t \n\n";

    let partial = PartialHttpRequest::from_str(&content).expect("should be parsable");

    assert_eq!(PartialHttpRequest::parsed(&content, None, None, None, vec![], None), partial);
}

#[test]
fn parse_get_request() {
    let content = "GET https://example.com HTTP/1.1\n";

    let partial = PartialHttpRequest::from_str(&content).expect("should be parsable");

    assert_eq!(
        PartialHttpRequest::parsed(content, Some(0..3), Some(4..23), Some(24..32), vec![], None),
        partial
    );

    let request: Result<HttpRequest, Error> = partial.try_into();

    assert_eq!(
        Ok(HttpRequest {
            uri: example_uri(),
            method: "GET".into(),
            http_version: "HTTP/1.1".into(),
            headers: vec![],
            body: None
        }),
        request
    );
}

#[test]
fn parse_get_without_http_version_request() {
    let content = "GET https://example.com\n";

    let partial = PartialHttpRequest::from_str(&content);

    assert_eq!(
        Ok(PartialHttpRequest::parsed(content, Some(0..3), Some(4..23), None, vec![], None)),
        partial
    );

    let request: Result<HttpRequest, Error> = partial.unwrap().try_into();

    assert_eq!(Err(Error::missing_required("http_version")), request);
}

#[test]
fn parse_get_with_headers_request() {
    let content = "GET https://example.com HTTP/1.1\nx-api-key: abc123\n";

    let partial = PartialHttpRequest::from_str(&content).expect("should be parsable");

    assert_eq!(
        PartialHttpRequest::parsed(
            content,
            Some(0..3),
            Some(4..23),
            Some(24..32),
            vec![33..51],
            None
        ),
        partial
    );

    let request: Result<HttpRequest, Error> = partial.try_into();

    assert_eq!(
        Ok(HttpRequest {
            uri: example_uri(),
            method: "GET".into(),
            http_version: "HTTP/1.1".into(),
            headers: vec!["x-api-key: abc123".into()],
            body: None
        }),
        request
    );
}

#[test]
fn parse_post_with_headers_and_body_request() {
    let content = "POST https://example.com HTTP/1.1\nx-api-key: abc123\n\n{\"id\": 100}";

    let partial = PartialHttpRequest::from_str(&content).expect("should be parsable");

    let method = Some(0..4);
    let uri = Some(5..24);
    let http_version = Some(25..33);
    let headers = vec![34..52];
    let body = Some(53..64);

    assert_eq!(
        PartialHttpRequest::parsed(&content, method, uri, http_version, headers, body),
        partial
    );

    let request: Result<HttpRequest, Error> = partial.try_into();

    assert_eq!(
        Ok(HttpRequest {
            uri: example_uri(),
            method: "POST".into(),
            http_version: "HTTP/1.1".into(),
            headers: vec!["x-api-key: abc123".into()],
            body: Some(String::from(r#"{"id": 100}"#))
        }),
        request
    );
}

#[test]
fn parse_post_with_body_request() {
    let content = "POST https://example.com HTTP/1.1\n\n{\"id\": 100}";

    let partial = PartialHttpRequest::from_str(&content).expect("should be parsable");

    assert_eq!(
        PartialHttpRequest::parsed(
            content,
            Some(0..4),
            Some(5..24),
            Some(25..33),
            vec![],
            Some(35..46)
        ),
        partial
    );

    let request: Result<HttpRequest, Error> = partial.try_into();

    assert_eq!(
        Ok(HttpRequest {
            uri: example_uri(),
            method: "POST".into(),
            http_version: "HTTP/1.1".into(),
            headers: vec![],
            body: Some(String::from(r#"{"id": 100}"#))
        }),
        request
    );
}

#[test]
fn parse_get_with_multiple_spaces_request() {
    let content = "GET  https://example.com  HTTP/1.1\n";

    let partial = PartialHttpRequest::from_str(&content).expect("should be parsable");

    assert_eq!(
        PartialHttpRequest::parsed(&content, Some(0..3), Some(5..24), Some(26..34), vec![], None),
        partial
    );

    let request: Result<HttpRequest, Error> = partial.try_into();

    assert_eq!(
        Ok(HttpRequest {
            uri: example_uri(),
            method: "GET".into(),
            http_version: "HTTP/1.1".into(),
            headers: vec![],
            body: None
        }),
        request
    );
}

#[test]
fn from_partial_request_get() {
    let partial_request = PartialHttpRequest::parsed(
        r#"
        GET https://example.com HTTP/1.1
        x-api-key: abc123
        "#,
        Some(9..12),
        Some(13..32),
        Some(33..41),
        vec![50..67],
        None,
    );

    let request: Result<HttpRequest, Error> = partial_request.try_into();

    assert_eq!(
        Ok(HttpRequest {
            uri: example_uri(),
            method: "GET".into(),
            http_version: "HTTP/1.1".into(),
            headers: vec!["x-api-key: abc123".into()],
            body: None,
        }),
        request
    );
}

#[test]
fn lenient_parse_without_version() {
    let partial = parse_partial_request("GET https://example.com\nx-key: 123").unwrap();

    assert_eq!(&Some(0..3), partial.method_span());
    assert_eq!(Some("GET"), partial.method_str());
    assert_eq!(&Some(4..23), partial.uri_span());
    assert_eq!(Some("https://example.com"), partial.uri_str());
    assert_eq!(&None, partial.http_version_span());
    assert_eq!(None, partial.http_version_str());
    assert_eq!(Some(&(24..34)), partial.header_span("x-key"));
    assert_eq!(Some("x-key: 123"), partial.header_str("x-key"));
    assert_eq!(None, partial.body_str());

    let request: Result<HttpRequest, Error> = partial.try_into();
    assert_eq!(Err(Error::missing_required("http_version")), request);
}

#[test]
fn strict_parse_with_blank_line() {
    let parsed = parse_request("GET https://example.com HTTP/1.1\nx-key: 123\n\n").unwrap();

    assert_eq!(&(0..3), parsed.method_span());
    assert_eq!("GET", parsed.method_str());
    assert_eq!(&(4..23), parsed.uri_span());
    assert_eq!("https://example.com", parsed.uri_str());
    assert_eq!(&(24..32), parsed.http_version_span());
    assert_eq!("HTTP/1.1", parsed.http_version_str());
    assert_eq!(Some(&(33..44)), parsed.header_span("x-key"));
    assert_eq!(Some("x-key: 123\n"), parsed.header_str("x-key"));
    assert_eq!(1, parsed.header_spans().len());
    assert_eq!(None, parsed.body_str());

    let request: HttpRequest = parsed.try_into().unwrap();
    assert_eq!(
        HttpRequest {
            uri: example_uri(),
            method: "GET".into(),
            http_version: "HTTP/1.1".into(),
            headers: vec![("x-key", "123").into()],
            body: None
        },
        request
    );
}

#[test]
fn body_is_taken_verbatim() {
    let parsed =
        ParsedHttpRequest::from_str("POST https://example.com HTTP/1.1\nx-key: 123\n\n{\"id\": 100}")
            .unwrap();
    assert_eq!("POST", parsed.method_str());
    assert_eq!(1, parsed.header_strs().len());
    assert_eq!(Some("{\"id\": 100}"), parsed.body_str());

    let request: HttpRequest = parsed.try_into().unwrap();
    assert_eq!(request.method, HttpMethod::POST);
    assert_eq!(request.body, Some("{\"id\": 100}".to_string()));
}

#[test]
fn extra_whitespace_between_tokens() {
    let text = "GET  https://example.com   HTTP/1.1";
    let partial = PartialHttpRequest::from_str(text).unwrap();
    assert_eq!(&Some(0..3), partial.method_span());
    assert_eq!(&Some(5..24), partial.uri_span());
    assert_eq!(&Some(27..35), partial.http_version_span());
    assert_eq!(Some("HTTP/1.1"), partial.http_version_str());
}

#[test]
fn tabs_and_unicode_whitespace_delimit_tokens() {
    let text = "GET\thttps://example.com\u{3000}HTTP/1.1 extra\n";
    let partial = PartialHttpRequest::from_str(text).unwrap();
    assert_eq!(Some("GET"), partial.method_str());
    assert_eq!(Some("https://example.com"), partial.uri_str());
    assert_eq!(&Some(26..34), partial.http_version_span());
    assert_eq!(Some("HTTP/1.1"), partial.http_version_str());
}

#[test]
fn carriage_returns_stay_in_the_text() {
    let text = "GET https://example.com HTTP/1.1\r\nx-key: 1\r\n\r\nbody";
    let partial = PartialHttpRequest::from_str(text).unwrap();
    assert_eq!(Some("HTTP/1.1"), partial.http_version_str());
    assert_eq!(Some("x-key: 1\r\n"), partial.header_str("x-key"));
    assert_eq!(partial.header_spans().len(), 3);
    assert_eq!(None, partial.body_str());
}

#[test]
fn tokenizer_rerun_on_a_token_gives_the_token() {
    let text = "GET  https://example.com HTTP/1.1 more\n";
    let bytes = text.as_bytes();
    let first = parse_first_line(bytes, &(0..text.len()));
    assert_eq!(first, (Some(0..3), Some(5..24), Some(25..33)));
    assert_eq!(first, parse_first_line(bytes, &(0..text.len())));
    let uri = first.1.unwrap();
    assert_eq!(parse_first_line(bytes, &uri), (Some(5..24), None, None));
}

#[test]
fn lenient_parse_renders_back_to_the_text() {
    for text in ["", "\n", "GET x\n\n\nbody\n", "  weird \u{a0}\r\n", "POST /a HTTP/1.1\nk: v\n\nb"] {
        let partial = PartialHttpRequest::from_str(text).unwrap();
        assert_eq!(partial.to_string(), text);
        assert_eq!(partial.message(), text);
    }
}

#[test]
fn headers_keep_order_and_duplicates() {
    let text = "GET https://example.com HTTP/1.1\nb: 2\na: 1\nb: 3\n\n";
    let request: HttpRequest = ParsedHttpRequest::from_str(text).unwrap().try_into().unwrap();
    let expected: Vec<HttpHeader> = vec!["b: 2".into(), "a: 1".into(), "b: 3".into()];
    assert_eq!(request.headers, expected);
}

#[test]
fn blank_line_only_message() {
    let partial = PartialHttpRequest::from_str("\n").unwrap();
    assert_eq!(PartialHttpRequest::parsed("\n", None, None, None, vec![], None), partial);
    assert_eq!(ParsedHttpRequest::from_str("\n"), Err(Error::EmptyHttpMessage));
}

#[test]
fn whitespace_only_message_is_empty_for_strict_parsing() {
    assert_eq!(parse_request(""), Err(Error::EmptyHttpMessage));
    assert_eq!(parse_request(" \t\n \u{2003}\n"), Err(Error::EmptyHttpMessage));
    let partial = parse_partial_request(" \t\n \u{2003}\n").unwrap();
    assert_eq!(partial.method_str(), None);
    assert_eq!(partial.body_str(), None);
    assert!(partial.header_spans().is_empty());
}

#[test]
fn strict_parse_reports_missing_request_line_parts() {
    assert_eq!(parse_request("\nx: y\n\n"), Err(Error::missing_required("method")));
    assert_eq!(parse_request("GET\n\n"), Err(Error::missing_required("uri")));
    assert_eq!(
        parse_request("GET https://example.com\n\n"),
        Err(Error::missing_required("http_version"))
    );
}

#[test]
fn strict_parse_requires_a_blank_line() {
    assert_eq!(
        parse_request("GET https://example.com HTTP/1.1\nx: y\n"),
        Err(Error::MissingBlankLine)
    );
}

#[test]
fn lenient_conversion_checks_method_then_uri() {
    let request: Result<HttpRequest, Error> = PartialHttpRequest::from_str("").unwrap().try_into();
    assert_eq!(request, Err(Error::missing_required("method")));
    let request: Result<HttpRequest, Error> =
        PartialHttpRequest::from_str("GET\n").unwrap().try_into();
    assert_eq!(request, Err(Error::missing_required("uri")));
}

#[test]
fn conversion_rejects_invalid_uri() {
    let request: Result<HttpRequest, Error> =
        ParsedHttpRequest::from_str("GET http:// HTTP/1.1\n\n").unwrap().try_into();
    assert_eq!(request, Err(Error::InvalidUri { uri: "http://".to_string() }));
}

#[test]
fn conversion_rejects_header_line_without_colon() {
    let request: Result<HttpRequest, Error> =
        ParsedHttpRequest::from_str("GET https://example.com HTTP/1.1\nok: 1\nbroken\n\n")
            .unwrap()
            .try_into();
    assert_eq!(request, Err(Error::MalformedHeader { line: "broken\n".to_string() }));
}

#[test]
fn conversion_adds_scheme_and_names_other_methods() {
    let request: HttpRequest = PartialHttpRequest::from_str("BREW example.com HTTP/1.0")
        .unwrap()
        .try_into()
        .unwrap();
    assert_eq!(request.method, HttpMethod::Other("BREW".to_string()));
    assert_eq!(request.uri.as_str(), "https://example.com/");
    assert_eq!(request.http_version.to_string(), "HTTP/1.0");
}

#[test]
fn first_line_blank_makes_everything_body() {
    let partial = PartialHttpRequest::from_str("\nGET x\n").unwrap();
    assert_eq!(partial.method_span(), &None);
    assert!(partial.header_spans().is_empty());
    assert_eq!(partial.body_str(), Some("GET x\n"));
}

#[test]
fn header_lookup_matches_key_prefix_exactly() {
    let partial =
        PartialHttpRequest::from_str("GET / HTTP/1.1\nx-key-2: a\nx-key: b\nx-key: c\n").unwrap();
    assert_eq!(partial.header_str("x-key"), Some("x-key: b\n"));
    assert_eq!(partial.header_str("X-Key"), None);
    assert_eq!(partial.header_str("x"), None);
    assert_eq!(partial.header_strs(), vec!["x-key-2: a\n", "x-key: b\n", "x-key: c\n"]);
}

#[test]
fn verify_spans_rejects_bad_spans() {
    assert!(!PartialHttpRequest::verify_spans("", &Some(1..2), &None, &None, &vec![], &None));
    assert!(!PartialHttpRequest::verify_spans("", &Some(2..1), &None, &None, &vec![], &None));
    assert!(!PartialHttpRequest::verify_spans("", &None, &Some(1..2), &None, &vec![], &None));
    assert!(!PartialHttpRequest::verify_spans(
        "GET https://example.com",
        &Some(0..3),
        &Some(2..10),
        &None,
        &vec![],
        &None
    ));
    assert!(!PartialHttpRequest::verify_spans("", &None, &None, &None, &vec![1..2], &None));
    assert!(!PartialHttpRequest::verify_spans("", &None, &None, &None, &vec![], &Some(2..1)));
    assert!(!PartialHttpRequest::verify_spans("é", &Some(0..1), &None, &None, &vec![], &None));
    assert!(!ParsedHttpRequest::verify_spans("", &(0..0), &(0..0), &(0..0), &vec![], &None));
}

#[test]
fn verify_spans_accepts_pipeline_spans() {
    let text = "GET https://example.com HTTP/1.1\nx: 1\n\nbody";
    assert!(PartialHttpRequest::verify_spans(
        text,
        &Some(0..3),
        &Some(4..23),
        &Some(24..32),
        &vec![33..38],
        &Some(39..43)
    ));
    assert!(ParsedHttpRequest::verify_spans(
        text,
        &(0..3),
        &(4..23),
        &(24..32),
        &vec![33..38],
        &Some(39..43)
    ));
}
