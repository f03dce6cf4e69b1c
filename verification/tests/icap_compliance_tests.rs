use g3icap::protocol::common::{
    HttpVersion, IcapMethod, IcapParser, IcapRequest, IcapSerializer,
};
use g3icap::protocol::errors::{IcapErrorCode, IcapErrorResponseBuilder};
use g3icap::protocol::fields::HeaderMap;
use g3icap::protocol::headers::IcapHeaders;
use g3icap::protocol::ip::IpAddr;

fn contains_bytes(hay: &[u8], needle: &[u8]) -> bool {
    hay.windows(needle.len()).any(|w| w == needle)
}

#[test]
fn test_icap_methods() {
    let reqmod = IcapMethod::from("REQMOD");
    assert_eq!(reqmod, IcapMethod::Reqmod);
    assert_eq!(reqmod.to_string(), "REQMOD");

    let respmod = IcapMethod::from("RESPMOD");
    assert_eq!(respmod, IcapMethod::Respmod);
    assert_eq!(respmod.to_string(), "RESPMOD");

    let options = IcapMethod::from("OPTIONS");
    assert_eq!(options, IcapMethod::Options);
    assert_eq!(options.to_string(), "OPTIONS");

    let reqmod_lower = IcapMethod::from("reqmod");
    assert_eq!(reqmod_lower, IcapMethod::Reqmod);

    let invalid = IcapMethod::from("INVALID");
    assert_eq!(invalid, IcapMethod::Options);
}

#[test]
fn test_icap_request_parsing() {
    let request_data = b"REQMOD icap://example.com/echo ICAP/1.0\r\n\
                        Host: example.com\r\n\
                        Encapsulated: req-hdr=0, req-body=100\r\n\
                        \r\n\
                        GET /test HTTP/1.1\r\n\
                        Host: example.com\r\n\
                        \r\n";

    let request = IcapParser::parse_request(request_data).unwrap();

    assert_eq!(request.method, IcapMethod::Reqmod);
    assert_eq!(request.uri, "icap://example.com/echo");
    assert_eq!(request.version, HttpVersion::Http11);
    assert!(request.headers.contains_key("host"));
    assert!(request.headers.contains_key("encapsulated"));
    assert!(request.encapsulated.is_some());
}

#[test]
fn test_icap_response_parsing() {
    let response_data = b"ICAP/1.0 200 OK\r\n\
                         ISTag: \"g3icap-1.0\"\r\n\
                         Methods: REQMOD, RESPMOD, OPTIONS\r\n\
                         Service: G3 ICAP Server\r\n\
                         \r\n";

    let response = IcapParser::parse_response(response_data).unwrap();

    assert_eq!(response.status, 200);
    assert_eq!(response.version, HttpVersion::Http11);
    assert!(response.headers.contains_key("istag"));
    assert!(response.headers.contains_key("methods"));
    assert!(response.headers.contains_key("service"));
}

#[test]
fn test_icap_headers() {
    let mut headers = HeaderMap::new();
    headers.insert("icap-version", "ICAP/1.0");
    headers.insert("icap-client-ip", "192.168.1.100");
    headers.insert("preview", "1024");
    headers.insert("istag", "\"g3icap-1.0\"");

    let icap_headers = IcapHeaders::from_http_headers(&headers);

    assert_eq!(icap_headers.icap_version, Some("ICAP/1.0".to_string()));
    assert_eq!(icap_headers.icap_client_ip, Some(IpAddr::V4(192, 168, 1, 100)));
    assert_eq!(icap_headers.preview, Some(1024));
    assert_eq!(icap_headers.istag, Some("\"g3icap-1.0\"".to_string()));
}

#[test]
fn test_icap_error_codes() {
    let bad_request = IcapErrorCode::BadRequest;
    assert_eq!(bad_request.status_code(), 400);
    assert_eq!(bad_request.message(), "Bad Request");
    assert!(bad_request.is_client_error());
    assert!(!bad_request.is_server_error());

    let internal_error = IcapErrorCode::InternalServerError;
    assert_eq!(internal_error.status_code(), 500);
    assert_eq!(internal_error.message(), "Internal Server Error");
    assert!(!internal_error.is_client_error());
    assert!(internal_error.is_server_error());

    let continue_code = IcapErrorCode::Continue;
    assert_eq!(continue_code.status_code(), 100);
    assert_eq!(continue_code.message(), "Continue");
    assert!(continue_code.is_informational());

    let no_content = IcapErrorCode::NoContent;
    assert_eq!(no_content.status_code(), 204);
    assert_eq!(no_content.message(), "No Content");
    assert!(no_content.is_success());
}

#[test]
fn test_icap_error_response() {
    let error_response = IcapErrorResponseBuilder::new(IcapErrorCode::BadRequest)
        .message("Invalid ICAP request format".to_string())
        .details("Missing required headers".to_string())
        .build();

    assert_eq!(error_response.error_code, IcapErrorCode::BadRequest);
    assert_eq!(error_response.message(), "Invalid ICAP request format");
    assert_eq!(error_response.details(), Some("Missing required headers"));
    assert!(error_response.is_client_error());
}

#[test]
fn test_reqmod_compliance() {
    let request_data = b"REQMOD icap://example.com/echo ICAP/1.0\r\n\
                        Host: example.com\r\n\
                        Encapsulated: req-hdr=0, req-body=100\r\n\
                        \r\n\
                        GET /test HTTP/1.1\r\n\
                        Host: example.com\r\n\
                        \r\n";

    let request = IcapParser::parse_request(request_data).unwrap();

    assert_eq!(request.method, IcapMethod::Reqmod);
    assert!(request.encapsulated.is_some());

    let encapsulated = request.encapsulated.unwrap();
    assert!(encapsulated.req_hdr.is_some());
    assert!(encapsulated.req_body.is_some());
    assert!(encapsulated.res_hdr.is_none());
    assert!(encapsulated.res_body.is_none());
}

#[test]
fn test_respmod_compliance() {
    let request_data = b"RESPMOD icap://example.com/echo ICAP/1.0\r\n\
                        Host: example.com\r\n\
                        Encapsulated: req-hdr=0, req-body=100, res-hdr=200, res-body=300\r\n\
                        \r\n\
                        GET /test HTTP/1.1\r\n\
                        Host: example.com\r\n\
                        \r\n\
                        HTTP/1.1 200 OK\r\n\
                        Content-Type: text/html\r\n\
                        \r\n";

    let request = IcapParser::parse_request(request_data).unwrap();

    assert_eq!(request.method, IcapMethod::Respmod);
    assert!(request.encapsulated.is_some());

    let encapsulated = request.encapsulated.unwrap();
    assert!(encapsulated.req_hdr.is_some());
    assert!(encapsulated.req_body.is_some());
    assert!(encapsulated.res_hdr.is_some());
    assert!(encapsulated.res_body.is_some());
}

#[test]
fn test_options_compliance() {
    let request_data = b"OPTIONS icap://example.com/echo ICAP/1.0\r\n\
                        Host: example.com\r\n\
                        \r\n";

    let request = IcapParser::parse_request(request_data).unwrap();

    assert_eq!(request.method, IcapMethod::Options);
    assert!(request.encapsulated.is_none());
}

#[test]
fn test_preview_mode_compliance() {
    let request_data = b"REQMOD icap://example.com/echo ICAP/1.0\r\n\
                        Host: example.com\r\n\
                        Preview: 1024\r\n\
                        Encapsulated: req-hdr=0, req-body=100\r\n\
                        \r\n\
                        GET /test HTTP/1.1\r\n\
                        Host: example.com\r\n\
                        \r\n";

    let request = IcapParser::parse_request(request_data).unwrap();

    assert!(request.headers.contains_key("preview"));
    let preview_header = request.headers.get("preview").unwrap();
    assert_eq!(preview_header.as_str(), "1024");
}

#[test]
fn test_icap_message_serialization() {
    let mut headers = HeaderMap::new();
    headers.insert("host", "example.com");
    headers.insert("istag", "\"g3icap-1.0\"");

    let request = IcapRequest {
        method: IcapMethod::Options,
        uri: "icap://example.com/echo".to_string(),
        version: HttpVersion::Http11,
        headers,
        body: Vec::new(),
        encapsulated: None,
    };

    let serialized = IcapSerializer::serialize_request(&request).unwrap();
    let deserialized = IcapParser::parse_request(&serialized).unwrap();

    assert_eq!(deserialized.method, request.method);
    assert_eq!(deserialized.uri, request.uri);
    assert_eq!(deserialized.version, request.version);
}

#[test]
fn test_icap_header_validation() {
    let mut headers = IcapHeaders::new();

    headers.icap_version = Some("ICAP/1.0".to_string());
    headers.preview = Some(1024);
    headers.max_connections = Some(100);
    headers.options_ttl = Some(3600);

    assert!(headers.validate().is_ok());

    headers.icap_version = Some("HTTP/1.1".to_string());
    assert!(headers.validate().is_err());

    headers.icap_version = Some("ICAP/1.0".to_string());
    headers.preview = Some(0);
    assert!(headers.validate().is_err());

    headers.preview = Some(1024);
    headers.max_connections = Some(0);
    assert!(headers.validate().is_err());

    headers.max_connections = Some(100);
    headers.options_ttl = Some(0);
    assert!(headers.validate().is_err());
}

#[test]
fn icap_compliance_tests_test_rfc_3507_compliance() {
    let methods = vec![IcapMethod::Reqmod, IcapMethod::Respmod, IcapMethod::Options];
    for method in methods {
        assert!(matches!(method, IcapMethod::Reqmod | IcapMethod::Respmod | IcapMethod::Options));
    }

    let icap_headers = IcapHeaders::new();
    assert_eq!(icap_headers.icap_version, Some("ICAP/1.0".to_string()));

    let error_codes = vec![
        IcapErrorCode::BadRequest,
        IcapErrorCode::NotFound,
        IcapErrorCode::MethodNotAllowed,
        IcapErrorCode::InternalServerError,
        IcapErrorCode::ServiceUnavailable,
    ];

    for error_code in error_codes {
        assert!(error_code.status_code() >= 400);
    }
}

#[test]
fn test_icap_performance() {
    let request_data = b"REQMOD icap://example.com/echo ICAP/1.0\r\n\
                        Host: example.com\r\n\
                        Encapsulated: req-hdr=0, req-body=100\r\n\
                        \r\n\
                        GET /test HTTP/1.1\r\n\
                        Host: example.com\r\n\
                        \r\n";

    let start = std::time::Instant::now();
    for _ in 0..1000 {
        let _ = IcapParser::parse_request(request_data);
    }
    let duration = start.elapsed();

    assert!(duration.as_millis() < 100);
}

#[test]
fn test_icap_security() {
    let malicious_data = b"REQMOD icap://example.com/echo ICAP/1.0\r\n\
                          Host: example.com\r\n\
                          \r\n\
                          GET /../../../etc/passwd HTTP/1.1\r\n\
                          Host: example.com\r\n\
                          \r\n";

    let result = IcapParser::parse_request(malicious_data);
    assert!(result.is_ok());

    let request = result.unwrap();
    assert_eq!(request.method, IcapMethod::Reqmod);
    assert!(contains_bytes(&request.body, b"/etc/passwd"));
}

#[test]
fn malformed_request_line_is_refused() {
    assert!(IcapParser::parse_request(b"INVALID REQUEST\r\n").is_err());
    assert!(IcapParser::parse_request(b"REQMOD icap://example.com/echo ICAP/1.0\r\n\r\n").is_ok());
}

#[test]
fn header_fields_round_trip_through_a_map() {
    let mut h = IcapHeaders::new();
    h.icap_client_ip = Some(IpAddr::V4(10, 0, 0, 1));
    h.icap_server_ip = Some(IpAddr::V6(0x2001, 0xdb8, 0, 0, 0, 0, 0, 1));
    h.preview = Some(4096);
    h.istag = Some("\"tag-1\"".to_string());
    let map = h.to_http_headers();
    assert_eq!(map.get("icap-client-ip").map(|s| s.as_str()), Some("10.0.0.1"));
    assert_eq!(map.get("icap-server-ip").map(|s| s.as_str()), Some("2001:db8::1"));
    assert_eq!(map.get("preview").map(|s| s.as_str()), Some("4096"));
    let back = IcapHeaders::from_http_headers(&map);
    assert_eq!(back.icap_client_ip, h.icap_client_ip);
    assert_eq!(back.icap_server_ip, h.icap_server_ip);
    assert_eq!(back.preview, Some(4096));
    assert_eq!(back.istag, h.istag);
    assert_eq!(back.icap_version, Some("ICAP/1.0".to_string()));
}

#[test]
fn header_numbers_and_addresses_that_do_not_read_are_dropped() {
    let mut map = HeaderMap::new();
    map.insert("preview", "12x");
    map.insert("max-connections", "+25");
    map.insert("options-ttl", "99999999999999999999999");
    map.insert("icap-client-ip", "300.1.1.1");
    map.insert("icap-server-ip", "::ffff:1.2.3.4");
    let h = IcapHeaders::from_http_headers(&map);
    assert_eq!(h.preview, None);
    assert_eq!(h.max_connections, Some(25));
    assert_eq!(h.options_ttl, None);
    assert_eq!(h.icap_client_ip, None);
    assert_eq!(h.icap_server_ip, Some(IpAddr::V6(0, 0, 0, 0, 0, 0xffff, 0x0102, 0x0304)));
}

#[test]
fn header_validation_names_the_first_problem() {
    let mut h = IcapHeaders::new();
    h.icap_version = Some("HTTP/1.1".to_string());
    h.preview = Some(0);
    assert_eq!(h.validate().unwrap_err().to_string(), "Invalid ICAP version: HTTP/1.1");
    h.icap_version = None;
    assert_eq!(h.validate().unwrap_err().to_string(), "Invalid preview size: 0");
    h.preview = None;
    h.options_ttl = Some(0);
    assert_eq!(h.validate().unwrap_err().to_string(), "Invalid options TTL: 0");
}

#[test]
fn test_icap_error_handling() {
    let malformed_data = b"INVALID REQUEST\r\n";
    let result = IcapParser::parse_request(malformed_data);
    assert!(result.is_err());

    let no_headers_data = b"REQMOD icap://example.com/echo ICAP/1.0\r\n\r\n";
    let result = IcapParser::parse_request(no_headers_data);
    assert!(result.is_ok());

    let invalid_uri_data = b"REQMOD invalid-uri ICAP/1.0\r\n\r\n";
    let result = IcapParser::parse_request(invalid_uri_data);
    assert!(result.is_err());
}

#[test]
fn request_uri_forms() {
    assert!(IcapParser::parse_request(b"OPTIONS /options ICAP/1.0\r\n\r\n").is_ok());
    assert!(IcapParser::parse_request(b"OPTIONS icap://example.com ICAP/1.0\r\n\r\n").is_ok());
    match IcapParser::parse_request(b"REQMOD example.com:1344 ICAP/1.0\r\n\r\n") {
        Err(g3icap::error::IcapError::Protocol(m)) => {
            assert_eq!(m, "PARSER: Invalid URI: neither absolute nor a path")
        }
        other => panic!("unexpected {:?}", other),
    }
}

#[test]
fn response_header_section_running_past_the_data_is_passed_over() {
    let data = b"RESPMOD icap://example.com/respmod ICAP/1.0\r\nHost: example.com\r\nEncapsulated: req-hdr=0, res-hdr=18, res-body=300\r\n\r\nGET / HTTP/1.1\r\n\r\nHTTP/1.1 200 OK\r\n\r\n";
    let request = IcapParser::parse_request(data).unwrap();
    let e = request.encapsulated.unwrap();
    assert!(e.req_hdr.is_some());
    assert!(e.res_hdr.is_none());
    assert_eq!(e.res_body, Some(Vec::new()));
}
