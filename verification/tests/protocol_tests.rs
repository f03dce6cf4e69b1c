use g3icap::protocol::common::{
    encapsulated_size_fits, EncapsulatedData, HttpVersion, IcapMethod, IcapParser, IcapRequest, IcapResponse, IcapSerializer,
};
use g3icap::protocol::error::ErrorResponseBuilder;
use g3icap::protocol::fields::HeaderMap;

fn contains_bytes(hay: &[u8], needle: &[u8]) -> bool {
    hay.windows(needle.len()).any(|w| w == needle)
}

#[test]
fn test_icap_method_from_string() {
    assert_eq!(IcapMethod::from("REQMOD"), IcapMethod::Reqmod);
    assert_eq!(IcapMethod::from("RESPMOD"), IcapMethod::Respmod);
    assert_eq!(IcapMethod::from("OPTIONS"), IcapMethod::Options);
    assert_eq!(IcapMethod::from("UNKNOWN"), IcapMethod::Options); // Default fallback
}

#[test]
fn test_icap_method_to_string() {
    assert_eq!(IcapMethod::Reqmod.to_string(), "REQMOD");
    assert_eq!(IcapMethod::Respmod.to_string(), "RESPMOD");
    assert_eq!(IcapMethod::Options.to_string(), "OPTIONS");
}

#[test]
fn method_names_read_back_in_any_case() {
    for m in [IcapMethod::Reqmod, IcapMethod::Respmod, IcapMethod::Options] {
        assert_eq!(IcapMethod::from(m.to_string().as_str()), m);
    }
    assert_eq!(IcapMethod::from("reqmod"), IcapMethod::Reqmod);
    assert_eq!(IcapMethod::from("ReSpMoD"), IcapMethod::Respmod);
}

#[test]
fn test_parse_simple_options_request() {
    let data = b"OPTIONS icap://example.com/options ICAP/1.0\r\nHost: example.com\r\nUser-Agent: test-client\r\n\r\n";
    let request = IcapParser::parse_request(data).unwrap();

    assert_eq!(request.method, IcapMethod::Options);
    assert_eq!(request.uri, "icap://example.com/options");
    assert_eq!(request.version, HttpVersion::Http11);
    assert!(request.headers.contains_key("host"));
    assert!(request.headers.contains_key("user-agent"));
    assert!(request.body.is_empty());
    assert!(request.encapsulated.is_none());
}

#[test]
fn test_parse_reqmod_request_with_encapsulated() {
    let data = b"REQMOD icap://example.com/reqmod ICAP/1.0\r\nHost: example.com\r\nEncapsulated: req-hdr=0, req-body=200\r\n\r\nGET /test HTTP/1.1\r\nHost: example.com\r\n\r\n";
    let request = IcapParser::parse_request(data).unwrap();

    assert_eq!(request.method, IcapMethod::Reqmod);
    assert_eq!(request.uri, "icap://example.com/reqmod");
    assert!(request.headers.contains_key("encapsulated"));
    assert!(request.encapsulated.is_some());
}

#[test]
fn test_parse_respmod_request() {
    let data = b"RESPMOD icap://example.com/respmod ICAP/1.0\r\nHost: example.com\r\n\r\n";
    let request = IcapParser::parse_request(data).unwrap();

    assert_eq!(request.method, IcapMethod::Respmod);
    assert_eq!(request.uri, "icap://example.com/respmod");
}

#[test]
fn protocol_tests_test_parse_icap_response() {
    let data = b"ICAP/1.0 200 OK\r\nISTag: \"test-1.0\"\r\nMethods: REQMOD, RESPMOD\r\n\r\n";
    let response = IcapParser::parse_response(data).unwrap();

    assert_eq!(response.status, 200);
    assert_eq!(response.version, HttpVersion::Http11);
    assert!(response.headers.contains_key("istag"));
    assert!(response.headers.contains_key("methods"));
}

#[test]
fn test_parse_invalid_request_line() {
    let data = b"INVALID REQUEST\r\n\r\n";
    let result = IcapParser::parse_request(data);
    assert!(result.is_err());
}

#[test]
fn test_parse_malformed_headers() {
    let data = b"OPTIONS icap://example.com/options ICAP/1.0\r\nInvalid-Header\r\n\r\n";
    let request = IcapParser::parse_request(data).unwrap();
    // Should still parse successfully, just ignore invalid headers
    assert_eq!(request.method, IcapMethod::Options);
}

#[test]
fn test_serialize_options_request() {
    let mut headers = HeaderMap::new();
    headers.insert("host", "example.com");
    headers.insert("user-agent", "test-client");

    let request = IcapRequest {
        method: IcapMethod::Options,
        uri: "icap://example.com/options".to_string(),
        version: HttpVersion::Http11,
        headers,
        body: Vec::new(),
        encapsulated: None,
    };

    let serialized = IcapSerializer::serialize_request(&request).unwrap();
    let serialized_str = String::from_utf8_lossy(&serialized);

    assert!(serialized_str.contains("OPTIONS icap://example.com/options ICAP/1.0"));
    assert!(serialized_str.contains("Host: example.com"));
    assert!(serialized_str.contains("User-Agent: test-client"));
}

#[test]
fn test_serialize_icap_response() {
    let mut headers = HeaderMap::new();
    headers.insert("istag", "\"test-1.0\"");
    headers.insert("methods", "REQMOD, RESPMOD");

    let response = IcapResponse {
        status: 200,
        version: HttpVersion::Http11,
        headers,
        body: Vec::new(),
        encapsulated: None,
    };

    let serialized = IcapSerializer::serialize_response(&response).unwrap();
    let serialized_str = String::from_utf8_lossy(&serialized);

    assert!(serialized_str.contains("ICAP/1.0 200 OK"));
    assert!(serialized_str.contains("ISTag: \"test-1.0\""));
    assert!(serialized_str.contains("Methods: REQMOD, RESPMOD"));
}

#[test]
fn test_serialize_request_with_body() {
    let request = IcapRequest {
        method: IcapMethod::Reqmod,
        uri: "icap://example.com/reqmod".to_string(),
        version: HttpVersion::Http11,
        headers: HeaderMap::new(),
        body: b"test body content".to_vec(),
        encapsulated: None,
    };

    let serialized = IcapSerializer::serialize_request(&request).unwrap();
    let serialized_str = String::from_utf8_lossy(&serialized);

    assert!(serialized_str.contains("REQMOD icap://example.com/reqmod ICAP/1.0"));
    assert!(serialized_str.contains("test body content"));
}

#[test]
fn protocol_tests_test_bad_request_response() {
    let response = ErrorResponseBuilder::bad_request("Invalid request format");
    assert_eq!(response.status, 400);
    assert!(contains_bytes(&response.body, b"Bad Request"));
    assert!(contains_bytes(&response.body, b"Invalid request format"));
}

#[test]
fn test_not_found_response() {
    let response = ErrorResponseBuilder::not_found("Service not found");
    assert_eq!(response.status, 404);
    assert!(contains_bytes(&response.body, b"Not Found"));
    assert!(contains_bytes(&response.body, b"Service not found"));
}

#[test]
fn test_internal_server_error_response() {
    let response = ErrorResponseBuilder::internal_server_error("Database connection failed");
    assert_eq!(response.status, 500);
    assert!(contains_bytes(&response.body, b"Internal Server Error"));
    assert!(contains_bytes(&response.body, b"Database connection failed"));
}

#[test]
fn protocol_tests_test_continue_response() {
    let response = ErrorResponseBuilder::continue_response();
    assert_eq!(response.status, 100);
    assert!(response.headers.contains_key("istag"));
}

#[test]
fn test_no_content_response() {
    let response = ErrorResponseBuilder::no_content();
    assert_eq!(response.status, 204);
    assert!(response.headers.contains_key("istag"));
}

#[test]
fn test_request_serialization_roundtrip() {
    let original_data = b"REQMOD icap://example.com/reqmod ICAP/1.0\r\nHost: example.com\r\nUser-Agent: test-client\r\n\r\n";
    let request = IcapParser::parse_request(original_data).unwrap();
    let serialized = IcapSerializer::serialize_request(&request).unwrap();

    // The serialized data should contain the same information
    assert!(contains_bytes(&serialized, b"REQMOD"));
    assert!(contains_bytes(&serialized, b"icap://example.com/reqmod"));
    assert!(contains_bytes(&serialized, b"ICAP/1.0"));
    assert!(contains_bytes(&serialized, b"Host: example.com"));
}

#[test]
fn test_response_serialization_roundtrip() {
    let original_data = b"ICAP/1.0 200 OK\r\nISTag: \"test-1.0\"\r\nMethods: REQMOD, RESPMOD\r\n\r\n";
    let response = IcapParser::parse_response(original_data).unwrap();
    let serialized = IcapSerializer::serialize_response(&response).unwrap();

    // The serialized data should contain the same information
    assert!(contains_bytes(&serialized, b"ICAP/1.0"));
    assert!(contains_bytes(&serialized, b"200"));
    assert!(contains_bytes(&serialized, b"OK"));
    assert!(contains_bytes(&serialized, b"ISTag: \"test-1.0\""));
}

#[test]
fn test_parsing_performance() {
    let data = b"REQMOD icap://example.com/reqmod ICAP/1.0\r\nHost: example.com\r\nUser-Agent: test-client\r\nContent-Length: 1000\r\n\r\n";
    let start = std::time::Instant::now();
    for _ in 0..1000 {
        let _request = IcapParser::parse_request(data).unwrap();
    }
    let duration = start.elapsed();

    // Should parse 1000 requests in less than 100ms
    assert!(duration.as_millis() < 100, "Parsing took {}ms, expected < 100ms", duration.as_millis());
}

#[test]
fn test_serialization_performance() {
    let mut headers = HeaderMap::new();
    headers.insert("host", "example.com");
    headers.insert("user-agent", "test-client");

    let request = IcapRequest {
        method: IcapMethod::Options,
        uri: "icap://example.com/options".to_string(),
        version: HttpVersion::Http11,
        headers,
        body: Vec::new(),
        encapsulated: None,
    };
    let start = std::time::Instant::now();
    for _ in 0..1000 {
        let _serialized = IcapSerializer::serialize_request(&request).unwrap();
    }
    let duration = start.elapsed();

    // Should serialize 1000 requests in less than 100ms
    assert!(duration.as_millis() < 100, "Serialization took {}ms, expected < 100ms", duration.as_millis());
}

#[test]
fn encapsulated_sizes_fit() {
    assert!(encapsulated_size_fits(&None));
    let mut h = HeaderMap::new();
    h.insert("host", "example.com");
    let e = EncapsulatedData { req_hdr: Some(h), req_body: Some(b"abc".to_vec()), res_hdr: None, res_body: None, null_body: false };
    assert!(encapsulated_size_fits(&Some(e)));
}
