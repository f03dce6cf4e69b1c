use g3icap::protocol::response_generator::IcapResponseGenerator;
use g3icap::protocol::common::{HttpVersion, IcapMethod, IcapResponse};

fn contains_bytes(hay: &[u8], needle: &[u8]) -> bool {
    hay.windows(needle.len()).any(|w| w == needle)
}

/// Test helper to validate ICAP response format
fn validate_icap_response(response: &IcapResponse, expected_status: u16) {
    // Validate status line format: ICAP/1.0 <code> <reason>
    assert_eq!(response.status, expected_status);
    assert_eq!(response.version, HttpVersion::Http11);

    // Validate required headers
    assert!(response.headers.contains_key("server"));

    // Validate status-specific requirements
    match expected_status {
        100 => {
            // 100 Continue should have Encapsulated header
            assert!(response.headers.contains_key("encapsulated"));
            assert!(response.body.is_empty());
        },
        200 => {
            // 200 OK should have ISTag header
            assert!(response.headers.contains_key("istag"));
        },
        204 => {
            // 204 No Content should have ISTag header and no body
            assert!(response.headers.contains_key("istag"));
            assert!(response.body.is_empty());
        },
        302 => {
            // 302 Found should have Location header
            assert!(response.headers.contains_key("location"));
        },
        304 => {
            // 304 Not Modified should have no body
            assert!(response.body.is_empty());
        },
        400 => {
            // 400 Bad Request should have content-type and body
            assert!(response.headers.contains_key("content-type"));
            assert!(!response.body.is_empty());
        },
        403 => {
            // 403 Forbidden should have content-type and body
            assert!(response.headers.contains_key("content-type"));
            assert!(!response.body.is_empty());
        },
        404 => {
            // 404 Not Found should have content-type and body
            assert!(response.headers.contains_key("content-type"));
            assert!(!response.body.is_empty());
        },
        405 => {
            // 405 Method Not Allowed should have Allow header
            assert!(response.headers.contains_key("allow"));
        },
        407 => {
            // 407 Proxy Auth Required should have Proxy-Authenticate header
            assert!(response.headers.contains_key("proxy-authenticate"));
        },
        409 => {
            // 409 Conflict should have content-type and body
            assert!(response.headers.contains_key("content-type"));
            assert!(!response.body.is_empty());
        },
        413 => {
            // 413 Request Too Large should have content-type and body
            assert!(response.headers.contains_key("content-type"));
            assert!(!response.body.is_empty());
        },
        415 => {
            // 415 Unsupported Media Type should have content-type and body
            assert!(response.headers.contains_key("content-type"));
            assert!(!response.body.is_empty());
        },
        500 => {
            // 500 Internal Server Error should have content-type and body
            assert!(response.headers.contains_key("content-type"));
            assert!(!response.body.is_empty());
        },
        501 => {
            // 501 Not Implemented should have content-type and body
            assert!(response.headers.contains_key("content-type"));
            assert!(!response.body.is_empty());
        },
        502 => {
            // 502 Bad Gateway should have content-type and body
            assert!(response.headers.contains_key("content-type"));
            assert!(!response.body.is_empty());
        },
        503 => {
            // 503 Service Unavailable should have content-type and body
            assert!(response.headers.contains_key("content-type"));
            assert!(!response.body.is_empty());
        },
        505 => {
            // 505 ICAP Version Not Supported should have content-type and body
            assert!(response.headers.contains_key("content-type"));
            assert!(!response.body.is_empty());
        },
        _ => {
            // For other status codes, just ensure basic structure
            assert!(response.headers.contains_key("server"));
        }
    }
}

#[test]
fn test_100_continue_response() {
    let generator = IcapResponseGenerator::default();
    let response = generator.continue_response();

    // Validate basic structure
    validate_icap_response(&response, 100);

    // Validate specific 100 Continue requirements
    assert_eq!(response.status, 100);
    assert!(response.headers.contains_key("encapsulated"));
    assert!(response.body.is_empty());

    // Check that encapsulated header is properly formatted
    let encapsulated = response.headers.get("encapsulated").unwrap();
    assert_eq!(encapsulated.as_str(), "null-body=0");

}

#[test]
fn test_302_found_response() {
    let generator = IcapResponseGenerator::default();
    let location = "icap://example.com/redirect";
    let response = generator.found(location);

    // Validate basic structure
    validate_icap_response(&response, 302);

    // Validate specific 302 Found requirements
    assert_eq!(response.status, 302);
    assert!(response.headers.contains_key("location"));
    assert_eq!(response.headers.get("location").unwrap().as_str(), location);

}

#[test]
fn test_304_not_modified_response() {
    let generator = IcapResponseGenerator::default();
    let response = generator.not_modified();

    // Validate basic structure
    validate_icap_response(&response, 304);

    // Validate specific 304 Not Modified requirements
    assert_eq!(response.status, 304);
    assert!(response.body.is_empty());

}

#[test]
fn test_400_bad_request_response() {
    let generator = IcapResponseGenerator::default();
    let message = "Invalid ICAP request format";
    let response = generator.bad_request(Some(message));

    // Validate basic structure
    validate_icap_response(&response, 400);

    // Validate specific 400 Bad Request requirements
    assert_eq!(response.status, 400);
    assert!(response.headers.contains_key("content-type"));
    assert!(!response.body.is_empty());
    assert!(contains_bytes(&response.body, message.as_bytes()));

}

#[test]
fn test_403_forbidden_response() {
    let generator = IcapResponseGenerator::default();
    let reason = "Access denied by policy";
    let response = generator.forbidden(Some(reason));

    // Validate basic structure
    validate_icap_response(&response, 403);

    // Validate specific 403 Forbidden requirements
    assert_eq!(response.status, 403);
    assert!(response.headers.contains_key("content-type"));
    assert!(!response.body.is_empty());
    assert!(contains_bytes(&response.body, reason.as_bytes()));

}

#[test]
fn test_404_not_found_response() {
    let generator = IcapResponseGenerator::default();
    let service = "reqmod";
    let response = generator.not_found(Some(service));

    // Validate basic structure
    validate_icap_response(&response, 404);

    // Validate specific 404 Not Found requirements
    assert_eq!(response.status, 404);
    assert!(response.headers.contains_key("content-type"));
    assert!(!response.body.is_empty());
    assert!(contains_bytes(&response.body, service.as_bytes()));

}

#[test]
fn test_405_method_not_allowed_response() {
    let generator = IcapResponseGenerator::default();
    let method = IcapMethod::Respmod;
    let allowed_methods = vec![IcapMethod::Options, IcapMethod::Reqmod];
    let response = generator.method_not_allowed(&method, &allowed_methods);

    // Validate basic structure
    validate_icap_response(&response, 405);

    // Validate specific 405 Method Not Allowed requirements
    assert_eq!(response.status, 405);
    assert!(response.headers.contains_key("allow"));
    assert!(response.headers.contains_key("content-type"));
    assert!(!response.body.is_empty());

    let allow_header = response.headers.get("allow").unwrap().as_str();
    assert!(allow_header.contains("OPTIONS"));
    assert!(allow_header.contains("REQMOD"));

}

#[test]
fn test_407_proxy_auth_required_response() {
    let generator = IcapResponseGenerator::default();
    let realm = "ICAP Server";
    let response = generator.proxy_auth_required(Some(realm));

    // Validate basic structure
    validate_icap_response(&response, 407);

    // Validate specific 407 Proxy Auth Required requirements
    assert_eq!(response.status, 407);
    assert!(response.headers.contains_key("proxy-authenticate"));
    assert!(response.headers.contains_key("content-type"));
    assert!(!response.body.is_empty());

    let auth_header = response.headers.get("proxy-authenticate").unwrap().as_str();
    assert!(auth_header.contains("Basic"));
    assert!(auth_header.contains(realm));

}

#[test]
fn test_409_conflict_response() {
    let generator = IcapResponseGenerator::default();
    let reason = "Resource already exists";
    let response = generator.conflict(Some(reason));

    // Validate basic structure
    validate_icap_response(&response, 409);

    // Validate specific 409 Conflict requirements
    assert_eq!(response.status, 409);
    assert!(response.headers.contains_key("content-type"));
    assert!(!response.body.is_empty());
    assert!(contains_bytes(&response.body, reason.as_bytes()));

}

#[test]
fn test_413_request_too_large_response() {
    let generator = IcapResponseGenerator::default();
    let max_size = 10485760; // 10MB
    let response = generator.request_too_large(Some(max_size));

    // Validate basic structure
    validate_icap_response(&response, 413);

    // Validate specific 413 Request Too Large requirements
    assert_eq!(response.status, 413);
    assert!(response.headers.contains_key("content-type"));
    assert!(!response.body.is_empty());
    assert!(contains_bytes(&response.body, max_size.to_string().as_bytes()));

}

#[test]
fn test_415_unsupported_media_type_response() {
    let generator = IcapResponseGenerator::default();
    let content_type = "application/unknown";
    let response = generator.unsupported_media_type(Some(content_type));

    // Validate basic structure
    validate_icap_response(&response, 415);

    // Validate specific 415 Unsupported Media Type requirements
    assert_eq!(response.status, 415);
    assert!(response.headers.contains_key("content-type"));
    assert!(!response.body.is_empty());
    assert!(contains_bytes(&response.body, content_type.as_bytes()));

}

#[test]
fn test_500_internal_server_error_response() {
    let generator = IcapResponseGenerator::default();
    let error = "Database connection failed";
    let response = generator.internal_server_error(Some(error));

    // Validate basic structure
    validate_icap_response(&response, 500);

    // Validate specific 500 Internal Server Error requirements
    assert_eq!(response.status, 500);
    assert!(response.headers.contains_key("content-type"));
    assert!(!response.body.is_empty());
    assert!(contains_bytes(&response.body, error.as_bytes()));

}

#[test]
fn test_501_not_implemented_response() {
    let generator = IcapResponseGenerator::default();
    let method = IcapMethod::Respmod;
    let response = generator.not_implemented(Some(&method));

    // Validate basic structure
    validate_icap_response(&response, 501);

    // Validate specific 501 Not Implemented requirements
    assert_eq!(response.status, 501);
    assert!(response.headers.contains_key("content-type"));
    assert!(!response.body.is_empty());
    assert!(contains_bytes(&response.body, "RESPMOD".as_bytes()));

}

#[test]
fn test_502_bad_gateway_response() {
    let generator = IcapResponseGenerator::default();
    let reason = "Upstream server returned invalid response";
    let response = generator.bad_gateway(Some(reason));

    // Validate basic structure
    validate_icap_response(&response, 502);

    // Validate specific 502 Bad Gateway requirements
    assert_eq!(response.status, 502);
    assert!(response.headers.contains_key("content-type"));
    assert!(!response.body.is_empty());
    assert!(contains_bytes(&response.body, reason.as_bytes()));

}

#[test]
fn test_503_service_unavailable_response() {
    let generator = IcapResponseGenerator::default();
    let retry_after = 300; // 5 minutes
    let response = generator.service_unavailable(Some(retry_after));

    // Validate basic structure
    validate_icap_response(&response, 503);

    // Validate specific 503 Service Unavailable requirements
    assert_eq!(response.status, 503);
    assert!(response.headers.contains_key("content-type"));
    assert!(response.headers.contains_key("retry-after"));
    assert!(!response.body.is_empty());

    let retry_header = response.headers.get("retry-after").unwrap().as_str();
    assert_eq!(retry_header, "300");

}

#[test]
fn test_505_version_not_supported_response() {
    let generator = IcapResponseGenerator::default();
    let version = "ICAP/2.0";
    let response = generator.version_not_supported(Some(version));

    // Validate basic structure
    validate_icap_response(&response, 505);

    // Validate specific 505 ICAP Version Not Supported requirements
    assert_eq!(response.status, 505);
    assert!(response.headers.contains_key("content-type"));
    assert!(!response.body.is_empty());
    assert!(contains_bytes(&response.body, version.as_bytes()));

}

#[test]
fn test_options_response_with_capabilities() {
    let generator = IcapResponseGenerator::default();
    let methods = vec![IcapMethod::Options, IcapMethod::Reqmod, IcapMethod::Respmod];
    let mut capabilities = Vec::new();
    capabilities.push(("preview".to_string(), "1024".to_string()));
    capabilities.push(("max-connections".to_string(), "1000".to_string()));
    capabilities.push(("x-content-filter".to_string(), "enabled".to_string()));

    let response = generator.options_response(&methods, &capabilities);

    // Validate basic structure
    validate_icap_response(&response, 204);

    // Validate OPTIONS-specific requirements
    assert_eq!(response.status, 204);
    assert!(response.headers.contains_key("istag"));
    assert!(response.headers.contains_key("methods"));
    assert!(response.headers.contains_key("service"));
    assert!(response.body.is_empty());

    // Validate methods header
    let methods_header = response.headers.get("methods").unwrap().as_str();
    assert!(methods_header.contains("OPTIONS"));
    assert!(methods_header.contains("REQMOD"));
    assert!(methods_header.contains("RESPMOD"));

    // Validate capabilities
    assert!(response.headers.contains_key("preview"));
    assert!(response.headers.contains_key("max-connections"));
    assert!(response.headers.contains_key("x-content-filter"));

}

#[test]
fn test_icap_response_validation_test_rfc_3507_compliance() {
    let generator = IcapResponseGenerator::default();

    // Test 100 Continue as specified in your example
    let response = generator.continue_response();

    // Validate RFC 3507 compliance for 100 Continue
    assert_eq!(response.status, 100);
    assert_eq!(response.version, HttpVersion::Http11);
    assert!(response.headers.contains_key("encapsulated"));
    assert!(response.body.is_empty());

    let encapsulated = response.headers.get("encapsulated").unwrap().as_str();
    assert_eq!(encapsulated, "null-body=0");

}
