use g3icap::protocol::common::{EncapsulatedData, IcapMethod};
use g3icap::protocol::fields::HeaderMap;
use g3icap::protocol::response_generator::IcapResponseGenerator;

#[test]
fn response_generator_test_continue_response() {
    let generator = IcapResponseGenerator::default();
    let response = generator.continue_response();

    assert_eq!(response.status, 100);
    assert!(response.headers.contains_key("server"));
    assert!(response.headers.contains_key("istag"));
    assert!(response.body.is_empty());
}

#[test]
fn test_ok_modified_response() {
    let generator = IcapResponseGenerator::default();
    let body = b"modified content".to_vec();
    let response = generator.ok_modified(None, body.clone());

    assert_eq!(response.status, 200);
    assert_eq!(response.body, body);
    assert!(response.headers.contains_key("istag"));
    assert!(response.headers.contains_key("server"));
}

#[test]
fn test_no_modifications_response() {
    let generator = IcapResponseGenerator::default();
    let response = generator.no_modifications(None);

    assert_eq!(response.status, 204);
    assert!(response.body.is_empty());
    assert!(response.headers.contains_key("istag"));
    assert!(response.headers.contains_key("server"));
}

#[test]
fn response_generator_test_bad_request_response() {
    let generator = IcapResponseGenerator::default();
    let response = generator.bad_request(Some("Invalid header"));

    assert_eq!(response.status, 400);
    let body_str = String::from_utf8_lossy(&response.body);
    assert!(body_str.contains("Invalid header"));
    assert!(response.headers.contains_key("server"));
    assert!(response.headers.contains_key("istag"));
    assert!(response.headers.contains_key("content-type"));
    assert!(response.headers.contains_key("connection"));
}

#[test]
fn test_method_not_allowed_response() {
    let generator = IcapResponseGenerator::default();
    let allowed = vec![IcapMethod::Options, IcapMethod::Reqmod];
    let response = generator.method_not_allowed(&IcapMethod::Respmod, &allowed);

    assert_eq!(response.status, 405);
    assert!(response.headers.contains_key("allow"));
    assert!(response.headers.contains_key("server"));
    assert!(response.headers.contains_key("istag"));
    assert!(response.headers.contains_key("content-type"));
    assert!(response.headers.contains_key("connection"));
}

#[test]
fn test_options_response() {
    let generator = IcapResponseGenerator::default();
    let methods = vec![IcapMethod::Options, IcapMethod::Reqmod, IcapMethod::Respmod];
    let capabilities = vec![
        ("preview".to_string(), "1024".to_string()),
        ("max-connections".to_string(), "1000".to_string()),
    ];

    let response = generator.options_response(&methods, &capabilities);

    assert_eq!(response.status, 204);
    assert!(response.headers.contains_key("methods"));
    assert!(response.headers.contains_key("preview"));
    assert!(response.headers.contains_key("max-connections"));
    assert!(response.headers.contains_key("server"));
    assert!(response.headers.contains_key("istag"));
    assert!(response.headers.contains_key("service"));
}

#[test]
fn test_from_status_code() {
    let generator = IcapResponseGenerator::default();
    let response = generator.from_status_code(400, Some("Test error"));

    assert_eq!(response.status, 400);
    let body_str = String::from_utf8_lossy(&response.body);
    assert!(body_str.contains("Test error"));
}

#[test]
fn test_is_error_status() {
    assert!(IcapResponseGenerator::is_error_status(400));
    assert!(IcapResponseGenerator::is_error_status(500));
    assert!(!IcapResponseGenerator::is_error_status(200));
    assert!(!IcapResponseGenerator::is_error_status(204));
}

#[test]
fn test_get_reason_phrase() {
    assert_eq!(IcapResponseGenerator::get_reason_phrase(200), "OK");
    assert_eq!(IcapResponseGenerator::get_reason_phrase(400), "Bad Request");
    assert_eq!(IcapResponseGenerator::get_reason_phrase(404), "Not Found");
}

#[test]
fn test_service_id() {
    let generator = IcapResponseGenerator::with_service_id(
        "TestServer".to_string(),
        "1.0.0".to_string(),
        Some("test-service".to_string()),
    );
    let response = generator.continue_response();

    assert!(response.headers.contains_key("service-id"));
    let service_id = response.headers.get("service-id").unwrap();
    assert_eq!(service_id, "test-service");
}

#[test]
fn test_ok_modified_chunked() {
    let generator = IcapResponseGenerator::default();
    let body = b"chunked content".to_vec();
    let response = generator.ok_modified_chunked(None, body.clone());

    assert_eq!(response.status, 200);
    assert_eq!(response.body, body);
    assert!(response.headers.contains_key("transfer-encoding"));
    assert_eq!(response.headers.get("transfer-encoding").unwrap(), "chunked");
    assert!(response.headers.contains_key("istag"));
    assert!(response.headers.contains_key("server"));
}

#[test]
fn test_bad_request_chunked() {
    let generator = IcapResponseGenerator::default();
    let response = generator.bad_request_chunked(Some("Invalid header"));

    assert_eq!(response.status, 400);
    assert!(response.headers.contains_key("transfer-encoding"));
    assert_eq!(response.headers.get("transfer-encoding").unwrap(), "chunked");
    assert!(response.headers.contains_key("content-type"));
    assert_eq!(response.headers.get("content-type").unwrap(), "text/plain");
    let body_str = String::from_utf8_lossy(&response.body);
    assert!(body_str.contains("Invalid header"));
}

#[test]
fn test_forbidden_chunked() {
    let generator = IcapResponseGenerator::default();
    let response = generator.forbidden_chunked(Some("Malware detected"));

    assert_eq!(response.status, 403);
    assert!(response.headers.contains_key("transfer-encoding"));
    assert_eq!(response.headers.get("transfer-encoding").unwrap(), "chunked");
    assert!(response.headers.contains_key("content-type"));
    assert_eq!(response.headers.get("content-type").unwrap(), "text/html");
    let body_str = String::from_utf8_lossy(&response.body);
    assert!(body_str.contains("Malware detected"));
    assert!(body_str.contains("<html>"));
}

#[test]
fn test_internal_server_error_chunked() {
    let generator = IcapResponseGenerator::default();
    let response = generator.internal_server_error_chunked(Some("Scan engine failure"));

    assert_eq!(response.status, 500);
    assert!(response.headers.contains_key("transfer-encoding"));
    assert_eq!(response.headers.get("transfer-encoding").unwrap(), "chunked");
    let body_str = String::from_utf8_lossy(&response.body);
    assert!(body_str.contains("Scan engine failure"));
}

#[test]
fn test_from_status_code_chunked() {
    let generator = IcapResponseGenerator::default();
    let response = generator.from_status_code_chunked(200, None);

    assert_eq!(response.status, 200);
    assert!(response.headers.contains_key("transfer-encoding"));
    assert_eq!(response.headers.get("transfer-encoding").unwrap(), "chunked");
}

#[test]
fn test_should_use_chunked_encoding() {
    let generator = IcapResponseGenerator::default();

    // Unknown size should use chunked
    assert!(generator.should_use_chunked_encoding(None));

    // Large size should use chunked
    assert!(generator.should_use_chunked_encoding(Some(2 * 1024 * 1024))); // 2MB

    // Small size should not use chunked
    assert!(!generator.should_use_chunked_encoding(Some(1024))); // 1KB

    // Exactly at threshold should not use chunked
    assert!(!generator.should_use_chunked_encoding(Some(1024 * 1024))); // 1MB
}

#[test]
fn test_create_chunked_response() {
    let generator = IcapResponseGenerator::default();
    let body = b"chunked response body".to_vec();
    let response = generator.create_chunked_response(200, None, body.clone(), "text/html");

    assert_eq!(response.status, 200);
    assert_eq!(response.body, body);
    assert!(response.headers.contains_key("transfer-encoding"));
    assert_eq!(response.headers.get("transfer-encoding").unwrap(), "chunked");
    assert!(response.headers.contains_key("content-type"));
    assert_eq!(response.headers.get("content-type").unwrap(), "text/html");
    assert!(response.headers.contains_key("istag"));
    assert!(response.headers.contains_key("server"));
}

#[test]
fn test_chunked_response_with_encapsulated() {
    let generator = IcapResponseGenerator::default();
    let body = b"chunked content".to_vec();

    let mut res_headers = HeaderMap::new();
    res_headers.insert("content-type", "text/html");

    let encapsulated = EncapsulatedData {
        req_hdr: None,
        res_hdr: Some(res_headers),
        req_body: None,
        res_body: Some(body.clone()),
        null_body: false,
    };

    let response = generator.create_chunked_response(200, Some(encapsulated), body.clone(), "text/html");

    assert_eq!(response.status, 200);
    assert!(response.headers.contains_key("encapsulated"));
    assert!(response.headers.contains_key("transfer-encoding"));
    assert_eq!(response.headers.get("transfer-encoding").unwrap(), "chunked");

    let encapsulated_str = response.headers.get("encapsulated").unwrap();
    assert!(encapsulated_str.contains("res-hdr="));
    assert!(encapsulated_str.contains("res-body="));
}

#[test]
fn test_from_error_type() {
    let generator = IcapResponseGenerator::default();

    let response = generator.from_error_type("InternalServerError", Some("Test error"));
    assert_eq!(response.status, 500);

    let response = generator.from_error_type("ForbiddenByRule", Some("Access denied"));
    assert_eq!(response.status, 403);

    let response = generator.from_error_type("ClientAppError", Some("Invalid request"));
    assert_eq!(response.status, 400);

    let response = generator.from_error_type("EscaperNotUsable", None);
    assert_eq!(response.status, 503);

    let response = generator.from_error_type("UnknownError", Some("Unknown"));
    assert_eq!(response.status, 500);
}

#[test]
fn test_html_error_response() {
    let generator = IcapResponseGenerator::default();
    let response = generator.html_error_response(403, "Access denied");

    assert_eq!(response.status, 403);
    assert!(response.headers.contains_key("content-type"));
    assert_eq!(response.headers.get("content-type").unwrap(), "text/html");

    let body_str = String::from_utf8_lossy(&response.body);
    assert!(body_str.contains("<html>"));
    assert!(body_str.contains("403 Forbidden"));
    assert!(body_str.contains("Access denied"));
}

#[test]
fn test_serialize_response() {
    let generator = IcapResponseGenerator::default();
    let response = generator.bad_request(Some("Test error"));
    let serialized = generator.serialize_response(&response);

    let serialized_str = String::from_utf8_lossy(&serialized);
    assert!(serialized_str.starts_with("ICAP/1.0 400 Bad Request\r\n"));
    assert!(serialized_str.contains("server: G3ICAP/1.0.0\r\n"));
    assert!(serialized_str.contains("istag: \"g3icap-1.0.0\"\r\n"));
    assert!(serialized_str.contains("content-type: text/plain\r\n"));
    assert!(serialized_str.contains("connection: close\r\n"));
    assert!(serialized_str.ends_with("\r\n\r\n400 Bad Request: Test error"));
}

#[test]
fn test_should_close_connection() {
    let generator = IcapResponseGenerator::default();

    let response = generator.bad_request(None);
    assert!(generator.should_close_connection(&response));

    let response = generator.internal_server_error(None);
    assert!(generator.should_close_connection(&response));

    let response = generator.continue_response();
    assert!(!generator.should_close_connection(&response));

    let response = generator.no_modifications(None);
    assert!(!generator.should_close_connection(&response));
}

#[test]
fn test_add_custom_header() {
    let generator = IcapResponseGenerator::default();
    let mut headers = HeaderMap::new();

    generator.add_custom_header(&mut headers, "x-custom-header", "custom-value");
    assert!(headers.contains_key("x-custom-header"));
    assert_eq!(headers.get("x-custom-header").unwrap(), "custom-value");

    // Test invalid header (should not panic)
    generator.add_custom_header(&mut headers, "invalid\nheader", "value");
    assert!(!headers.contains_key("invalid\nheader"));
}

#[test]
fn test_format_html_error_message() {
    let generator = IcapResponseGenerator::default();
    let html = generator.format_html_error_message(403, "Access denied");

    assert!(html.contains("<html>"));
    assert!(html.contains("<head><title>403 Forbidden</title></head>"));
    assert!(html.contains("<h1>403 Forbidden</h1>"));
    assert!(html.contains("<p>Access denied</p>"));
    assert!(html.contains("</html>"));
}

#[test]
fn every_error_response_closes_the_connection() {
    let g = IcapResponseGenerator::default();
    for status in [400u16, 403, 404, 405, 407, 409, 413, 415, 500, 501, 502, 503, 505, 418] {
        let r = g.from_status_code(status, Some("x"));
        assert!(g.should_close_connection(&r), "status {}", status);
    }
}

#[test]
fn generator_bodies_and_extra_fields() {
    let g = IcapResponseGenerator::default();
    let r = g.request_too_large(Some(1024));
    assert_eq!(r.body, b"413 Request exceeds maximum size of 1024 bytes".to_vec());
    assert_eq!(r.headers.get("content-length").unwrap(), "1024");
    let r = g.service_unavailable(Some(30));
    assert_eq!(r.headers.get("retry-after").unwrap(), "30");
    let r = g.proxy_auth_required(None);
    assert_eq!(r.headers.get("proxy-authenticate").unwrap(), "Basic realm=\"ICAP Server\"");
    let r = g.not_implemented(Some(&IcapMethod::Reqmod));
    assert_eq!(r.body, b"501 REQMOD method is not supported".to_vec());
    let r = g.not_found(Some("av"));
    assert_eq!(r.body, b"404 ICAP service 'av' is not available".to_vec());
    let r = g.no_modifications(None);
    assert_eq!(r.headers.get("encapsulated").unwrap(), "null-body=0");
    assert_eq!(g.to_string(), "IcapResponseGenerator(G3ICAP/1.0.0, g3icap-1.0.0)");
}
