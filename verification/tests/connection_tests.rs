use g3icap::protocol::common::{EncapsulatedData, HttpVersion, IcapMethod, IcapParser, IcapRequest};
use g3icap::protocol::fields::HeaderMap;
use g3icap::protocol::response_generator::IcapResponseGenerator;
use g3icap::server::connection::{
    apply_antivirus_scanning, apply_basic_antivirus_scanning, apply_basic_content_filtering, apply_content_filtering,
    contains_blocked_keywords, contains_suspicious_patterns, contains_virus_signatures, detect_virus_name,
    handle_options_request, is_blocked_domain, is_blocked_mime_type, is_complete_request, is_executable_content,
    process_request,
    FilterResult, HttpRequest, HttpResponse, ScanResult,
};
use g3icap::stats::IcapStats;

fn pairs(v: &[(&str, &str)]) -> Vec<(String, String)> {
    v.iter().map(|(a, b)| (a.to_string(), b.to_string())).collect()
}

#[test]
fn test_is_complete_request() {
    let complete_request = b"OPTIONS icap://example.com/options ICAP/1.0\r\nHost: example.com\r\n\r\n";
    assert!(is_complete_request(complete_request));
    let incomplete_request = b"OPTIONS icap://example.com/options ICAP/1.0\r\nHost: example.com\r\n";
    assert!(!is_complete_request(incomplete_request));
    let empty_request = b"";
    assert!(!is_complete_request(empty_request));
}

#[test]
fn test_stats_initialization() {
    let stats = IcapStats::new();
    assert_eq!(stats.get_total_connections(), 0);
    assert_eq!(stats.active_connections(), 0);
    assert_eq!(stats.get_connection_errors(), 0);
    assert_eq!(stats.total_requests(), 0);
    assert_eq!(stats.options_requests(), 0);
    assert_eq!(stats.reqmod_requests(), 0);
    assert_eq!(stats.respmod_requests(), 0);
    assert_eq!(stats.successful_responses(), 0);
    assert_eq!(stats.error_responses(), 0);
}

#[test]
fn test_stats_increment_connections() {
    let mut stats = IcapStats::new();
    stats.add_connection();
    assert_eq!(stats.get_total_connections(), 1);
    assert_eq!(stats.active_connections(), 1);
    stats.add_connection();
    assert_eq!(stats.get_total_connections(), 2);
    assert_eq!(stats.active_connections(), 2);
    stats.remove_connection();
    assert_eq!(stats.get_total_connections(), 2);
    assert_eq!(stats.active_connections(), 1);
}

#[test]
fn test_stats_increment_requests() {
    let mut stats = IcapStats::new();
    stats.increment_requests();
    assert_eq!(stats.total_requests(), 1);
    stats.increment_options_requests();
    assert_eq!(stats.options_requests(), 1);
    stats.increment_reqmod_requests();
    assert_eq!(stats.reqmod_requests(), 1);
    stats.increment_respmod_requests();
    assert_eq!(stats.respmod_requests(), 1);
}

#[test]
fn test_stats_increment_responses() {
    let mut stats = IcapStats::new();
    stats.increment_successful_responses();
    assert_eq!(stats.successful_responses(), 1);
    stats.increment_error_responses();
    assert_eq!(stats.error_responses(), 1);
}

#[test]
fn test_stats_connection_errors() {
    let mut stats = IcapStats::new();
    stats.add_connection_error();
    assert_eq!(stats.get_connection_errors(), 1);
    stats.add_connection_error();
    assert_eq!(stats.get_connection_errors(), 2);
}

#[test]
fn test_malformed_request_handling() {
    let data = b"INVALID REQUEST LINE\r\n\r\n";
    let result = IcapParser::parse_request(data);
    assert!(result.is_err());
}

#[test]
fn test_empty_request_handling() {
    let data = b"";
    let result = IcapParser::parse_request(data);
    assert!(result.is_err());
}

#[test]
fn test_incomplete_request_handling() {
    let data = b"OPTIONS icap://example.com/options ICAP/1.0\r\nHost: example.com\r\n";
    let result = IcapParser::parse_request(data);
    assert!(result.is_ok());
}

#[test]
fn test_stats_performance() {
    let mut stats = IcapStats::new();
    let start = std::time::Instant::now();
    for _ in 0..100000 {
        stats.increment_requests();
        stats.increment_successful_responses();
    }
    let duration = start.elapsed();
    assert!(duration.as_millis() < 10, "Stats operations took {}ms, expected < 10ms", duration.as_millis());
}

#[test]
fn active_connections_wrap_below_zero() {
    let mut stats = IcapStats::new();
    stats.remove_connection();
    assert_eq!(stats.active_connections(), u64::MAX);
    stats.add_connection();
    assert_eq!(stats.active_connections(), 0);
    assert_eq!(stats.get_total_connections(), 1);
}

#[test]
fn domains_keywords_and_types() {
    assert!(is_blocked_domain("www.malware.com"));
    assert!(is_blocked_domain("virus.example"));
    assert!(!is_blocked_domain("example.com"));
    assert!(contains_blocked_keywords("Free TROJAN download"));
    assert!(contains_blocked_keywords("/path/Backdoor"));
    assert!(!contains_blocked_keywords("hello world"));
    assert!(is_blocked_mime_type("application/x-msdownload; charset=binary"));
    assert!(!is_blocked_mime_type("text/html"));
}

#[test]
fn content_filtering_checks_in_order() {
    let req = HttpRequest {
        method: "GET".to_string(),
        uri: "/virus-info".to_string(),
        headers: pairs(&[("Host", "www.spam.org"), ("Content-Type", "text/plain")]),
        body: Vec::new(),
    };
    let r = apply_basic_content_filtering(&req).unwrap();
    assert_eq!(r.status, 403);
    assert_eq!(r.headers.get("x-icap-error").map(|s| s.as_str()), Some("Blocked domain"));
    assert_eq!(r.body, b"Request blocked: blocked domain".to_vec());
    match apply_content_filtering(&req).unwrap() {
        FilterResult::Block(m) => assert_eq!(m, "Blocked domain: www.spam.org"),
        _ => panic!("expected a block"),
    }

    let req = HttpRequest {
        method: "GET".to_string(),
        uri: "/virus-info".to_string(),
        headers: pairs(&[("Host", "example.com")]),
        body: Vec::new(),
    };
    let r = apply_basic_content_filtering(&req).unwrap();
    assert_eq!(r.headers.get("x-icap-error").map(|s| s.as_str()), Some("Blocked keywords in URI"));

    let req = HttpRequest {
        method: "POST".to_string(),
        uri: "/upload".to_string(),
        headers: pairs(&[("Host", "example.com"), ("Content-Type", "application/x-executable")]),
        body: b"data".to_vec(),
    };
    match apply_content_filtering(&req).unwrap() {
        FilterResult::Block(m) => assert_eq!(m, "Blocked MIME type: application/x-executable"),
        _ => panic!("expected a block"),
    }

    let req = HttpRequest {
        method: "POST".to_string(),
        uri: "/upload".to_string(),
        headers: pairs(&[("Host", "example.com")]),
        body: b"this is SPAM content".to_vec(),
    };
    let r = apply_basic_content_filtering(&req).unwrap();
    assert_eq!(r.body, b"Request blocked: blocked keywords in content".to_vec());

    let req = HttpRequest {
        method: "GET".to_string(),
        uri: "/index.html".to_string(),
        headers: pairs(&[("Host", "example.com")]),
        body: b"hello".to_vec(),
    };
    let r = apply_basic_content_filtering(&req).unwrap();
    assert_eq!(r.status, 200);
    assert!(r.body.is_empty());
    assert!(matches!(apply_content_filtering(&req).unwrap(), FilterResult::Allow));
}

#[test]
fn antivirus_signatures_and_names() {
    let eicar = b"X5O!P%@AP[4\\PZX54(P^)7CC)7}$EICAR-STANDARD-ANTIVIRUS-TEST-FILE!$H+H*";
    assert!(contains_virus_signatures(eicar));
    assert_eq!(detect_virus_name(eicar), "EICAR-Test-File");
    assert_eq!(detect_virus_name(b"MZ\x90\x00"), "PE.Executable.Generic");
    assert_eq!(detect_virus_name(b"\x7fELF\x02"), "ELF.Executable.Generic");
    assert_eq!(detect_virus_name(b"#!/bin/sh\n"), "Shell.Script.Generic");
    assert_eq!(detect_virus_name(b"<html><script>x</script>"), "JavaScript.Generic");
    assert_eq!(detect_virus_name(b"x = eval(y)"), "Generic.Malware");
    assert!(!contains_virus_signatures(b"plain text"));
    assert!(contains_suspicious_patterns(b"run PowerShell -enc"));
    assert!(!contains_suspicious_patterns(b"nothing here"));
    assert!(is_executable_content(&pairs(&[("Content-Type", "application/octet-stream")]), b"data"));
    assert!(is_executable_content(&[], b"#!/usr/bin/env python"));
    assert!(!is_executable_content(&pairs(&[("Content-Type", "text/plain")]), b"text"));
}

#[test]
fn antivirus_scanning_answers() {
    let resp = HttpResponse {
        status_code: 200,
        status_text: "OK".to_string(),
        headers: pairs(&[("Content-Type", "text/html")]),
        body: b"<script>alert(1)</script>".to_vec(),
    };
    let r = apply_basic_antivirus_scanning(&resp).unwrap();
    assert_eq!(r.status, 403);
    assert_eq!(r.headers.get("x-icap-virus").map(|s| s.as_str()), Some("JavaScript.Generic"));
    assert_eq!(r.body, b"Response blocked: virus detected (JavaScript.Generic)".to_vec());
    match apply_antivirus_scanning(&resp).unwrap() {
        ScanResult::Infected(n) => assert_eq!(n, "JavaScript.Generic"),
        _ => panic!("expected a threat"),
    }
    let clean = HttpResponse {
        status_code: 200,
        status_text: "OK".to_string(),
        headers: pairs(&[("Content-Type", "text/html")]),
        body: b"<p>hello</p>".to_vec(),
    };
    assert_eq!(apply_basic_antivirus_scanning(&clean).unwrap().status, 200);
    assert!(matches!(apply_antivirus_scanning(&clean).unwrap(), ScanResult::Clean));
    let sus = HttpResponse {
        status_code: 200,
        status_text: "OK".to_string(),
        headers: Vec::new(),
        body: b"call CMD.EXE /c".to_vec(),
    };
    let r = apply_basic_antivirus_scanning(&sus).unwrap();
    assert_eq!(r.headers.get("x-icap-virus").map(|s| s.as_str()), Some("SuspiciousPattern.Generic"));
}

fn request(method: IcapMethod, encapsulated: Option<EncapsulatedData>) -> IcapRequest {
    let mut headers = HeaderMap::new();
    headers.insert("host", "example.com");
    IcapRequest {
        method,
        uri: "icap://example.com/service".to_string(),
        version: HttpVersion::Http11,
        headers,
        body: Vec::new(),
        encapsulated,
    }
}

#[test]
fn requests_are_counted_and_routed() {
    let generator = IcapResponseGenerator::default();
    let mut stats = IcapStats::new();

    let r = process_request(&generator, &mut stats, &request(IcapMethod::Options, None)).unwrap();
    assert_eq!(r.status, 200);
    assert_eq!(r.headers.get("x-antivirus-engine").map(|s| s.as_str()), Some("YARA"));
    assert_eq!(stats.total_requests(), 1);
    assert_eq!(stats.options_requests(), 1);

    let r = process_request(&generator, &mut stats, &request(IcapMethod::Reqmod, None)).unwrap();
    assert_eq!(r.status, 400);
    assert_eq!(stats.reqmod_requests(), 1);

    let mut hdr = HeaderMap::new();
    hdr.insert("Host", "www.malware.com");
    let enc = EncapsulatedData { req_hdr: Some(hdr), req_body: None, res_hdr: None, res_body: None, null_body: false };
    let r = process_request(&generator, &mut stats, &request(IcapMethod::Reqmod, Some(enc))).unwrap();
    assert_eq!(r.status, 403);

    let enc = EncapsulatedData { req_hdr: None, req_body: None, res_hdr: None, res_body: None, null_body: true };
    let e = process_request(&generator, &mut stats, &request(IcapMethod::Respmod, Some(enc))).unwrap_err();
    match e {
        g3icap::error::IcapError::Protocol(m) => assert_eq!(m, "No response headers in encapsulated data"),
        _ => panic!("expected a protocol error"),
    }
    assert_eq!(stats.respmod_requests(), 1);
    assert_eq!(stats.total_requests(), 4);
}

#[test]
fn test_handle_options_request() {
    let generator = IcapResponseGenerator::new("G3ICAP/1.0.0".to_string(), "g3icap-1.0.0".to_string());
    let mut headers = HeaderMap::new();
    headers.insert("host", "example.com");
    headers.insert("user-agent", "test-client");
    let request = IcapRequest {
        method: IcapMethod::Options,
        uri: "icap://example.com/options".to_string(),
        version: HttpVersion::Http11,
        headers,
        body: Vec::new(),
        encapsulated: None,
    };
    let response = handle_options_request(&generator, &request).unwrap();
    assert_eq!(response.status, 200);
    assert_eq!(response.version, HttpVersion::Http11);
    assert!(response.headers.contains_key("istag"));
    assert!(response.headers.contains_key("methods"));
    assert!(response.headers.contains_key("service"));
}

#[test]
fn test_invalid_uri_handling() {
    let data = b"OPTIONS invalid-uri ICAP/1.0\r\nHost: example.com\r\n\r\n";
    let result = IcapParser::parse_request(data);
    assert!(result.is_err());
}

#[test]
fn sent_answers_count_by_status() {
    let mut stats = IcapStats::new();
    stats.record_response(200);
    stats.record_response(204);
    stats.record_response(299);
    stats.record_response(300);
    stats.record_response(403);
    stats.record_response(199);
    assert_eq!(stats.successful_responses(), 3);
    assert_eq!(stats.error_responses(), 3);
}
