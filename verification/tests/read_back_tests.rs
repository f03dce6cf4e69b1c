use g3icap::protocol::common::{EncapsulatedData, HttpVersion, IcapMethod, IcapRequest};
use g3icap::protocol::fields::HeaderMap;
use g3icap::protocol::headers::IcapHeaders;
use g3icap::protocol::ip::{parse_ip, IpAddr};
use g3icap::protocol::streaming::PassThroughFilter;
use g3icap::protocol::workflows::{filter_outcome, ReqmodWorkflow, RespmodWorkflow};
use g3icap::error::IcapError;

fn fields(pairs: &[(&str, &str)]) -> HeaderMap {
    let mut h = HeaderMap::new();
    for (n, v) in pairs {
        h.insert(n, v);
    }
    h
}

fn workflow_request(method: IcapMethod, encapsulated: EncapsulatedData) -> IcapRequest {
    IcapRequest {
        method,
        uri: "icap://example.com/mod".to_string(),
        version: HttpVersion::Http10,
        headers: HeaderMap::new(),
        body: Vec::new(),
        encapsulated: Some(encapsulated),
    }
}

#[test]
fn pass_through_keeps_request_fields_unchanged() {
    let mut workflow = ReqmodWorkflow::new(1024);
    workflow.add_content_filter(PassThroughFilter);
    let e = EncapsulatedData {
        req_hdr: Some(fields(&[("host", "example.org"), ("user-agent", "curl/8.0"), ("accept", "*/*"), ("x-empty", "")])),
        req_body: Some(b"plain body".to_vec()),
        res_hdr: None,
        res_body: None,
        null_body: false,
    };
    let response = workflow.process_request(&workflow_request(IcapMethod::Reqmod, e)).unwrap();
    assert_eq!(response.status, 204);
    assert_eq!(response.headers.get("istag").unwrap(), "\"g3icap-unchanged\"");
}

#[test]
fn pass_through_keeps_response_fields_unchanged() {
    let mut workflow = RespmodWorkflow::new(1024);
    workflow.add_content_filter(PassThroughFilter);
    let e = EncapsulatedData {
        req_hdr: Some(fields(&[("host", "example.org")])),
        req_body: None,
        res_hdr: Some(fields(&[("content-type", "text/plain; charset=utf-8"), ("content-length", "5")])),
        res_body: Some(b"hello".to_vec()),
        null_body: false,
    };
    let response = workflow.process_request(&workflow_request(IcapMethod::Respmod, e)).unwrap();
    assert_eq!(response.status, 204);
}

#[test]
fn ip_text_reads_back() {
    let addrs = [
        IpAddr::V4(0, 0, 0, 0),
        IpAddr::V4(192, 168, 100, 255),
        IpAddr::V6(0, 0, 0, 0, 0, 0, 0, 0),
        IpAddr::V6(0, 0, 0, 0, 0, 0, 0, 1),
        IpAddr::V6(0x2001, 0xdb8, 0, 0, 1, 0, 0, 1),
        IpAddr::V6(0x2001, 0xdb8, 0x85a3, 0x1, 0x2, 0x8a2e, 0x370, 0x7334),
        IpAddr::V6(0, 0, 0, 0, 0, 0xffff, 0xc0a8, 0x0101),
        IpAddr::V6(1, 0, 2, 0, 3, 0, 4, 0),
        IpAddr::V6(0xfe80, 0, 0, 0, 0, 0, 0, 0),
    ];
    for a in addrs {
        let text = a.to_string();
        assert_eq!(parse_ip(&text), Some(a), "{}", text);
    }
    assert_eq!(IpAddr::V6(0, 0, 0, 0, 0, 0xffff, 0xc0a8, 0x0101).to_string(), "::ffff:192.168.1.1");
    assert_eq!(IpAddr::V6(0x2001, 0xdb8, 0, 0, 1, 0, 0, 1).to_string(), "2001:db8::1:0:0:1");
    assert_eq!(IpAddr::V6(0xfe80, 0, 0, 0, 0, 0, 0, 0).to_string(), "fe80::");
}

#[test]
fn icap_fields_read_back() {
    let mut h = IcapHeaders::new();
    h.icap_client_ip = Some(IpAddr::V4(10, 0, 0, 7));
    h.icap_server_ip = Some(IpAddr::V6(0x2001, 0xdb8, 0, 0, 0, 0, 0, 2));
    h.icap_request_id = Some("req-42".to_string());
    h.preview = Some(4096);
    h.istag = Some("\"tag-1\"".to_string());
    h.max_connections = Some(100);
    h.options_ttl = Some(0);
    h.transfer_ignore = Some("exe, bat".to_string());
    let back = IcapHeaders::from_http_headers(&h.to_http_headers());
    assert_eq!(back.icap_version, h.icap_version);
    assert_eq!(back.icap_client_ip, h.icap_client_ip);
    assert_eq!(back.icap_server_ip, h.icap_server_ip);
    assert_eq!(back.icap_request_id, h.icap_request_id);
    assert_eq!(back.encapsulated, None);
    assert_eq!(back.preview, Some(4096));
    assert_eq!(back.istag, h.istag);
    assert_eq!(back.max_connections, Some(100));
    assert_eq!(back.options_ttl, Some(0));
    assert_eq!(back.transfer_ignore, h.transfer_ignore);
    assert_eq!(back.update, None);
}

#[test]
fn filter_outcome_passes_data_and_turns_failure_into_service_error() {
    assert_eq!(filter_outcome(Ok(b"abc".to_vec())).unwrap(), b"abc".to_vec());
    match filter_outcome(Err("bad data".to_string())) {
        Err(IcapError::Service(m)) => assert_eq!(m, "bad data"),
        other => panic!("unexpected {:?}", other),
    }
}

#[test]
fn missing_version_reads_back_as_default() {
    let mut h = IcapHeaders::new();
    h.icap_version = None;
    h.service = Some("Echo".to_string());
    let back = IcapHeaders::from_http_headers(&h.to_http_headers());
    assert_eq!(back.icap_version, Some("ICAP/1.0".to_string()));
    assert_eq!(back.service, Some("Echo".to_string()));
}
