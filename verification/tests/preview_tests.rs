use g3icap::error::IcapError;
use g3icap::protocol::common::{EncapsulatedData, HttpVersion, IcapMethod, IcapRequest};
use g3icap::protocol::fields::HeaderMap;
use g3icap::protocol::preview::{PreviewHandler, PreviewResponse};

fn request(fields: &[(&str, &str)], encapsulated: Option<EncapsulatedData>) -> IcapRequest {
    let mut headers = HeaderMap::new();
    for (n, v) in fields {
        headers.insert(n, v);
    }
    IcapRequest {
        method: IcapMethod::Reqmod,
        uri: "icap://example.com/reqmod".to_string(),
        version: HttpVersion::Http11,
        headers,
        body: Vec::new(),
        encapsulated,
    }
}

fn protocol_message(e: IcapError) -> String {
    match e {
        IcapError::Protocol(m) => m,
        other => panic!("expected a protocol error, got {:?}", other),
    }
}

#[test]
fn no_preview_field_means_no_preview() {
    let h = PreviewHandler::new(4096);
    assert_eq!(h.handle_preview(&request(&[], None)).unwrap(), PreviewResponse::NoPreview);
    assert_eq!(h.handle_preview(&request(&[("Preview", "0")], None)).unwrap(), PreviewResponse::NoPreview);
}

#[test]
fn small_content_is_processed_at_once() {
    let h = PreviewHandler::new(4096);
    let r = h.handle_preview(&request(&[("Preview", "1024"), ("Content-Length", "1024")], None)).unwrap();
    assert_eq!(r, PreviewResponse::ProcessImmediately);
    let enc = EncapsulatedData {
        req_hdr: None,
        req_body: Some(vec![b'a'; 10]),
        res_hdr: None,
        res_body: Some(vec![b'b'; 20]),
        null_body: false,
    };
    let r = h.handle_preview(&request(&[("Preview", "30")], Some(enc))).unwrap();
    assert_eq!(r, PreviewResponse::ProcessImmediately);
}

#[test]
fn large_content_uses_preview() {
    let h = PreviewHandler::new(4096);
    let r = h.handle_preview(&request(&[("Preview", "+16"), ("Content-Length", "100")], None)).unwrap();
    assert_eq!(r, PreviewResponse::UsePreview { preview_size: 16, content_size: 100 });
}

#[test]
fn bad_sizes_are_protocol_errors() {
    let h = PreviewHandler::new(4096);
    let e = h.handle_preview(&request(&[("Preview", "abc")], None)).unwrap_err();
    assert_eq!(protocol_message(e), "Invalid preview size: invalid digit found in string");
    let e = h.handle_preview(&request(&[("Preview", "")], None)).unwrap_err();
    assert_eq!(protocol_message(e), "Invalid preview size: cannot parse integer from empty string");
    let e = h.handle_preview(&request(&[("Preview", "99999999999999999999999")], None)).unwrap_err();
    assert_eq!(protocol_message(e), "Invalid preview size: number too large to fit in target type");
    let e = h.handle_preview(&request(&[("Preview", "10"), ("Content-Length", "-1")], None)).unwrap_err();
    assert_eq!(protocol_message(e), "Invalid content length: invalid digit found in string");
    let e = h.handle_preview(&request(&[("Preview", "1\u{7f}")], None)).unwrap_err();
    assert_eq!(protocol_message(e), "Invalid preview header: failed to convert header to a str");
}

#[test]
fn preview_and_final_responses() {
    let h = PreviewHandler::new(4096);
    let r = h.create_preview_response(512);
    assert_eq!(r.status, 100);
    assert_eq!(r.headers.get("istag").unwrap(), "\"g3icap-preview\"");
    assert_eq!(r.headers.get("preview").unwrap(), "512");
    assert_eq!(r.headers.get("connection").unwrap(), "close");
    assert!(r.body.is_empty());
    let f = h.create_final_response(200, Some(b"done".to_vec()));
    assert_eq!(f.status, 200);
    assert_eq!(f.headers.get("istag").unwrap(), "\"g3icap-final\"");
    assert_eq!(f.body, b"done".to_vec());
    assert!(h.create_final_response(204, None).body.is_empty());
}
