use std::collections::HashMap;

use g3icap::error::IcapError;
use g3icap::protocol::common::{EncapsulatedData, HttpVersion, IcapMethod, IcapRequest, IcapResponse, IcapService};
use g3icap::protocol::fields::HeaderMap;
use g3icap::protocol::options::{DefaultOptionsHandler, OptionsHandler, OptionsService};
use g3icap::protocol::reqmod::{DefaultReqmodHandler, ReqmodHandler, ReqmodService};
use g3icap::protocol::respmod::{DefaultRespmodHandler, RespmodHandler, RespmodService};
use g3icap::protocol::streaming::{KeywordFilter, PassThroughFilter};
use g3icap::protocol::workflows::{ReqmodWorkflow, RespmodWorkflow};
use g3icap::server::handler::ContentFilterHandler;
use g3icap::service::ServiceRegistry;

fn request(method: IcapMethod, uri: &str, fields: &[(&str, &str)], encapsulated: Option<EncapsulatedData>) -> IcapRequest {
    let mut headers = HeaderMap::new();
    for (n, v) in fields {
        headers.insert(n, v);
    }
    IcapRequest { method, uri: uri.to_string(), version: HttpVersion::Http11, headers, body: Vec::new(), encapsulated }
}

fn message(e: IcapError) -> String {
    match e {
        IcapError::Protocol(m) | IcapError::Service(m) => m,
        other => panic!("unexpected {:?}", other),
    }
}

#[test]
fn test_default_reqmod_handler_has_encapsulated_header() {
    let handler = DefaultReqmodHandler;
    let enc = EncapsulatedData { req_hdr: None, res_hdr: None, req_body: None, res_body: None, null_body: true };
    let request = request(IcapMethod::Reqmod, "icap://example.com/reqmod", &[], Some(enc));
    let response = handler.handle_reqmod(&request).unwrap();
    assert!(response.headers.contains_key("Encapsulated"));
    assert_eq!(response.headers.get("Encapsulated").unwrap(), "null-body=0");
    assert!(response.headers.contains_key("ISTag"));
    assert_eq!(response.headers.get("ISTag").unwrap(), "\"DefaultReqmodHandler-1\"");
    assert_eq!(response.status, 204);
    assert!(response.encapsulated.unwrap().null_body);
}

#[test]
fn test_reqmod_service_validates_method() {
    let service = ReqmodService::new(DefaultReqmodHandler);
    let request = request(IcapMethod::Respmod, "icap://example.com/reqmod", &[], None);
    let result = service.process_request(&request);
    assert!(result.is_err());
    assert!(message(result.unwrap_err()).contains("Expected REQMOD method"));
}

struct CustomHandler;

impl ReqmodHandler for CustomHandler {
    fn handle_reqmod(&self, _request: &IcapRequest) -> Result<IcapResponse, IcapError> {
        Ok(IcapResponse {
            status: 204,
            version: HttpVersion::Http11,
            headers: HeaderMap::new(),
            body: Vec::new(),
            encapsulated: None,
        })
    }
}

#[test]
fn test_reqmod_service_ensures_required_headers() {
    let service = ReqmodService::new(CustomHandler);
    let request = request(IcapMethod::Reqmod, "icap://example.com/reqmod", &[], None);
    let response = service.process_request(&request).unwrap();
    assert!(response.headers.contains_key("ISTag"));
    assert!(response.headers.contains_key("Encapsulated"));
    assert_eq!(response.headers.get("Encapsulated").unwrap(), "null-body=0");
}

#[test]
fn test_default_respmod_handler_has_required_headers() {
    let handler = DefaultRespmodHandler;
    let request = request(IcapMethod::Respmod, "icap://example.com/respmod", &[], None);
    let response = handler.handle_respmod(&request).unwrap();
    assert!(response.headers.contains_key("ISTag"));
    assert_eq!(response.headers.get("ISTag").unwrap(), "\"DefaultRespmod-1\"");
    assert!(response.headers.contains_key("Encapsulated"));
    assert_eq!(response.headers.get("Encapsulated").unwrap(), "null-body=0");
    assert_eq!(response.status, 204);
}

#[test]
fn test_respmod_service_validates_method() {
    let service = RespmodService::new(DefaultRespmodHandler);
    let request = request(IcapMethod::Reqmod, "icap://example.com/respmod", &[], None);
    let result = service.process_request(&request);
    assert!(result.is_err());
    assert!(message(result.unwrap_err()).contains("Expected RESPMOD"));
}

fn registry() -> ServiceRegistry {
    let mut reg = ServiceRegistry::new();
    let av = IcapService {
        name: "av".to_string(),
        description: "Antivirus".to_string(),
        methods: vec![IcapMethod::Respmod, IcapMethod::Options],
        options: HashMap::new(),
    };
    let filter = IcapService {
        name: "filter".to_string(),
        description: "URL filter".to_string(),
        methods: vec![IcapMethod::Reqmod, IcapMethod::Options],
        options: HashMap::new(),
    };
    reg.register_service("av".to_string(), av).unwrap();
    reg.register_service("filter".to_string(), filter).unwrap();
    reg
}

#[test]
fn test_default_options_handler_has_required_headers() {
    let handler = DefaultOptionsHandler::new(ServiceRegistry::new());
    let request = request(IcapMethod::Options, "icap://example.com/options", &[], None);
    let response = handler.handle_options(&request).unwrap();
    assert!(response.headers.contains_key("ISTag"));
    assert!(response.headers.contains_key("Methods"));
    assert!(response.headers.contains_key("Service"));
    assert!(response.headers.contains_key("Service-ID"));
    assert!(response.headers.contains_key("Encapsulated"));
    assert_eq!(response.headers.get("Encapsulated").unwrap(), "opt-body=0");
    assert_eq!(response.status, 200);
}

#[test]
fn options_list_methods_and_services() {
    let handler = DefaultOptionsHandler::new(registry());
    let request = request(IcapMethod::Options, "icap://example.com/options", &[], None);
    let response = handler.handle_options(&request).unwrap();
    assert_eq!(response.headers.get("Methods").unwrap(), "OPTIONS, REQMOD, RESPMOD");
    assert_eq!(response.body, b"av: Antivirus\nfilter: URL filter\n".to_vec());
    let date = response.headers.get("Date").unwrap();
    assert!(date.ends_with(" GMT"));
    assert_eq!(response.headers.get("Max-Connections").unwrap(), "1000");
}

#[test]
fn test_options_service_validates_method() {
    let service = OptionsService::new(DefaultOptionsHandler::new(ServiceRegistry::new()));
    let request = request(IcapMethod::Reqmod, "icap://example.com/options", &[], None);
    let result = service.process_request(&request);
    assert!(result.is_err());
    assert!(message(result.unwrap_err()).contains("Expected OPTIONS method"));
}

#[test]
fn content_filter_blocks_hosts_and_paths() {
    let handler = ContentFilterHandler::new(vec!["bad.example".to_string()], vec!["Casino".to_string()]);
    let r = request(IcapMethod::Reqmod, "icap://proxy/reqmod", &[("Host", "www.bad.example")], None);
    let resp = g3icap::protocol::reqmod::ReqmodHandler::handle_reqmod(&handler, &r).unwrap();
    assert_eq!(resp.status, 403);
    assert_eq!(resp.body, b"Request blocked by content filter".to_vec());

    let r = request(IcapMethod::Reqmod, "icap://proxy/online-casino", &[("Host", "ok.example")], None);
    assert!(handler.should_block_request(&r));

    let r = request(
        IcapMethod::Reqmod,
        "icap://proxy/reqmod",
        &[("Host", "ok.example"), ("Encapsulated", "req-hdr=0"), ("X-Client-IP", "10.1.2.3"), ("Other", "x")],
        None,
    );
    let resp = g3icap::protocol::reqmod::ReqmodHandler::handle_reqmod(&handler, &r).unwrap();
    assert_eq!(resp.status, 204);
    assert_eq!(resp.headers.get("host").unwrap(), "ok.example");
    assert_eq!(resp.headers.get("encapsulated").unwrap(), "req-hdr=0");
    assert_eq!(resp.headers.get("x-client-ip").unwrap(), "10.1.2.3");
    assert!(!resp.headers.contains_key("other"));
}

#[test]
fn content_filter_blocks_response_bodies() {
    let handler = ContentFilterHandler::new(vec![], vec!["GAMBLING".to_string()]);
    let enc = EncapsulatedData {
        req_hdr: None,
        req_body: None,
        res_hdr: None,
        res_body: Some(b"<p>Online Gambling here</p>".to_vec()),
        null_body: false,
    };
    let r = request(IcapMethod::Respmod, "icap://proxy/respmod", &[], Some(enc));
    let resp = g3icap::protocol::respmod::RespmodHandler::handle_respmod(&handler, &r).unwrap();
    assert_eq!(resp.status, 403);
    assert_eq!(resp.body, b"Response blocked by content filter".to_vec());
    let r = request(IcapMethod::Respmod, "icap://proxy/respmod", &[], None);
    assert!(!handler.should_block_response(&r));
}

fn enc(req_body: &[u8], res: Option<&[u8]>) -> EncapsulatedData {
    EncapsulatedData {
        req_hdr: Some(HeaderMap::new()),
        req_body: Some(req_body.to_vec()),
        res_hdr: res.map(|_| HeaderMap::new()),
        res_body: res.map(|b| b.to_vec()),
        null_body: false,
    }
}

#[test]
fn test_reqmod_workflow() {
    let mut workflow = ReqmodWorkflow::new(1024 * 1024);
    workflow.add_content_filter(PassThroughFilter);
    let request = request(IcapMethod::Reqmod, "icap://example.com/reqmod", &[], Some(enc(b"test content", None)));
    let response = workflow.process_request(&request).unwrap();
    assert_eq!(response.status, 204);
}

#[test]
fn test_respmod_workflow() {
    let mut workflow = RespmodWorkflow::new(1024 * 1024);
    workflow.add_content_filter(PassThroughFilter);
    let request = request(
        IcapMethod::Respmod,
        "icap://example.com/respmod",
        &[],
        Some(enc(b"request content", Some(b"response content"))),
    );
    let response = workflow.process_request(&request).unwrap();
    assert_eq!(response.status, 204);
}

#[test]
fn test_blocked_request() {
    let mut workflow = ReqmodWorkflow::new(1024 * 1024);
    workflow.add_content_filter(PassThroughFilter);
    let request =
        request(IcapMethod::Reqmod, "icap://example.com/reqmod", &[], Some(enc(b"This contains malware content", None)));
    let response = workflow.process_request(&request).unwrap();
    assert_eq!(response.status, 403);
    assert_eq!(response.headers.get("x-block-reason").unwrap(), "Blocked content pattern");
    assert_eq!(response.body, b"Request blocked: Blocked content pattern".to_vec());
}

#[test]
fn workflow_refusals() {
    let workflow: ReqmodWorkflow<PassThroughFilter> = ReqmodWorkflow::new(4);
    let r = request(IcapMethod::Respmod, "icap://e/x", &[], None);
    assert_eq!(message(workflow.process_request(&r).unwrap_err()), "WORKFLOW: Expected REQMOD method");
    let r = request(IcapMethod::Reqmod, "icap://e/x", &[], None);
    assert_eq!(message(workflow.process_request(&r).unwrap_err()), "WORKFLOW: REQMOD request must have encapsulated data");
    let r = request(IcapMethod::Reqmod, "icap://e/x", &[], Some(enc(b"12345", None)));
    assert_eq!(message(workflow.process_request(&r).unwrap_err()), "Request body too large: 5 bytes (max: 4)");
    let mut e = enc(b"", None);
    e.req_hdr = None;
    let r = request(IcapMethod::Reqmod, "icap://e/x", &[], Some(e));
    assert_eq!(message(workflow.process_request(&r).unwrap_err()), "WORKFLOW: No request headers in encapsulated data");
    let rw: RespmodWorkflow<PassThroughFilter> = RespmodWorkflow::new(1024);
    let r = request(IcapMethod::Respmod, "icap://e/x", &[], Some(enc(b"", None)));
    assert_eq!(message(rw.process_request(&r).unwrap_err()), "WORKFLOW: No response headers in encapsulated data");
}

#[test]
fn workflow_modifications_are_returned() {
    let mut workflow = ReqmodWorkflow::new(1024);
    workflow.add_content_filter(KeywordFilter::new(vec!["secret".to_string()], "******".to_string()));
    let mut e = enc(b"my secret plan", None);
    let mut h = HeaderMap::new();
    h.insert("X-Note", "secret");
    e.req_hdr = Some(h);
    let r = request(IcapMethod::Reqmod, "icap://e/x", &[], Some(e));
    let resp = workflow.process_request(&r).unwrap();
    assert_eq!(resp.status, 200);
    assert_eq!(resp.headers.get("istag").unwrap(), "\"g3icap-modified\"");
    let out = resp.encapsulated.unwrap();
    assert_eq!(out.req_body.unwrap(), b"my ****** plan".to_vec());
    let hdr = out.req_hdr.unwrap();
    assert_eq!(hdr.get("x-request-line").unwrap(), "GET / HTTP/1.1");
    assert_eq!(hdr.get("x-note").unwrap(), "******");

    let mut rw = RespmodWorkflow::new(1024);
    rw.add_content_filter(PassThroughFilter);
    let mut e = enc(b"", Some(b"fine"));
    let mut h = HeaderMap::new();
    h.insert("X-Malicious", "1");
    e.res_hdr = Some(h);
    let r = request(IcapMethod::Respmod, "icap://e/x", &[], Some(e));
    let resp = rw.process_request(&r).unwrap();
    assert_eq!(resp.status, 403);
    assert_eq!(resp.body, b"Response blocked: Blocked header pattern in response".to_vec());
}

#[test]
fn workflows_without_filters_answer_without_change() {
    let workflow: ReqmodWorkflow<PassThroughFilter> = ReqmodWorkflow::new(1024);
    let r = request(IcapMethod::Reqmod, "icap://e/x", &[], Some(enc(b"plain text", None)));
    assert_eq!(workflow.process_request(&r).unwrap().status, 204);
    let r = request(IcapMethod::Reqmod, "icap://e/x", &[], Some(enc(b"carries malware", None)));
    assert_eq!(workflow.process_request(&r).unwrap().status, 403);
    let rw: RespmodWorkflow<PassThroughFilter> = RespmodWorkflow::new(1024);
    let r = request(IcapMethod::Respmod, "icap://e/x", &[], Some(enc(b"", Some(b"page"))));
    assert_eq!(rw.process_request(&r).unwrap().status, 204);
}
