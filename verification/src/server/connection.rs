//! What a connection decides about a request: the OPTIONS answer, and the
//! content-filtering and antivirus rules for REQMOD and RESPMOD.

use vstd::prelude::*;
use vstd::utf8::{encode_utf8, valid_utf8, decode_utf8};
use crate::protocol::fields::{HeaderMap, FieldView, set_field};
use crate::protocol::common::{
    IcapMethod, HttpVersion, IcapRequest, IcapResponse, EncapsulatedData, is_visible_text, is_visible_exec,
};
use crate::protocol::parser::{ResponseModel, response_view};
use crate::protocol::response_generator::{IcapResponseGenerator, GenModel, options_model, bad_request_model, caps_view, text_bytes};
use crate::stats::{IcapStats, StatsCounts, wrap_add};
use crate::text::{
    contains_seq, starts_with_seq, contains_seq_nocase, contains_bytes, starts_with_bytes,
    contains_bytes_nocase, contains_str, str_eq,
};
use crate::bridge::{unicode_lower, to_lowercase, lossy_text, utf8_lossy};
use crate::error::IcapError;

verus! {

/// An HTTP request as the filters see it.
#[derive(Clone, Debug)]
pub struct HttpRequest {
    pub method: String,
    pub uri: String,
    pub headers: Vec<(String, String)>,
    pub body: Vec<u8>,
}

/// An HTTP response as the scanner sees it.
#[derive(Clone, Debug)]
pub struct HttpResponse {
    pub status_code: u16,
    pub status_text: String,
    pub headers: Vec<(String, String)>,
    pub body: Vec<u8>,
}

/// What content filtering decides.
#[derive(Clone, Debug)]
pub enum FilterResult {
    Allow,
    Block(String),
    Modify(EncapsulatedData),
}

/// What antivirus scanning decides.
#[derive(Clone, Debug)]
pub enum ScanResult {
    Clean,
    Infected(String),
    Modified(EncapsulatedData),
}

pub open spec fn pairs_view(v: Seq<(String, String)>) -> Seq<(Seq<char>, Seq<char>)> {
    Seq::new(v.len(), |i: int| (v[i].0@, v[i].1@))
}

/// The fields whose value is visible text, in order.
pub open spec fn visible_fields(s: Seq<FieldView>) -> Seq<(Seq<char>, Seq<char>)>
    decreases s.len(),
{
    if s.len() == 0 {
        Seq::empty()
    } else if is_visible_text(s.last().1) {
        visible_fields(s.drop_last()).push(s.last())
    } else {
        visible_fields(s.drop_last())
    }
}

fn visible_pairs(h: &HeaderMap) -> (r: Vec<(String, String)>)
    ensures
        pairs_view(r@) == visible_fields(h@),
{
    let mut out: Vec<(String, String)> = Vec::new();
    let mut i: usize = 0;
    while i < h.len()
        invariant
            i <= h@.len(),
            pairs_view(out@) == visible_fields(h@.subrange(0, i as int)),
        decreases h@.len() - i,
    {
        let (n, v) = h.entry(i);
        let ghost before = pairs_view(out@);
        if is_visible_exec(v.as_str()) {
            out.push((n.clone(), v.clone()));
            proof {
                assert(pairs_view(out@) =~= before.push((n@, v@)));
            }
        }
        proof {
            let s = h@.subrange(0, i + 1);
            assert(s.drop_last() =~= h@.subrange(0, i as int));
        }
        i = i + 1;
    }
    proof {
        assert(h@.subrange(0, h@.len() as int) =~= h@);
    }
    out
}

pub open spec fn body_or_empty(b: Option<Vec<u8>>) -> Seq<u8> {
    match b {
        Some(v) => v@,
        None => Seq::empty(),
    }
}

/// The HTTP request of REQMOD data: its visible header fields and its body;
/// the method and URI are taken as `GET /`.
pub fn parse_http_request_from_encapsulated(encapsulated: &EncapsulatedData) -> (r: Result<HttpRequest, IcapError>)
    ensures
        match encapsulated.req_hdr {
            None => r matches Err(IcapError::Protocol(m)) && m@ == "No request headers in encapsulated data"@,
            Some(h) => r matches Ok(q) && q.method@ == "GET"@ && q.uri@ == "/"@ && pairs_view(q.headers@)
                == visible_fields(h@) && q.body@ == body_or_empty(encapsulated.req_body),
        },
{
    let h = match &encapsulated.req_hdr {
        None => {
            return Err(IcapError::Protocol(String::from_str("No request headers in encapsulated data")));
        },
        Some(h) => h,
    };
    let body = match &encapsulated.req_body {
        Some(b) => b.clone(),
        None => Vec::new(),
    };
    Ok(HttpRequest { method: String::from_str("GET"), uri: String::from_str("/"), headers: visible_pairs(h), body })
}

/// The HTTP response of RESPMOD data: its visible header fields and its
/// body; the status is taken as `200 OK`.
pub fn parse_http_response_from_encapsulated(encapsulated: &EncapsulatedData) -> (r: Result<HttpResponse, IcapError>)
    ensures
        match encapsulated.res_hdr {
            None => r matches Err(IcapError::Protocol(m)) && m@ == "No response headers in encapsulated data"@,
            Some(h) => r matches Ok(q) && q.status_code == 200 && q.status_text@ == "OK"@ && pairs_view(
                q.headers@,
            ) == visible_fields(h@) && q.body@ == body_or_empty(encapsulated.res_body),
        },
{
    let h = match &encapsulated.res_hdr {
        None => {
            return Err(IcapError::Protocol(String::from_str("No response headers in encapsulated data")));
        },
        Some(h) => h,
    };
    let body = match &encapsulated.res_body {
        Some(b) => b.clone(),
        None => Vec::new(),
    };
    Ok(HttpResponse { status_code: 200, status_text: String::from_str("OK"), headers: visible_pairs(h), body })
}

/// The index of the first pair whose name lower-cases to `name`.
pub open spec fn find_named(s: Seq<(Seq<char>, Seq<char>)>, name: Seq<char>, i: int) -> Option<int>
    decreases s.len() - i,
{
    if i < 0 || i >= s.len() {
        None
    } else if unicode_lower(s[i].0) == name {
        Some(i)
    } else {
        find_named(s, name, i + 1)
    }
}

/// The value of the first pair whose name lower-cases to `name`.
pub open spec fn named_value(s: Seq<(Seq<char>, Seq<char>)>, name: Seq<char>) -> Option<Seq<char>> {
    match find_named(s, name, 0) {
        Some(i) => Some(s[i].1),
        None => None,
    }
}

fn named_value_exec(headers: &[(String, String)], name: &str) -> (r: Option<String>)
    ensures
        match named_value(pairs_view(headers@), name@) {
            Some(v) => r matches Some(s) && s@ == v,
            None => r is None,
        },
{
    let ghost s = pairs_view(headers@);
    let mut i: usize = 0;
    while i < headers.len()
        invariant
            i <= headers@.len(),
            s == pairs_view(headers@),
            find_named(s, name@, 0) == find_named(s, name@, i as int),
        decreases headers@.len() - i,
    {
        let l = to_lowercase(headers[i].0.as_str());
        if str_eq(l.as_str(), name) {
            return Some(headers[i].1.clone());
        }
        i = i + 1;
    }
    None
}

/// The Host field of a request.
pub fn extract_host(headers: &[(String, String)]) -> (r: Option<String>)
    ensures
        match named_value(pairs_view(headers@), "host"@) {
            Some(v) => r matches Some(s) && s@ == v,
            None => r is None,
        },
{
    named_value_exec(headers, "host")
}

/// The Content-Type field of a message.
pub fn extract_content_type(headers: &[(String, String)]) -> (r: Option<String>)
    ensures
        match named_value(pairs_view(headers@), "content-type"@) {
            Some(v) => r matches Some(s) && s@ == v,
            None => r is None,
        },
{
    named_value_exec(headers, "content-type")
}

/// The Content-Type field of a response.
pub fn extract_content_type_from_headers(headers: &[(String, String)]) -> (r: Option<String>)
    ensures
        match named_value(pairs_view(headers@), "content-type"@) {
            Some(v) => r matches Some(s) && s@ == v,
            None => r is None,
        },
{
    named_value_exec(headers, "content-type")
}

/// A host that names one of the blocked domains.
pub open spec fn blocked_domain(host: Seq<char>) -> bool {
    ||| contains_seq(host, "malware.com"@)
    ||| contains_seq(host, "phishing.net"@)
    ||| contains_seq(host, "spam.org"@)
    ||| contains_seq(host, "virus.example"@)
}

/// True when the host names a blocked domain.
pub fn is_blocked_domain(host: &str) -> (r: bool)
    ensures
        r == blocked_domain(host@),
{
    contains_str(host, "malware.com") || contains_str(host, "phishing.net") || contains_str(host, "spam.org")
        || contains_str(host, "virus.example")
}

/// Text that holds a blocked keyword once lower-cased.
pub open spec fn blocked_keywords(content: Seq<char>) -> bool {
    let l = unicode_lower(content);
    ||| contains_seq(l, "malware"@)
    ||| contains_seq(l, "virus"@)
    ||| contains_seq(l, "phishing"@)
    ||| contains_seq(l, "spam"@)
    ||| contains_seq(l, "trojan"@)
    ||| contains_seq(l, "backdoor"@)
}

/// True when the text holds a blocked keyword, case ignored.
pub fn contains_blocked_keywords(content: &str) -> (r: bool)
    ensures
        r == blocked_keywords(content@),
{
    let l = to_lowercase(content);
    let t = l.as_str();
    contains_str(t, "malware") || contains_str(t, "virus") || contains_str(t, "phishing") || contains_str(t, "spam")
        || contains_str(t, "trojan") || contains_str(t, "backdoor")
}

/// A content type that names a blocked executable type.
pub open spec fn blocked_mime(ct: Seq<char>) -> bool {
    ||| contains_seq(ct, "application/x-executable"@)
    ||| contains_seq(ct, "application/x-msdownload"@)
    ||| contains_seq(ct, "application/x-msdos-program"@)
}

/// True when the content type names a blocked executable type.
pub fn is_blocked_mime_type(content_type: &str) -> (r: bool)
    ensures
        r == blocked_mime(content_type@),
{
    contains_str(content_type, "application/x-executable") || contains_str(content_type, "application/x-msdownload")
        || contains_str(content_type, "application/x-msdos-program")
}

/// Largest request body that the filter lets through (10 MiB).
pub const MAX_FILTERED_BODY: usize = 10485760;

/// Largest response body that the scanner lets through (50 MiB).
pub const MAX_SCANNED_BODY: usize = 52428800;

/// Why content filtering blocks a request, if it does: a blocked domain in
/// the Host field, a keyword in the URI, a blocked content type, a body over
/// 10 MiB, a keyword in the body; checked in that order.
pub ghost enum BlockReason {
    Domain(Seq<char>),
    UriKeyword,
    Mime(Seq<char>),
    TooLarge,
    BodyKeyword,
}

pub open spec fn filter_decision(host: Option<Seq<char>>, uri: Seq<char>, ct: Option<Seq<char>>, body: Seq<u8>) -> Option<BlockReason> {
    if host matches Some(h) && blocked_domain(h) {
        Some(BlockReason::Domain(host->Some_0))
    } else if blocked_keywords(uri) {
        Some(BlockReason::UriKeyword)
    } else if ct matches Some(c) && blocked_mime(c) {
        Some(BlockReason::Mime(ct->Some_0))
    } else if body.len() > MAX_FILTERED_BODY {
        Some(BlockReason::TooLarge)
    } else if blocked_keywords(lossy_text(body)) {
        Some(BlockReason::BodyKeyword)
    } else {
        None
    }
}

pub open spec fn request_decision(req: HttpRequest) -> Option<BlockReason> {
    let hv = pairs_view(req.headers@);
    filter_decision(named_value(hv, "host"@), req.uri@, named_value(hv, "content-type"@), req.body@)
}

/// A blocking response: 403 with the reason in an X-ICAP-Error field and
/// the message as body.
pub open spec fn blocked_model(field: Seq<char>, reason: Seq<char>, body: Seq<char>) -> ResponseModel {
    ResponseModel {
        status: 403,
        version: HttpVersion::Http11,
        fields: set_field(Seq::empty(), field, reason),
        body: encode_utf8(body),
        enc: None,
    }
}

/// A bare 200 OK with no fields and no body.
pub open spec fn allow_model() -> ResponseModel {
    ResponseModel { status: 200, version: HttpVersion::Http11, fields: Seq::empty(), body: Seq::empty(), enc: None }
}

pub open spec fn filter_response_model(d: Option<BlockReason>) -> ResponseModel {
    match d {
        Some(BlockReason::Domain(_)) => blocked_model("X-ICAP-Error"@, "Blocked domain"@, "Request blocked: blocked domain"@),
        Some(BlockReason::UriKeyword) => blocked_model("X-ICAP-Error"@, "Blocked keywords in URI"@, "Request blocked: blocked keywords in URI"@),
        Some(BlockReason::Mime(_)) => blocked_model("X-ICAP-Error"@, "Blocked MIME type"@, "Request blocked: blocked MIME type"@),
        Some(BlockReason::TooLarge) => blocked_model("X-ICAP-Error"@, "File too large"@, "Request blocked: file too large"@),
        Some(BlockReason::BodyKeyword) => blocked_model("X-ICAP-Error"@, "Blocked keywords in content"@, "Request blocked: blocked keywords in content"@),
        None => allow_model(),
    }
}

pub open spec fn filter_result_text(d: Option<BlockReason>) -> Option<Seq<char>> {
    match d {
        Some(BlockReason::Domain(h)) => Some("Blocked domain: "@ + h),
        Some(BlockReason::UriKeyword) => Some("Blocked keywords in URI"@),
        Some(BlockReason::Mime(c)) => Some("Blocked MIME type: "@ + c),
        Some(BlockReason::TooLarge) => Some("File too large"@),
        Some(BlockReason::BodyKeyword) => Some("Blocked keywords in content"@),
        None => None,
    }
}

/// The decision of content filtering, computed.
enum Blocked {
    Domain(String),
    UriKeyword,
    Mime(String),
    TooLarge,
    BodyKeyword,
}

spec fn blocked_view(b: Option<Blocked>) -> Option<BlockReason> {
    match b {
        Some(Blocked::Domain(h)) => Some(BlockReason::Domain(h@)),
        Some(Blocked::UriKeyword) => Some(BlockReason::UriKeyword),
        Some(Blocked::Mime(c)) => Some(BlockReason::Mime(c@)),
        Some(Blocked::TooLarge) => Some(BlockReason::TooLarge),
        Some(Blocked::BodyKeyword) => Some(BlockReason::BodyKeyword),
        None => None,
    }
}

fn decide_request(req: &HttpRequest) -> (r: Option<Blocked>)
    ensures
        blocked_view(r) == request_decision(*req),
{
    if let Some(host) = extract_host(req.headers.as_slice()) {
        if is_blocked_domain(host.as_str()) {
            return Some(Blocked::Domain(host));
        }
    }
    if contains_blocked_keywords(req.uri.as_str()) {
        return Some(Blocked::UriKeyword);
    }
    if let Some(ct) = extract_content_type(req.headers.as_slice()) {
        if is_blocked_mime_type(ct.as_str()) {
            return Some(Blocked::Mime(ct));
        }
    }
    if req.body.len() > MAX_FILTERED_BODY {
        return Some(Blocked::TooLarge);
    }
    let text = utf8_lossy(req.body.as_slice());
    if contains_blocked_keywords(text.as_str()) {
        return Some(Blocked::BodyKeyword);
    }
    None
}

fn blocked_response(field: &str, reason: &str, body: &str) -> (r: IcapResponse)
    ensures
        response_view(r) == blocked_model(field@, reason@, body@),
{
    let mut h = HeaderMap::new();
    h.insert(field, reason);
    IcapResponse { status: 403, version: HttpVersion::Http11, headers: h, body: text_bytes(body), encapsulated: None }
}

fn allow_response() -> (r: IcapResponse)
    ensures
        response_view(r) == allow_model(),
{
    IcapResponse { status: 200, version: HttpVersion::Http11, headers: HeaderMap::new(), body: Vec::new(), encapsulated: None }
}

/// The filter's answer to a REQMOD request: 403 for the first rule that
/// blocks it, a bare 200 otherwise.
pub fn apply_basic_content_filtering(http_request: &HttpRequest) -> (r: Result<IcapResponse, IcapError>)
    ensures
        r matches Ok(q) && response_view(q) == filter_response_model(request_decision(*http_request)),
{
    let d = decide_request(http_request);
    let resp = match d {
        Some(Blocked::Domain(_)) => blocked_response("X-ICAP-Error", "Blocked domain", "Request blocked: blocked domain"),
        Some(Blocked::UriKeyword) => blocked_response("X-ICAP-Error", "Blocked keywords in URI", "Request blocked: blocked keywords in URI"),
        Some(Blocked::Mime(_)) => blocked_response("X-ICAP-Error", "Blocked MIME type", "Request blocked: blocked MIME type"),
        Some(Blocked::TooLarge) => blocked_response("X-ICAP-Error", "File too large", "Request blocked: file too large"),
        Some(Blocked::BodyKeyword) => blocked_response("X-ICAP-Error", "Blocked keywords in content", "Request blocked: blocked keywords in content"),
        None => allow_response(),
    };
    Ok(resp)
}

/// The filter's decision on a REQMOD request, with the reason when it blocks.
pub fn apply_content_filtering(http_request: &HttpRequest) -> (r: Result<FilterResult, IcapError>)
    ensures
        match filter_result_text(request_decision(*http_request)) {
            Some(t) => r matches Ok(FilterResult::Block(m)) && m@ == t,
            None => r matches Ok(FilterResult::Allow),
        },
{
    let d = decide_request(http_request);
    let res = match d {
        Some(Blocked::Domain(h)) => {
            let mut m = String::from_str("Blocked domain: ");
            m.append(h.as_str());
            FilterResult::Block(m)
        },
        Some(Blocked::UriKeyword) => FilterResult::Block(String::from_str("Blocked keywords in URI")),
        Some(Blocked::Mime(c)) => {
            let mut m = String::from_str("Blocked MIME type: ");
            m.append(c.as_str());
            FilterResult::Block(m)
        },
        Some(Blocked::TooLarge) => FilterResult::Block(String::from_str("File too large")),
        Some(Blocked::BodyKeyword) => FilterResult::Block(String::from_str("Blocked keywords in content")),
        None => FilterResult::Allow,
    };
    Ok(res)
}

/// The EICAR antivirus test file.
pub open spec fn eicar() -> Seq<u8> {
    encode_utf8("X5O!P%@AP[4\\PZX54(P^)7CC)7}$EICAR-STANDARD-ANTIVIRUS-TEST-FILE!$H+H*"@)
}

/// Content that carries a known signature: the EICAR file anywhere, a PE,
/// ELF or shell-script header at the start, or script and cookie-theft code
/// anywhere.
pub open spec fn has_virus_signature(c: Seq<u8>) -> bool {
    ||| contains_seq(c, eicar())
    ||| starts_with_seq(c, encode_utf8("MZ"@))
    ||| starts_with_seq(c, encode_utf8("\x7fELF"@))
    ||| starts_with_seq(c, encode_utf8("#!/bin/"@))
    ||| contains_seq(c, encode_utf8("<script>"@))
    ||| contains_seq(c, encode_utf8("eval("@))
    ||| contains_seq(c, encode_utf8("document.cookie"@))
    ||| contains_seq(c, encode_utf8("window.location"@))
}

/// True when the content carries a known signature.
pub fn contains_virus_signatures(content: &[u8]) -> (r: bool)
    ensures
        r == has_virus_signature(content@),
{
    contains_bytes(content, "X5O!P%@AP[4\\PZX54(P^)7CC)7}$EICAR-STANDARD-ANTIVIRUS-TEST-FILE!$H+H*".as_bytes())
        || starts_with_bytes(content, "MZ".as_bytes()) || starts_with_bytes(content, "\x7fELF".as_bytes())
        || starts_with_bytes(content, "#!/bin/".as_bytes()) || contains_bytes(content, "<script>".as_bytes())
        || contains_bytes(content, "eval(".as_bytes()) || contains_bytes(content, "document.cookie".as_bytes())
        || contains_bytes(content, "window.location".as_bytes())
}

/// The name of the threat that the content carries, by its first signature.
pub open spec fn virus_name(c: Seq<u8>) -> Seq<char> {
    if starts_with_seq(c, eicar()) {
        "EICAR-Test-File"@
    } else if starts_with_seq(c, encode_utf8("MZ"@)) {
        "PE.Executable.Generic"@
    } else if starts_with_seq(c, encode_utf8("\x7fELF"@)) {
        "ELF.Executable.Generic"@
    } else if starts_with_seq(c, encode_utf8("#!/bin/"@)) {
        "Shell.Script.Generic"@
    } else if contains_seq(c, encode_utf8("<script>"@)) {
        "JavaScript.Generic"@
    } else {
        "Generic.Malware"@
    }
}

/// The name of the threat that the content carries.
pub fn detect_virus_name(content: &[u8]) -> (r: String)
    ensures
        r@ == virus_name(content@),
{
    if starts_with_bytes(content, "X5O!P%@AP[4\\PZX54(P^)7CC)7}$EICAR-STANDARD-ANTIVIRUS-TEST-FILE!$H+H*".as_bytes()) {
        String::from_str("EICAR-Test-File")
    } else if starts_with_bytes(content, "MZ".as_bytes()) {
        String::from_str("PE.Executable.Generic")
    } else if starts_with_bytes(content, "\x7fELF".as_bytes()) {
        String::from_str("ELF.Executable.Generic")
    } else if starts_with_bytes(content, "#!/bin/".as_bytes()) {
        String::from_str("Shell.Script.Generic")
    } else if contains_bytes(content, "<script>".as_bytes()) {
        String::from_str("JavaScript.Generic")
    } else {
        String::from_str("Generic.Malware")
    }
}

/// Content that names a command-line tool of Windows (ASCII case ignored).
pub open spec fn has_suspicious_pattern(c: Seq<u8>) -> bool {
    ||| contains_seq_nocase(c, encode_utf8("cmd.exe"@))
    ||| contains_seq_nocase(c, encode_utf8("powershell"@))
    ||| contains_seq_nocase(c, encode_utf8("wscript"@))
    ||| contains_seq_nocase(c, encode_utf8("cscript"@))
    ||| contains_seq_nocase(c, encode_utf8("regsvr32"@))
    ||| contains_seq_nocase(c, encode_utf8("rundll32"@))
    ||| contains_seq_nocase(c, encode_utf8("certutil"@))
    ||| contains_seq_nocase(c, encode_utf8("bitsadmin"@))
    ||| contains_seq_nocase(c, encode_utf8("wmic"@))
    ||| contains_seq_nocase(c, encode_utf8("schtasks"@))
}

/// True when the content names a command-line tool of Windows.
pub fn contains_suspicious_patterns(content: &[u8]) -> (r: bool)
    ensures
        r == has_suspicious_pattern(content@),
{
    contains_bytes_nocase(content, "cmd.exe".as_bytes()) || contains_bytes_nocase(content, "powershell".as_bytes())
        || contains_bytes_nocase(content, "wscript".as_bytes()) || contains_bytes_nocase(content, "cscript".as_bytes())
        || contains_bytes_nocase(content, "regsvr32".as_bytes()) || contains_bytes_nocase(content, "rundll32".as_bytes())
        || contains_bytes_nocase(content, "certutil".as_bytes()) || contains_bytes_nocase(content, "bitsadmin".as_bytes())
        || contains_bytes_nocase(content, "wmic".as_bytes()) || contains_bytes_nocase(content, "schtasks".as_bytes())
}

/// A host is blocked exactly when it contains one of the blocked domains
/// `malware.com`, `phishing.net`, `spam.org` or `virus.example`.
pub proof fn lemma_blocked_domain_list(host: Seq<char>)
    ensures
        contains_seq(host, "malware.com"@) ==> blocked_domain(host),
        contains_seq(host, "phishing.net"@) ==> blocked_domain(host),
        contains_seq(host, "spam.org"@) ==> blocked_domain(host),
        contains_seq(host, "virus.example"@) ==> blocked_domain(host),
        blocked_domain(host) ==> contains_seq(host, "malware.com"@) || contains_seq(host, "phishing.net"@)
            || contains_seq(host, "spam.org"@) || contains_seq(host, "virus.example"@),
{
}

/// Content is suspicious exactly when it contains, ASCII case ignored, the
/// name of one of the tools `cmd.exe`, `powershell`, `wscript`, `cscript`,
/// `regsvr32`, `rundll32`, `certutil`, `bitsadmin`, `wmic` or `schtasks`.
pub proof fn lemma_suspicious_pattern_list(c: Seq<u8>)
    ensures
        contains_seq_nocase(c, encode_utf8("cmd.exe"@)) ==> has_suspicious_pattern(c),
        contains_seq_nocase(c, encode_utf8("powershell"@)) ==> has_suspicious_pattern(c),
        contains_seq_nocase(c, encode_utf8("wscript"@)) ==> has_suspicious_pattern(c),
        contains_seq_nocase(c, encode_utf8("cscript"@)) ==> has_suspicious_pattern(c),
        contains_seq_nocase(c, encode_utf8("regsvr32"@)) ==> has_suspicious_pattern(c),
        contains_seq_nocase(c, encode_utf8("rundll32"@)) ==> has_suspicious_pattern(c),
        contains_seq_nocase(c, encode_utf8("certutil"@)) ==> has_suspicious_pattern(c),
        contains_seq_nocase(c, encode_utf8("bitsadmin"@)) ==> has_suspicious_pattern(c),
        contains_seq_nocase(c, encode_utf8("wmic"@)) ==> has_suspicious_pattern(c),
        contains_seq_nocase(c, encode_utf8("schtasks"@)) ==> has_suspicious_pattern(c),
        has_suspicious_pattern(c) ==> contains_seq_nocase(c, encode_utf8("cmd.exe"@)) || contains_seq_nocase(
            c,
            encode_utf8("powershell"@),
        ) || contains_seq_nocase(c, encode_utf8("wscript"@)) || contains_seq_nocase(c, encode_utf8("cscript"@))
            || contains_seq_nocase(c, encode_utf8("regsvr32"@)) || contains_seq_nocase(c, encode_utf8("rundll32"@))
            || contains_seq_nocase(c, encode_utf8("certutil"@)) || contains_seq_nocase(c, encode_utf8("bitsadmin"@))
            || contains_seq_nocase(c, encode_utf8("wmic"@)) || contains_seq_nocase(c, encode_utf8("schtasks"@)),
{
}

/// Content that is executable: an executable content type, or a PE, ELF or
/// script header at the start.
pub open spec fn executable_content(ct: Option<Seq<char>>, body: Seq<u8>) -> bool {
    ||| (ct matches Some(c) && (blocked_mime(c) || contains_seq(c, "application/octet-stream"@)))
    ||| starts_with_seq(body, encode_utf8("MZ"@))
    ||| starts_with_seq(body, encode_utf8("\x7fELF"@))
    ||| starts_with_seq(body, encode_utf8("#!/"@))
}

/// True when the response carries executable content.
pub fn is_executable_content(headers: &[(String, String)], body: &[u8]) -> (r: bool)
    ensures
        r == executable_content(named_value(pairs_view(headers@), "content-type"@), body@),
{
    if let Some(ct) = extract_content_type_from_headers(headers) {
        let c = ct.as_str();
        if contains_str(c, "application/x-executable") || contains_str(c, "application/x-msdownload")
            || contains_str(c, "application/x-msdos-program") || contains_str(c, "application/octet-stream") {
            return true;
        }
    }
    starts_with_bytes(body, "MZ".as_bytes()) || starts_with_bytes(body, "\x7fELF".as_bytes())
        || starts_with_bytes(body, "#!/".as_bytes())
}

/// Why the scanner blocks a response, if it does: a signature, a
/// suspicious pattern, a body over 50 MiB, executable content; checked in
/// that order.
pub ghost enum ThreatKind {
    Signature(Seq<char>),
    Suspicious,
    TooLarge,
    Executable,
}

pub open spec fn scan_decision(resp: HttpResponse) -> Option<ThreatKind> {
    scan_decision_parts(pairs_view(resp.headers@), resp.body@)
}

/// The scanner's decision for the given header fields and body.
pub open spec fn scan_decision_parts(headers: Seq<(Seq<char>, Seq<char>)>, b: Seq<u8>) -> Option<ThreatKind> {
    if has_virus_signature(b) {
        Some(ThreatKind::Signature(virus_name(b)))
    } else if has_suspicious_pattern(b) {
        Some(ThreatKind::Suspicious)
    } else if b.len() > MAX_SCANNED_BODY {
        Some(ThreatKind::TooLarge)
    } else if executable_content(named_value(headers, "content-type"@), b) {
        Some(ThreatKind::Executable)
    } else {
        None
    }
}

pub open spec fn scan_response_model(d: Option<ThreatKind>) -> ResponseModel {
    match d {
        Some(ThreatKind::Signature(n)) => blocked_model("X-ICAP-Virus"@, n, "Response blocked: virus detected ("@ + n + ")"@),
        Some(ThreatKind::Suspicious) => blocked_model("X-ICAP-Virus"@, "SuspiciousPattern.Generic"@, "Response blocked: suspicious patterns detected"@),
        Some(ThreatKind::TooLarge) => blocked_model("X-ICAP-Virus"@, "FileTooLarge.Generic"@, "Response blocked: file too large"@),
        Some(ThreatKind::Executable) => blocked_model("X-ICAP-Virus"@, "ExecutableContent.Generic"@, "Response blocked: executable content detected"@),
        None => allow_model(),
    }
}

pub open spec fn threat_name(d: Option<ThreatKind>) -> Option<Seq<char>> {
    match d {
        Some(ThreatKind::Signature(n)) => Some(n),
        Some(ThreatKind::Suspicious) => Some("SuspiciousPattern.Generic"@),
        Some(ThreatKind::TooLarge) => Some("FileTooLarge.Generic"@),
        Some(ThreatKind::Executable) => Some("ExecutableContent.Generic"@),
        None => None,
    }
}

/// The scanner's answer to a RESPMOD response: 403 naming the threat for
/// the first rule that finds one, a bare 200 otherwise.
pub fn apply_basic_antivirus_scanning(http_response: &HttpResponse) -> (r: Result<IcapResponse, IcapError>)
    ensures
        r matches Ok(q) && response_view(q) == scan_response_model(scan_decision(*http_response)),
{
    let b = http_response.body.as_slice();
    if contains_virus_signatures(b) {
        let name = detect_virus_name(b);
        let mut body = String::from_str("Response blocked: virus detected (");
        body.append(name.as_str());
        body.append(")");
        return Ok(blocked_response("X-ICAP-Virus", name.as_str(), body.as_str()));
    }
    if contains_suspicious_patterns(b) {
        return Ok(blocked_response("X-ICAP-Virus", "SuspiciousPattern.Generic", "Response blocked: suspicious patterns detected"));
    }
    if b.len() > MAX_SCANNED_BODY {
        return Ok(blocked_response("X-ICAP-Virus", "FileTooLarge.Generic", "Response blocked: file too large"));
    }
    if is_executable_content(http_response.headers.as_slice(), b) {
        return Ok(blocked_response("X-ICAP-Virus", "ExecutableContent.Generic", "Response blocked: executable content detected"));
    }
    Ok(allow_response())
}

/// The scanner's decision on a RESPMOD response, naming the threat.
pub fn apply_antivirus_scanning(http_response: &HttpResponse) -> (r: Result<ScanResult, IcapError>)
    ensures
        match threat_name(scan_decision(*http_response)) {
            Some(n) => r matches Ok(ScanResult::Infected(m)) && m@ == n,
            None => r matches Ok(ScanResult::Clean),
        },
{
    let b = http_response.body.as_slice();
    if contains_virus_signatures(b) {
        return Ok(ScanResult::Infected(detect_virus_name(b)));
    }
    if contains_suspicious_patterns(b) {
        return Ok(ScanResult::Infected(String::from_str("SuspiciousPattern.Generic")));
    }
    if b.len() > MAX_SCANNED_BODY {
        return Ok(ScanResult::Infected(String::from_str("FileTooLarge.Generic")));
    }
    if is_executable_content(http_response.headers.as_slice(), b) {
        return Ok(ScanResult::Infected(String::from_str("ExecutableContent.Generic")));
    }
    Ok(ScanResult::Clean)
}

/// A buffer holds a whole request head once it holds an empty line.
pub fn is_complete_request(buffer: &[u8]) -> (r: bool)
    ensures
        r == contains_seq(buffer@, seq![13u8, 10u8, 13u8, 10u8]),
{
    let end: [u8; 4] = [13u8, 10u8, 13u8, 10u8];
    let r = contains_bytes(buffer, end.as_slice());
    proof {
        assert(end@ =~= seq![13u8, 10u8, 13u8, 10u8]);
    }
    r
}


/// The capabilities that the OPTIONS answer announces, in order.
pub open spec fn server_capabilities() -> Seq<(Seq<char>, Seq<char>)> {
    seq![
        ("max-connections"@, "1000"@),
        ("max-connections-per-client"@, "10"@),
        ("options-ttl"@, "3600"@),
        ("connection-timeout"@, "30"@),
        ("request-timeout"@, "60"@),
        ("allow"@, "204"@),
        ("preview"@, "1024"@),
        ("transfer-preview"@, "*"@),
        ("transfer-ignore"@, "Content-Length, Content-Encoding"@),
        ("transfer-complete"@, "Content-Length"@),
        ("x-content-filter"@, "enabled"@),
        ("x-filter-domains"@, "blocked_domains, domain_patterns"@),
        ("x-filter-keywords"@, "blocked_keywords, keyword_patterns"@),
        ("x-filter-mime"@, "blocked_mime_types, blocked_extensions"@),
        ("x-filter-size"@, "max_file_size"@),
        ("x-filter-regex"@, "enabled"@),
        ("x-antivirus"@, "enabled"@),
        ("x-antivirus-engine"@, "YARA"@),
        ("x-antivirus-scan"@, "real-time, on-demand"@),
        ("x-antivirus-quarantine"@, "enabled"@),
        ("x-antivirus-update"@, "hourly"@),
        ("x-antivirus-threat-intel"@, "enabled"@),
        ("x-security-features"@, "content_filtering, antivirus, threat_intelligence"@),
        ("x-compliance"@, "GDPR, CCPA, SOX"@),
        ("x-data-protection"@, "enabled"@),
        ("x-audit-logging"@, "enabled"@),
        ("x-metrics"@, "enabled"@),
        ("x-statistics"@, "enabled"@),
        ("x-health-check"@, "/health"@),
        ("x-metrics-endpoint"@, "/metrics"@),
        ("x-scan-content-types"@, "application/octet-stream, application/x-executable, application/x-msdownload"@),
        ("x-skip-content-types"@, "text/plain, text/html, image/jpeg, image/png"@),
        ("x-max-file-size"@, "52428800"@),
        ("x-max-preview-size"@, "1048576"@),
        ("x-version"@, "1.0.0"@),
        ("x-build-date"@, "2025-01-11"@),
        ("x-build-info"@, "G3ICAP-1.0.0-rust"@),
        ("x-custom-features"@, "modular_architecture, plugin_system, load_balancing"@),
        ("x-service-status"@, "operational"@),
        ("x-maintenance-window"@, "sunday-02:00-04:00-utc"@)
    ]
}

fn capability_list() -> (r: Vec<(String, String)>)
    ensures
        caps_view(r@) == server_capabilities(),
{
    let mut caps: Vec<(String, String)> = Vec::new();
    caps.push((String::from_str("max-connections"), String::from_str("1000")));
    caps.push((String::from_str("max-connections-per-client"), String::from_str("10")));
    caps.push((String::from_str("options-ttl"), String::from_str("3600")));
    caps.push((String::from_str("connection-timeout"), String::from_str("30")));
    caps.push((String::from_str("request-timeout"), String::from_str("60")));
    caps.push((String::from_str("allow"), String::from_str("204")));
    caps.push((String::from_str("preview"), String::from_str("1024")));
    caps.push((String::from_str("transfer-preview"), String::from_str("*")));
    caps.push((String::from_str("transfer-ignore"), String::from_str("Content-Length, Content-Encoding")));
    caps.push((String::from_str("transfer-complete"), String::from_str("Content-Length")));
    caps.push((String::from_str("x-content-filter"), String::from_str("enabled")));
    caps.push((String::from_str("x-filter-domains"), String::from_str("blocked_domains, domain_patterns")));
    caps.push((String::from_str("x-filter-keywords"), String::from_str("blocked_keywords, keyword_patterns")));
    caps.push((String::from_str("x-filter-mime"), String::from_str("blocked_mime_types, blocked_extensions")));
    caps.push((String::from_str("x-filter-size"), String::from_str("max_file_size")));
    caps.push((String::from_str("x-filter-regex"), String::from_str("enabled")));
    caps.push((String::from_str("x-antivirus"), String::from_str("enabled")));
    caps.push((String::from_str("x-antivirus-engine"), String::from_str("YARA")));
    caps.push((String::from_str("x-antivirus-scan"), String::from_str("real-time, on-demand")));
    caps.push((String::from_str("x-antivirus-quarantine"), String::from_str("enabled")));
    caps.push((String::from_str("x-antivirus-update"), String::from_str("hourly")));
    caps.push((String::from_str("x-antivirus-threat-intel"), String::from_str("enabled")));
    caps.push((String::from_str("x-security-features"), String::from_str("content_filtering, antivirus, threat_intelligence")));
    caps.push((String::from_str("x-compliance"), String::from_str("GDPR, CCPA, SOX")));
    caps.push((String::from_str("x-data-protection"), String::from_str("enabled")));
    caps.push((String::from_str("x-audit-logging"), String::from_str("enabled")));
    caps.push((String::from_str("x-metrics"), String::from_str("enabled")));
    caps.push((String::from_str("x-statistics"), String::from_str("enabled")));
    caps.push((String::from_str("x-health-check"), String::from_str("/health")));
    caps.push((String::from_str("x-metrics-endpoint"), String::from_str("/metrics")));
    caps.push((String::from_str("x-scan-content-types"), String::from_str("application/octet-stream, application/x-executable, application/x-msdownload")));
    caps.push((String::from_str("x-skip-content-types"), String::from_str("text/plain, text/html, image/jpeg, image/png")));
    caps.push((String::from_str("x-max-file-size"), String::from_str("52428800")));
    caps.push((String::from_str("x-max-preview-size"), String::from_str("1048576")));
    caps.push((String::from_str("x-version"), String::from_str("1.0.0")));
    caps.push((String::from_str("x-build-date"), String::from_str("2025-01-11")));
    caps.push((String::from_str("x-build-info"), String::from_str("G3ICAP-1.0.0-rust")));
    caps.push((String::from_str("x-custom-features"), String::from_str("modular_architecture, plugin_system, load_balancing")));
    caps.push((String::from_str("x-service-status"), String::from_str("operational")));
    caps.push((String::from_str("x-maintenance-window"), String::from_str("sunday-02:00-04:00-utc")));
    proof {
        assert(caps_view(caps@) =~= server_capabilities());
    }
    caps
}

/// What handling a request gives: an answer, or the message of a protocol
/// error.
pub type Outcome = Result<ResponseModel, Seq<char>>;

/// The result is the outcome.
pub open spec fn outcome_is(r: Result<IcapResponse, IcapError>, o: Outcome) -> bool {
    match o {
        Ok(m) => r matches Ok(q) && response_view(q) == m,
        Err(t) => r matches Err(IcapError::Protocol(e)) && e@ == t,
    }
}

/// The answer to OPTIONS on a connection: the generator's OPTIONS answer
/// for the three methods and the server's capabilities, sent as 200 OK.
pub open spec fn options_outcome(g: GenModel) -> Outcome {
    Ok(
        ResponseModel {
            status: 200,
            ..options_model(g, seq![IcapMethod::Options, IcapMethod::Reqmod, IcapMethod::Respmod], server_capabilities())
        },
    )
}

/// The answer to REQMOD: 400 without encapsulated data, an error without
/// request headers, else the content filter's answer.
pub open spec fn reqmod_outcome(g: GenModel, request: IcapRequest) -> Outcome {
    match request.encapsulated {
        None => Ok(bad_request_model(g, Some("REQMOD request must contain encapsulated data"@))),
        Some(e) => match e.req_hdr {
            None => Err("No request headers in encapsulated data"@),
            Some(h) => Ok(
                filter_response_model(
                    filter_decision(
                        named_value(visible_fields(h@), "host"@),
                        "/"@,
                        named_value(visible_fields(h@), "content-type"@),
                        body_or_empty(e.req_body),
                    ),
                ),
            ),
        },
    }
}

/// The answer to RESPMOD: 400 without encapsulated data, an error without
/// response headers, else the scanner's answer.
pub open spec fn respmod_outcome(g: GenModel, request: IcapRequest) -> Outcome {
    match request.encapsulated {
        None => Ok(bad_request_model(g, Some("RESPMOD request must contain encapsulated data"@))),
        Some(e) => match e.res_hdr {
            None => Err("No response headers in encapsulated data"@),
            Some(h) => Ok(scan_response_model(scan_decision_parts(visible_fields(h@), body_or_empty(e.res_body)))),
        },
    }
}

/// The answer to a request, by its method.
pub open spec fn request_outcome(g: GenModel, request: IcapRequest) -> Outcome {
    match request.method {
        IcapMethod::Options => options_outcome(g),
        IcapMethod::Reqmod => reqmod_outcome(g, request),
        IcapMethod::Respmod => respmod_outcome(g, request),
    }
}

/// The counters after a request of method `m`: one more request, and one
/// more of its method.
pub open spec fn counted(c: StatsCounts, m: IcapMethod) -> StatsCounts {
    let c1 = StatsCounts { total_requests: wrap_add(c.total_requests, 1), ..c };
    match m {
        IcapMethod::Options => StatsCounts { options_requests: wrap_add(c1.options_requests, 1), ..c1 },
        IcapMethod::Reqmod => StatsCounts { reqmod_requests: wrap_add(c1.reqmod_requests, 1), ..c1 },
        IcapMethod::Respmod => StatsCounts { respmod_requests: wrap_add(c1.respmod_requests, 1), ..c1 },
    }
}

/// The answer to OPTIONS.
pub fn handle_options_request(generator: &IcapResponseGenerator, request: &IcapRequest) -> (r: Result<IcapResponse, IcapError>)
    ensures
        outcome_is(r, options_outcome(generator.model())),
{
    let caps = capability_list();
    let methods = [IcapMethod::Options, IcapMethod::Reqmod, IcapMethod::Respmod];
    let mut r = generator.options_response(&methods, caps.as_slice());
    proof {
        assert(methods@ =~= seq![IcapMethod::Options, IcapMethod::Reqmod, IcapMethod::Respmod]);
    }
    r.status = 200;
    Ok(r)
}

/// The answer to REQMOD.
pub fn handle_reqmod_request(generator: &IcapResponseGenerator, request: &IcapRequest) -> (r: Result<IcapResponse, IcapError>)
    ensures
        outcome_is(r, reqmod_outcome(generator.model(), *request)),
{
    match &request.encapsulated {
        None => Ok(generator.bad_request(Some("REQMOD request must contain encapsulated data"))),
        Some(e) => {
            let http_request = parse_http_request_from_encapsulated(e)?;
            apply_basic_content_filtering(&http_request)
        },
    }
}

/// The answer to RESPMOD.
pub fn handle_respmod_request(generator: &IcapResponseGenerator, request: &IcapRequest) -> (r: Result<IcapResponse, IcapError>)
    ensures
        outcome_is(r, respmod_outcome(generator.model(), *request)),
{
    match &request.encapsulated {
        None => Ok(generator.bad_request(Some("RESPMOD request must contain encapsulated data"))),
        Some(e) => {
            let http_response = parse_http_response_from_encapsulated(e)?;
            apply_basic_antivirus_scanning(&http_response)
        },
    }
}

/// Counts a request and hands it to the handler of its method.
pub fn process_request(generator: &IcapResponseGenerator, stats: &mut IcapStats, request: &IcapRequest) -> (r: Result<IcapResponse, IcapError>)
    ensures
        final(stats)@ == counted(old(stats)@, request.method),
        outcome_is(r, request_outcome(generator.model(), *request)),
{
    stats.increment_requests();
    match request.method {
        IcapMethod::Options => {
            stats.increment_options_requests();
            handle_options_request(generator, request)
        },
        IcapMethod::Reqmod => {
            stats.increment_reqmod_requests();
            handle_reqmod_request(generator, request)
        },
        IcapMethod::Respmod => {
            stats.increment_respmod_requests();
            handle_respmod_request(generator, request)
        },
    }
}

} // verus!
