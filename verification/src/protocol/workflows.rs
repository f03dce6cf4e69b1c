//! REQMOD and RESPMOD workflows: check a request, take the HTTP message out
//! of it, pass that through content filters, and answer with a block, the
//! modified message, or no change.
//!
//! Logging of each request is left to the caller, around `process_request`.

use vstd::prelude::*;
use vstd::utf8::{encode_utf8, valid_utf8, decode_utf8, encode_utf8_valid_utf8, encode_utf8_decode_utf8};
use crate::error::IcapError;
use crate::protocol::common::{IcapMethod, IcapRequest, IcapResponse, HttpVersion, EncapsulatedData};
use crate::protocol::fields::{HeaderMap, FieldView, set_field, map_get};
use crate::protocol::parser::{
    ResponseModel, EncModel, response_view, first_char_from, find_char, lemma_first_char_from, bytes_opt,
};
use crate::protocol::streaming::ContentFilter;
use crate::text::{trim_spaces, trim_bounds, ascii_lower, contains_seq, contains_str, str_eq, extend_bytes, dec_chars, decimal_string};
use crate::bridge::{
    utf8_string, utf8_error_text, chars_string, field_name_lower, field_value_ok, is_field_name, is_field_value,
    to_lowercase, unicode_lower, utf8_lossy, lossy_text,
};

verus! {

/// The bytes of a header section: `name: value` and CR LF for each field,
/// then an empty line.
pub open spec fn header_lines_bytes(f: Seq<FieldView>) -> Seq<u8>
    decreases f.len(),
{
    if f.len() == 0 {
        Seq::empty()
    } else {
        header_lines_bytes(f.drop_last()) + encode_utf8(f.last().0) + seq![58u8, 32u8] + encode_utf8(f.last().1) + seq![
            13u8,
            10u8,
        ]
    }
}

pub open spec fn header_block(f: Seq<FieldView>) -> Seq<u8> {
    header_lines_bytes(f) + seq![13u8, 10u8]
}

fn header_block_exec(h: &HeaderMap) -> (r: Vec<u8>)
    ensures
        r@ == header_block(h@),
{
    let mut out: Vec<u8> = Vec::new();
    let mut i: usize = 0;
    while i < h.len()
        invariant
            i <= h@.len(),
            out@ == header_lines_bytes(h@.subrange(0, i as int)),
        decreases h@.len() - i,
    {
        let (n, v) = h.entry(i);
        proof {
            assert(h@.subrange(0, i + 1).drop_last() =~= h@.subrange(0, i as int));
        }
        let ghost o0 = out@;
        extend_bytes(&mut out, n.as_str().as_bytes());
        out.push(58u8);
        out.push(32u8);
        extend_bytes(&mut out, v.as_str().as_bytes());
        out.push(13u8);
        out.push(10u8);
        proof {
            assert(out@ =~= o0 + encode_utf8(n@) + seq![58u8, 32u8] + encode_utf8(v@) + seq![13u8, 10u8]);
        }
        i = i + 1;
    }
    proof {
        assert(h@.subrange(0, h@.len() as int) =~= h@);
    }
    out.push(13u8);
    out.push(10u8);
    out
}

/// A line without the CR that ended it before its LF.
pub open spec fn strip_cr(l: Seq<char>) -> Seq<char> {
    if l.len() > 0 && l.last() == '\r' {
        l.drop_last()
    } else {
        l
    }
}

/// The field that a header line holds, if any: the trimmed text before its
/// first colon as name and the trimmed text after it as value, when `http`
/// takes both.
pub open spec fn line_field(acc: Seq<FieldView>, line: Seq<char>) -> Seq<FieldView> {
    match first_char_from(line, ':', 0) {
        None => acc,
        Some(p) => {
            let n = trim_spaces(line.subrange(0, p));
            let v = trim_spaces(line.subrange(p + 1, line.len() as int));
            if is_field_name(n) && is_field_value(v) {
                set_field(acc, n, v)
            } else {
                acc
            }
        },
    }
}

/// The fields of the lines of `s` from `i` on (as `str::lines` splits
/// them), added to `acc`.
pub open spec fn lines_fields(acc: Seq<FieldView>, s: Seq<char>, i: int) -> Seq<FieldView>
    decreases s.len() - i,
{
    if i < 0 || i >= s.len() {
        acc
    } else {
        match first_char_from(s, '\n', i) {
            Some(k) => {
                proof {
                    lemma_first_char_from(s, '\n', i);
                }
                lines_fields(line_field(acc, strip_cr(s.subrange(i, k))), s, k + 1)
            },
            None => line_field(acc, s.subrange(i, s.len() as int)),
        }
    }
}

/// What reading a header section back gives: its fields when it is UTF-8,
/// else the message of the error.
pub open spec fn headers_from_bytes(b: Seq<u8>) -> Result<Seq<FieldView>, Seq<char>> {
    if valid_utf8(b) {
        Ok(lines_fields(Seq::empty(), decode_utf8(b), 0))
    } else {
        Err("WORKFLOW: Invalid UTF-8 in headers: "@ + utf8_error_text(b))
    }
}

fn copy_chars(s: &[char]) -> (r: Vec<char>)
    ensures
        r@ == s@,
{
    let mut v: Vec<char> = Vec::new();
    let mut i: usize = 0;
    while i < s.len()
        invariant
            i <= s@.len(),
            v@ == s@.subrange(0, i as int),
        decreases s@.len() - i,
    {
        v.push(s[i]);
        proof {
            assert(s@.subrange(0, i + 1) =~= s@.subrange(0, i as int).push(s@[i as int]));
        }
        i = i + 1;
    }
    proof {
        assert(s@.subrange(0, s@.len() as int) =~= s@);
    }
    v
}

fn add_line_field(h: &mut HeaderMap, line: &[char])
    ensures
        final(h)@ == line_field(old(h)@, line@),
{
    let n = line.len();
    match find_char(line, ':', 0) {
        None => {},
        Some(p) => {
            assert(p < n);
            let name_part = &line[0..p];
            let value_part = &line[p + 1..n];
            proof {
                assert(name_part@ == line@.subrange(0, p as int));
                assert(value_part@ == line@.subrange(p + 1, line@.len() as int));
            }
            let (a, b) = trim_bounds(name_part);
            let (c, d) = trim_bounds(value_part);
            let name_chars = &name_part[a..b];
            let value_chars = &value_part[c..d];
            proof {
                assert(name_chars@ == name_part@.subrange(a as int, b as int));
                assert(value_chars@ == value_part@.subrange(c as int, d as int));
            }
            let name = chars_string(name_chars);
            let value = chars_string(value_chars);
            if field_name_lower(name.as_str()).is_some() && field_value_ok(value.as_str()) {
                h.insert(name.as_str(), value.as_str());
            }
        },
    }
}

/// Reads a header section back: each line that holds a name and a value
/// that `http` takes becomes a field; text that is not UTF-8 is an error.
fn parse_headers_from_bytes(data: &[u8]) -> (r: Result<HeaderMap, IcapError>)
    ensures
        match headers_from_bytes(data@) {
            Ok(f) => r matches Ok(h) && h@ == f,
            Err(m) => r matches Err(IcapError::Protocol(e)) && e@ == m,
        },
{
    let cs = match utf8_string(data) {
        Ok(cs) => cs,
        Err(e) => {
            let mut m = String::from_str("Invalid UTF-8 in headers: ");
            m.append(e.as_str());
            proof {
                reveal_strlit("WORKFLOW");
                reveal_strlit(": ");
                reveal_strlit("Invalid UTF-8 in headers: ");
                reveal_strlit("WORKFLOW: Invalid UTF-8 in headers: ");
                assert("WORKFLOW"@ + ": "@ + ("Invalid UTF-8 in headers: "@ + e@) =~= "WORKFLOW: Invalid UTF-8 in headers: "@ + e@);
            }
            return Err(IcapError::protocol_error(m.as_str(), "WORKFLOW"));
        },
    };
    let mut h = HeaderMap::new();
    let n = cs.len();
    let mut i: usize = 0;
    while i < n
        invariant
            i <= n,
            n == cs@.len(),
            cs@ == decode_utf8(data@),
            lines_fields(Seq::empty(), cs@, 0) == lines_fields(h@, cs@, i as int),
        decreases n - i,
    {
        match find_char(cs.as_slice(), '\n', i) {
            Some(k) => {
                proof {
                    lemma_first_char_from(cs@, '\n', i as int);
                }
                let end = if k > i && cs[k - 1] == '\r' { k - 1 } else { k };
                let line = copy_chars(&cs.as_slice()[i..end]);
                proof {
                    assert(line@ =~= strip_cr(cs@.subrange(i as int, k as int)));
                }
                add_line_field(&mut h, line.as_slice());
                i = k + 1;
            },
            None => {
                let line = copy_chars(&cs.as_slice()[i..n]);
                proof {
                    assert(line@ =~= cs@.subrange(i as int, n as int));
                }
                add_line_field(&mut h, line.as_slice());
                proof {
                    assert(lines_fields(h@, cs@, n as int) == h@);
                }
                i = n;
            },
        }
    }
    Ok(h)
}

/// Two header maps are equal as `http::HeaderMap`s compare: as many fields,
/// and each field of the first with the same value in the second.
pub open spec fn same_fields(a: Seq<FieldView>, b: Seq<FieldView>) -> bool {
    a.len() == b.len() && forall|i: int| 0 <= i < a.len() ==> map_get(b, ascii_lower(#[trigger] a[i].0)) == Some(a[i].1)
}

fn same_fields_exec(a: &HeaderMap, b: &HeaderMap) -> (r: bool)
    ensures
        r == same_fields(a@, b@),
{
    if a.len() != b.len() {
        return false;
    }
    let mut i: usize = 0;
    while i < a.len()
        invariant
            i <= a@.len(),
            a@.len() == b@.len(),
            forall|j: int| 0 <= j < i ==> map_get(b@, ascii_lower(#[trigger] a@[j].0)) == Some(a@[j].1),
        decreases a@.len() - i,
    {
        let (n, v) = a.entry(i);
        match b.get(n.as_str()) {
            Some(w) => {
                if !str_eq(w.as_str(), v.as_str()) {
                    return false;
                }
            },
            None => {
                return false;
            },
        }
        i = i + 1;
    }
    true
}

/// Some of `words` occurs in the lower-cased `content`.
pub open spec fn has_any(content: Seq<char>, words: Seq<Seq<char>>) -> bool {
    exists|i: int| 0 <= i < words.len() && contains_seq(unicode_lower(content), #[trigger] words[i])
}

fn has_any_exec(content: &str, words: &[&str]) -> (r: bool)
    ensures
        r == has_any(content@, words@.map_values(|w: &str| w@)),
{
    let lower = to_lowercase(content);
    let ghost ws = words@.map_values(|w: &str| w@);
    let mut i: usize = 0;
    while i < words.len()
        invariant
            i <= words@.len(),
            lower@ == unicode_lower(content@),
            ws == words@.map_values(|w: &str| w@),
            forall|j: int| 0 <= j < i ==> !contains_seq(unicode_lower(content@), #[trigger] ws[j]),
        decreases words@.len() - i,
    {
        if contains_str(lower.as_str(), words[i]) {
            proof {
                assert(contains_seq(unicode_lower(content@), ws[i as int]));
            }
            return true;
        }
        i = i + 1;
    }
    false
}

/// A field to block: its lower-cased name is `bad_name`, or its value holds
/// `malicious` or `suspicious`.
pub open spec fn field_blocked(f: FieldView, bad_name: Seq<char>) -> bool {
    unicode_lower(f.0) == bad_name || contains_seq(f.1, "malicious"@) || contains_seq(f.1, "suspicious"@)
}

/// Some field is to be blocked.
pub open spec fn fields_blocked(fields: Seq<FieldView>, bad_name: Seq<char>) -> bool {
    exists|i: int| 0 <= i < fields.len() && field_blocked(#[trigger] fields[i], bad_name)
}

fn field_blocked_exec(name: &str, value: &str, bad_name: &str) -> (r: bool)
    ensures
        r == field_blocked((name@, value@), bad_name@),
{
    let lower = to_lowercase(name);
    if str_eq(lower.as_str(), bad_name) {
        return true;
    }
    let bytes = crate::protocol::response_generator::text_bytes(value);
    let text = utf8_lossy(bytes.as_slice());
    proof {
        encode_utf8_valid_utf8(value@);
        encode_utf8_decode_utf8(value@);
    }
    contains_str(text.as_str(), "malicious") || contains_str(text.as_str(), "suspicious")
}

fn fields_blocked_exec(h: &HeaderMap, bad_name: &str) -> (r: bool)
    ensures
        r == fields_blocked(h@, bad_name@),
{
    let mut i: usize = 0;
    while i < h.len()
        invariant
            i <= h@.len(),
            forall|j: int| 0 <= j < i ==> !field_blocked(#[trigger] h@[j], bad_name@),
        decreases h@.len() - i,
    {
        let (n, v) = h.entry(i);
        if field_blocked_exec(n.as_str(), v.as_str(), bad_name) {
            proof {
                assert(field_blocked(h@[i as int], bad_name@));
            }
            return true;
        }
        i = i + 1;
    }
    false
}

/// `acc` with the fields of `fields` set one after the other.
pub open spec fn fields_onto(acc: Seq<FieldView>, fields: Seq<FieldView>) -> Seq<FieldView>
    decreases fields.len(),
{
    if fields.len() == 0 {
        acc
    } else {
        set_field(fields_onto(acc, fields.drop_last()), fields.last().0, fields.last().1)
    }
}

fn insert_all(h: &mut HeaderMap, from: &HeaderMap)
    ensures
        final(h)@ == fields_onto(old(h)@, from@),
{
    let ghost start = h@;
    let mut i: usize = 0;
    while i < from.len()
        invariant
            i <= from@.len(),
            start == old(h)@,
            h@ == fields_onto(start, from@.subrange(0, i as int)),
        decreases from@.len() - i,
    {
        let (n, v) = from.entry(i);
        proof {
            assert(from@.subrange(0, i + 1).drop_last() =~= from@.subrange(0, i as int));
        }
        h.insert(n.as_str(), v.as_str());
        i = i + 1;
    }
    proof {
        assert(from@.subrange(0, from@.len() as int) =~= from@);
    }
}

/// An error of a workflow as a value of the model.
pub ghost enum ErrModel {
    Protocol(Seq<char>),
    Service(Seq<char>),
}

/// The error `e` is the one the model names.
pub open spec fn error_is(e: IcapError, m: ErrModel) -> bool {
    match m {
        ErrModel::Protocol(t) => e matches IcapError::Protocol(x) && x@ == t,
        ErrModel::Service(t) => e matches IcapError::Service(x) && x@ == t,
    }
}

/// The HTTP request that a REQMOD request carries.
#[derive(Debug)]
pub struct HttpRequest {
    pub method: String,
    pub uri: String,
    pub version: HttpVersion,
    pub headers: HeaderMap,
    pub body: Vec<u8>,
}

/// The HTTP response that a RESPMOD request carries.
#[derive(Debug)]
pub struct HttpResponse {
    pub status_code: u16,
    pub headers: HeaderMap,
    pub body: Vec<u8>,
}

pub ghost struct HttpReqModel {
    pub method: Seq<char>,
    pub uri: Seq<char>,
    pub version: HttpVersion,
    pub fields: Seq<FieldView>,
    pub body: Seq<u8>,
}

pub ghost struct HttpResModel {
    pub status: u16,
    pub fields: Seq<FieldView>,
    pub body: Seq<u8>,
}

pub open spec fn http_req_view(r: HttpRequest) -> HttpReqModel {
    HttpReqModel { method: r.method@, uri: r.uri@, version: r.version, fields: r.headers@, body: r.body@ }
}

pub open spec fn http_res_view(r: HttpResponse) -> HttpResModel {
    HttpResModel { status: r.status_code, fields: r.headers@, body: r.body@ }
}

fn copy_bytes(b: &[u8]) -> (r: Vec<u8>)
    ensures
        r@ == b@,
{
    let mut v: Vec<u8> = Vec::new();
    extend_bytes(&mut v, b);
    v
}

fn copy_request(r: &HttpRequest) -> (c: HttpRequest)
    ensures
        http_req_view(c) == http_req_view(*r),
{
    HttpRequest {
        method: r.method.clone(),
        uri: r.uri.clone(),
        version: r.version,
        headers: r.headers.copy(),
        body: copy_bytes(r.body.as_slice()),
    }
}

fn copy_response(r: &HttpResponse) -> (c: HttpResponse)
    ensures
        http_res_view(c) == http_res_view(*r),
{
    HttpResponse { status_code: r.status_code, headers: r.headers.copy(), body: copy_bytes(r.body.as_slice()) }
}

/// The version as `http::Version` writes it with `Debug`.
pub open spec fn version_debug(v: HttpVersion) -> Seq<char> {
    match v {
        HttpVersion::Http09 => "HTTP/0.9"@,
        HttpVersion::Http10 => "HTTP/1.0"@,
        HttpVersion::Http11 => "HTTP/1.1"@,
        HttpVersion::Http2 => "HTTP/2.0"@,
        HttpVersion::Http3 => "HTTP/3.0"@,
    }
}

fn version_debug_exec(v: HttpVersion) -> (r: &'static str)
    ensures
        r@ == version_debug(v),
{
    match v {
        HttpVersion::Http09 => "HTTP/0.9",
        HttpVersion::Http10 => "HTTP/1.0",
        HttpVersion::Http11 => "HTTP/1.1",
        HttpVersion::Http2 => "HTTP/2.0",
        HttpVersion::Http3 => "HTTP/3.0",
    }
}

/// The message for a body above its limit.
pub open spec fn too_large_message(what: Seq<char>, len: int, max: int) -> Seq<char> {
    what + " body too large: "@ + dec_chars(len as nat) + " bytes (max: "@ + dec_chars(max as nat) + ")"@
}

fn too_large_exec(what: &str, len: usize, max: usize) -> (r: String)
    ensures
        r@ == too_large_message(what@, len as int, max as int),
{
    let mut m = String::from_str(what);
    m.append(" body too large: ");
    let a = decimal_string(len as u64);
    m.append(a.as_str());
    m.append(" bytes (max: ");
    let b = decimal_string(max as u64);
    m.append(b.as_str());
    m.append(")");
    m
}

fn workflow_error(message: &str) -> (r: IcapError)
    ensures
        r matches IcapError::Protocol(m) && m@ == "WORKFLOW: "@ + message@,
{
    proof {
        reveal_strlit("WORKFLOW");
        reveal_strlit(": ");
        reveal_strlit("WORKFLOW: ");
        assert("WORKFLOW"@ + ": "@ + message@ =~= "WORKFLOW: "@ + message@);
    }
    IcapError::protocol_error(message, "WORKFLOW")
}

/// The body as bytes, empty when there is none.
pub open spec fn body_or_empty(b: Option<Vec<u8>>) -> Seq<u8> {
    match b {
        Some(v) => v@,
        None => Seq::empty(),
    }
}

/// What a REQMOD workflow refuses before it looks at the message: another
/// method, no encapsulated data, a request body above the limit.
pub open spec fn reqmod_validation(r: IcapRequest, max: int) -> Option<ErrModel> {
    if r.method != IcapMethod::Reqmod {
        Some(ErrModel::Protocol("WORKFLOW: "@ + "Expected REQMOD method"@))
    } else if r.encapsulated is None {
        Some(ErrModel::Protocol("WORKFLOW: "@ + "REQMOD request must have encapsulated data"@))
    } else if r.encapsulated->Some_0.req_body matches Some(b) && b@.len() > max {
        Some(ErrModel::Service(too_large_message("Request"@, r.encapsulated->Some_0.req_body->Some_0@.len() as int, max)))
    } else {
        None
    }
}

/// The HTTP request taken out of encapsulated data: its header section is
/// needed; method, URI and version are taken as `GET`, `/` and HTTP/1.1.
pub open spec fn extracted_request(e: EncapsulatedData) -> Result<HttpReqModel, ErrModel> {
    match e.req_hdr {
        None => Err(ErrModel::Protocol("WORKFLOW: "@ + "No request headers in encapsulated data"@)),
        Some(h) => Ok(
            HttpReqModel {
                method: "GET"@,
                uri: "/"@,
                version: HttpVersion::Http11,
                fields: h@,
                body: body_or_empty(e.req_body),
            },
        ),
    }
}

/// URL patterns that block a request.
pub open spec fn url_blocked(uri: Seq<char>) -> bool {
    contains_seq(uri, "malware.com"@) || contains_seq(uri, "phishing.net"@) || contains_seq(uri, "spam.org"@)
}

pub open spec fn reqmod_keywords() -> Seq<Seq<char>> {
    seq!["malware"@, "virus"@, "phishing"@, "spam"@]
}

pub open spec fn respmod_keywords() -> Seq<Seq<char>> {
    seq!["malware"@, "virus"@, "phishing"@, "spam"@, "malicious"@]
}

/// Why a request is blocked, if it is: its URI, then its body, then a field.
pub open spec fn reqmod_block_reason(m: HttpReqModel) -> Option<Seq<char>> {
    if url_blocked(m.uri) {
        Some("Blocked URL pattern"@)
    } else if m.body.len() > 0 && has_any(lossy_text(m.body), reqmod_keywords()) {
        Some("Blocked content pattern"@)
    } else if fields_blocked(m.fields, "x-suspicious"@) {
        Some("Blocked header pattern"@)
    } else {
        None
    }
}

/// The answer that blocks: 403 with the reason in a field and in the body.
pub open spec fn blocked_answer(v: HttpVersion, reason: Seq<char>, prefix: Seq<char>) -> ResponseModel {
    ResponseModel {
        status: 403,
        version: v,
        fields: set_field(set_field(Seq::empty(), "ISTag"@, "\"g3icap-blocked\""@), "X-Block-Reason"@, reason),
        body: encode_utf8(prefix + reason),
        enc: None,
    }
}

/// The answer that changes nothing: 204.
pub open spec fn unchanged_answer(v: HttpVersion) -> ResponseModel {
    ResponseModel {
        status: 204,
        version: v,
        fields: set_field(Seq::empty(), "ISTag"@, "\"g3icap-unchanged\""@),
        body: Seq::empty(),
        enc: None,
    }
}

/// The header section that carries a modified request: its request line in
/// `X-Request-Line`, then its fields.
pub open spec fn request_section(m: HttpReqModel) -> Seq<FieldView> {
    fields_onto(
        set_field(Seq::empty(), "X-Request-Line"@, m.method + " "@ + m.uri + " "@ + version_debug(m.version)),
        m.fields,
    )
}

/// The header section that carries a modified response: its status line in
/// `X-Status-Line`, then its fields.
pub open spec fn response_section(m: HttpResModel) -> Seq<FieldView> {
    fields_onto(
        set_field(Seq::empty(), "X-Status-Line"@, "HTTP/1.1 "@ + dec_chars(m.status as nat) + " OK"@),
        m.fields,
    )
}

/// The answer to REQMOD for the request `r` whose HTTP request `orig` the
/// filters made into `m`.
pub open spec fn reqmod_answer(r: IcapRequest, orig: HttpReqModel, m: HttpReqModel) -> ResponseModel {
    match reqmod_block_reason(m) {
        Some(reason) => blocked_answer(r.version, reason, "Request blocked: "@),
        None => if orig.body == m.body && same_fields(orig.fields, m.fields) {
            unchanged_answer(r.version)
        } else {
            ResponseModel {
                status: 200,
                version: r.version,
                fields: set_field(Seq::empty(), "ISTag"@, "\"g3icap-modified\""@),
                body: Seq::empty(),
                enc: Some(
                    EncModel {
                        req_hdr: Some(request_section(m)),
                        req_body: Some(m.body),
                        res_hdr: None,
                        res_body: None,
                        null_body: false,
                    },
                ),
            }
        },
    }
}

fn blocked_response(v: HttpVersion, reason: &str, prefix: &str) -> (r: IcapResponse)
    ensures
        response_view(r) == blocked_answer(v, reason@, prefix@),
{
    let mut headers = HeaderMap::new();
    headers.insert("ISTag", "\"g3icap-blocked\"");
    headers.insert("X-Block-Reason", reason);
    let mut text = String::from_str(prefix);
    text.append(reason);
    let body = crate::protocol::response_generator::text_bytes(text.as_str());
    IcapResponse { status: 403, version: v, headers, body, encapsulated: None }
}

fn unchanged_response(v: HttpVersion) -> (r: IcapResponse)
    ensures
        response_view(r) == unchanged_answer(v),
{
    let mut headers = HeaderMap::new();
    headers.insert("ISTag", "\"g3icap-unchanged\"");
    IcapResponse { status: 204, version: v, headers, body: Vec::new(), encapsulated: None }
}

fn request_section_exec(m: &HttpRequest) -> (r: HeaderMap)
    ensures
        r@ == request_section(http_req_view(*m)),
{
    let mut line = m.method.clone();
    line.append(" ");
    line.append(m.uri.as_str());
    line.append(" ");
    line.append(version_debug_exec(m.version));
    let mut h = HeaderMap::new();
    h.insert("X-Request-Line", line.as_str());
    insert_all(&mut h, &m.headers);
    h
}

fn response_section_exec(m: &HttpResponse) -> (r: HeaderMap)
    ensures
        r@ == response_section(http_res_view(*m)),
{
    let mut line = String::from_str("HTTP/1.1 ");
    let code = decimal_string(m.status_code as u64);
    line.append(code.as_str());
    line.append(" OK");
    let mut h = HeaderMap::new();
    h.insert("X-Status-Line", line.as_str());
    insert_all(&mut h, &m.headers);
    h
}

fn reqmod_keywords_exec() -> (r: Vec<&'static str>)
    ensures
        r@.map_values(|w: &str| w@) == reqmod_keywords(),
{
    let v: Vec<&'static str> = vec!["malware", "virus", "phishing", "spam"];
    proof {
        assert(v@.map_values(|w: &str| w@) =~= reqmod_keywords());
    }
    v
}

fn respmod_keywords_exec() -> (r: Vec<&'static str>)
    ensures
        r@.map_values(|w: &str| w@) == respmod_keywords(),
{
    let v: Vec<&'static str> = vec!["malware", "virus", "phishing", "spam", "malicious"];
    proof {
        assert(v@.map_values(|w: &str| w@) =~= respmod_keywords());
    }
    v
}

fn reqmod_block_reason_exec(m: &HttpRequest) -> (r: Option<&'static str>)
    ensures
        match reqmod_block_reason(http_req_view(*m)) {
            Some(t) => r matches Some(s) && s@ == t,
            None => r is None,
        },
{
    if contains_str(m.uri.as_str(), "malware.com") || contains_str(m.uri.as_str(), "phishing.net") || contains_str(
        m.uri.as_str(),
        "spam.org",
    ) {
        return Some("Blocked URL pattern");
    }
    if m.body.len() > 0 {
        let text = utf8_lossy(m.body.as_slice());
        let kws = reqmod_keywords_exec();
        if has_any_exec(text.as_str(), kws.as_slice()) {
            return Some("Blocked content pattern");
        }
    }
    if fields_blocked_exec(&m.headers, "x-suspicious") {
        return Some("Blocked header pattern");
    }
    None
}

/// What a filter's answer becomes in a workflow: the data it handed back,
/// or a service error with the message of its failure.
pub fn filter_outcome(result: Result<Vec<u8>, String>) -> (r: Result<Vec<u8>, IcapError>)
    ensures
        match result {
            Ok(v) => r matches Ok(w) && w@ == v@,
            Err(m) => r matches Err(IcapError::Service(x)) && x@ == m@,
        },
{
    match result {
        Ok(v) => Ok(v),
        Err(m) => Err(IcapError::content_filter_error(m.as_str())),
    }
}

/// True when the filter `f`, handed `data` as request data, may answer
/// with `out`.
pub open spec fn request_filter_gives<F: ContentFilter>(f: F, data: Seq<u8>, out: Seq<u8>) -> bool {
    exists|s: &[u8], v: Vec<u8>|
        s@ == data && v@ == out && #[trigger] call_ensures(
            F::filter_request_data,
            (&f, s),
            Ok::<Vec<u8>, String>(v),
        )
}

/// True when the filter `f`, handed `data` as response data, may answer
/// with `out`.
pub open spec fn response_filter_gives<F: ContentFilter>(f: F, data: Seq<u8>, out: Seq<u8>) -> bool {
    exists|s: &[u8], v: Vec<u8>|
        s@ == data && v@ == out && #[trigger] call_ensures(
            F::filter_response_data,
            (&f, s),
            Ok::<Vec<u8>, String>(v),
        )
}

/// One filter's pass over an HTTP request: the body, when it is not empty,
/// goes to the filter and is replaced by its answer; then the header block
/// goes to the filter, and its answer, read as header lines, becomes the
/// header fields. Method, URI and version stay.
pub open spec fn request_filter_step<F: ContentFilter>(f: F, a: HttpReqModel, b: HttpReqModel) -> bool {
    &&& b.method == a.method
    &&& b.uri == a.uri
    &&& b.version == a.version
    &&& if a.body.len() == 0 {
        b.body == a.body
    } else {
        request_filter_gives(f, a.body, b.body)
    }
    &&& exists|hb: Seq<u8>|
        #[trigger] request_filter_gives(f, header_block(a.fields), hb) && headers_from_bytes(hb) == Ok::<
            Seq<FieldView>,
            Seq<char>,
        >(b.fields)
}

/// The states `states` are a run of the filters `fs` over a request: one
/// more state than filters, each filter taking its state to the next.
pub open spec fn request_filter_run<F: ContentFilter>(fs: Seq<F>, states: Seq<HttpReqModel>) -> bool {
    &&& states.len() == fs.len() + 1
    &&& forall|j: int| 0 <= j < fs.len() ==> #[trigger] request_filter_step(fs[j], states[j], states[j + 1])
}

/// The filters `fs`, in order, can take the request `start` to `end`.
pub open spec fn request_filters_reach<F: ContentFilter>(fs: Seq<F>, start: HttpReqModel, end: HttpReqModel) -> bool {
    exists|states: Seq<HttpReqModel>|
        #[trigger] request_filter_run(fs, states) && states[0] == start && states[fs.len() as int] == end
}

/// One filter's pass over an HTTP response: the body, when it is not empty,
/// goes to the filter and is replaced by its answer; then the header block
/// goes to the filter, and its answer, read as header lines, becomes the
/// header fields. The status stays.
pub open spec fn response_filter_step<F: ContentFilter>(f: F, a: HttpResModel, b: HttpResModel) -> bool {
    &&& b.status == a.status
    &&& if a.body.len() == 0 {
        b.body == a.body
    } else {
        response_filter_gives(f, a.body, b.body)
    }
    &&& exists|hb: Seq<u8>|
        #[trigger] response_filter_gives(f, header_block(a.fields), hb) && headers_from_bytes(hb) == Ok::<
            Seq<FieldView>,
            Seq<char>,
        >(b.fields)
}

/// The states `states` are a run of the filters `fs` over a response: one
/// more state than filters, each filter taking its state to the next.
pub open spec fn response_filter_run<F: ContentFilter>(fs: Seq<F>, states: Seq<HttpResModel>) -> bool {
    &&& states.len() == fs.len() + 1
    &&& forall|j: int| 0 <= j < fs.len() ==> #[trigger] response_filter_step(fs[j], states[j], states[j + 1])
}

/// The filters `fs`, in order, can take the response `start` to `end`.
pub open spec fn response_filters_reach<F: ContentFilter>(fs: Seq<F>, start: HttpResModel, end: HttpResModel) -> bool {
    exists|states: Seq<HttpResModel>|
        #[trigger] response_filter_run(fs, states) && states[0] == start && states[fs.len() as int] == end
}

/// The outcome of a filter step on request data: the data that the filter
/// handed back, or the service error that its failure becomes.
fn filter_request_bytes<F: ContentFilter>(filter: &F, data: &[u8]) -> (r: Result<Vec<u8>, IcapError>)
    ensures
        r matches Err(e) ==> e is Service,
        r matches Ok(w) ==> request_filter_gives(*filter, data@, w@),
{
    match filter.filter_request_data(data) {
        Ok(v) => {
            proof {
                assert(call_ensures(F::filter_request_data, (filter, data), Ok::<Vec<u8>, String>(v)));
            }
            filter_outcome(Ok(v))
        },
        Err(m) => filter_outcome(Err(m)),
    }
}

/// The outcome of a filter step on response data.
fn filter_response_bytes<F: ContentFilter>(filter: &F, data: &[u8]) -> (r: Result<Vec<u8>, IcapError>)
    ensures
        r matches Err(e) ==> e is Service,
        r matches Ok(w) ==> response_filter_gives(*filter, data@, w@),
{
    match filter.filter_response_data(data) {
        Ok(v) => {
            proof {
                assert(call_ensures(F::filter_response_data, (filter, data), Ok::<Vec<u8>, String>(v)));
            }
            filter_outcome(Ok(v))
        },
        Err(m) => filter_outcome(Err(m)),
    }
}

/// Checks REQMOD requests and passes the HTTP requests they carry through
/// content filters.
pub struct ReqmodWorkflow<F: ContentFilter> {
    content_filters: Vec<F>,
    max_request_size: usize,
    allow_modifications: bool,
}

impl<F: ContentFilter> ReqmodWorkflow<F> {
    /// The largest request body that the workflow takes.
    pub closed spec fn max_size(&self) -> int {
        self.max_request_size as int
    }

    /// The number of filters.
    pub closed spec fn filter_count(&self) -> int {
        self.content_filters@.len() as int
    }

    /// The filters, in the order they run.
    pub closed spec fn filters(&self) -> Seq<F> {
        self.content_filters@
    }

    /// A workflow without filters for request bodies of at most
    /// `max_request_size` bytes.
    pub fn new(max_request_size: usize) -> (r: Self)
        ensures
            r.max_size() == max_request_size,
            r.filter_count() == 0,
    {
        ReqmodWorkflow { content_filters: Vec::new(), max_request_size, allow_modifications: true }
    }

    /// Adds a filter after the others.
    pub fn add_content_filter(&mut self, filter: F)
        ensures
            final(self).max_size() == old(self).max_size(),
            final(self).filter_count() == old(self).filter_count() + 1,
    {
        self.content_filters.push(filter);
    }

    fn validate_request(&self, request: &IcapRequest) -> (r: Result<(), IcapError>)
        ensures
            match reqmod_validation(*request, self.max_size()) {
                Some(m) => r matches Err(e) && error_is(e, m),
                None => r is Ok,
            },
    {
        if request.method != IcapMethod::Reqmod {
            return Err(workflow_error("Expected REQMOD method"));
        }
        match &request.encapsulated {
            None => Err(workflow_error("REQMOD request must have encapsulated data")),
            Some(e) => match &e.req_body {
                Some(b) => if b.len() > self.max_request_size {
                    let m = too_large_exec("Request", b.len(), self.max_request_size);
                    Err(IcapError::resource_exhausted_simple(m.as_str()))
                } else {
                    Ok(())
                },
                None => Ok(()),
            },
        }
    }

    fn extract_http_request(&self, e: &EncapsulatedData) -> (r: Result<HttpRequest, IcapError>)
        ensures
            match extracted_request(*e) {
                Ok(m) => r matches Ok(q) && http_req_view(q) == m,
                Err(m) => r matches Err(x) && error_is(x, m),
            },
    {
        let headers = match &e.req_hdr {
            Some(h) => h.copy(),
            None => return Err(workflow_error("No request headers in encapsulated data")),
        };
        let body = match &e.req_body {
            Some(b) => copy_bytes(b.as_slice()),
            None => Vec::new(),
        };
        Ok(HttpRequest {
            method: String::from_str("GET"),
            uri: String::from_str("/"),
            version: HttpVersion::Http11,
            headers,
            body,
        })
    }

    fn apply_content_filters(&self, request: &HttpRequest) -> (r: Result<HttpRequest, IcapError>)
        ensures
            r matches Ok(m) ==> request_filters_reach(self.filters(), http_req_view(*request), http_req_view(m)),
            self.filter_count() == 0 ==> (r matches Ok(m) && http_req_view(m) == http_req_view(*request)),
            r matches Err(e) ==> e is Service || e is Protocol,
    {
        let mut modified = copy_request(request);
        let mut i: usize = 0;
        let ghost mut states: Seq<HttpReqModel> = seq![http_req_view(*request)];
        while i < self.content_filters.len()
            invariant
                i <= self.content_filters@.len(),
                states.len() == i + 1,
                states[0] == http_req_view(*request),
                states[i as int] == http_req_view(modified),
                forall|j: int|
                    0 <= j < i ==> #[trigger] request_filter_step(self.content_filters@[j], states[j], states[j + 1]),
            decreases self.content_filters@.len() - i,
        {
            let filter = &self.content_filters[i];
            let ghost before = http_req_view(modified);
            if modified.body.len() > 0 {
                let b = filter_request_bytes(filter, modified.body.as_slice());
                match b {
                    Ok(v) => {
                        modified.body = v;
                    },
                    Err(e) => return Err(e),
                }
            }
            let block = header_block_exec(&modified.headers);
            let filtered = match filter_request_bytes(filter, block.as_slice()) {
                Ok(v) => v,
                Err(e) => return Err(e),
            };
            match parse_headers_from_bytes(filtered.as_slice()) {
                Ok(h) => {
                    modified.headers = h;
                },
                Err(e) => return Err(e),
            }
            proof {
                assert(request_filter_gives(self.content_filters@[i as int], header_block(before.fields), filtered@));
                assert(request_filter_step(self.content_filters@[i as int], before, http_req_view(modified)));
                let next = states.push(http_req_view(modified));
                assert forall|j: int| 0 <= j < i + 1 implies #[trigger] request_filter_step(
                    self.content_filters@[j],
                    next[j],
                    next[j + 1],
                ) by {
                    if j < i {
                        assert(next[j] == states[j] && next[j + 1] == states[j + 1]);
                    }
                }
                states = next;
            }
            i = i + 1;
        }
        proof {
            assert(request_filter_run(self.content_filters@, states));
        }
        Ok(modified)
    }

    /// The answer for the request `request` whose HTTP request `original`
    /// the filters made into `modified`: a block when `modified` is to be
    /// blocked, else no change when it equals `original`, else the modified
    /// request.
    pub fn decide_response(&self, request: &IcapRequest, original: &HttpRequest, modified: &HttpRequest) -> (r: IcapResponse)
        ensures
            response_view(r) == reqmod_answer(*request, http_req_view(*original), http_req_view(*modified)),
    {
        if let Some(reason) = reqmod_block_reason_exec(modified) {
            return blocked_response(request.version, reason, "Request blocked: ");
        }
        let same_body = bytes_equal(original.body.as_slice(), modified.body.as_slice());
        if same_body && same_fields_exec(&original.headers, &modified.headers) {
            return unchanged_response(request.version);
        }
        let mut headers = HeaderMap::new();
        headers.insert("ISTag", "\"g3icap-modified\"");
        let encapsulated = EncapsulatedData {
            req_hdr: Some(request_section_exec(modified)),
            req_body: Some(copy_bytes(modified.body.as_slice())),
            res_hdr: None,
            res_body: None,
            null_body: false,
        };
        IcapResponse { status: 200, version: request.version, headers, body: Vec::new(), encapsulated: Some(encapsulated) }
    }

    /// Handles a REQMOD request: refused when it is no REQMOD request, has no
    /// encapsulated data or too large a body, or carries no request header
    /// section; else its HTTP request goes through the filters, and the
    /// answer is `decide_response` of what comes out.
    pub fn process_request(&self, request: &IcapRequest) -> (r: Result<IcapResponse, IcapError>)
        ensures
            match reqmod_validation(*request, self.max_size()) {
                Some(m) => r matches Err(e) && error_is(e, m),
                None => match extracted_request(request.encapsulated->Some_0) {
                    Err(m) => r matches Err(e) && error_is(e, m),
                    Ok(orig) => {
                        &&& r matches Ok(x) ==> exists|m: HttpReqModel|
                            #[trigger] request_filters_reach(self.filters(), orig, m)
                                && response_view(x) == reqmod_answer(*request, orig, m)
                        &&& self.filter_count() == 0 ==> (r matches Ok(x) && response_view(x) == reqmod_answer(
                            *request,
                            orig,
                            orig,
                        ))
                        &&& r matches Err(e) ==> e is Service || e is Protocol
                    },
                },
            },
    {
        match self.validate_request(request) {
            Err(e) => return Err(e),
            Ok(()) => {},
        }
        let e = match &request.encapsulated {
            Some(e) => e,
            None => return Err(workflow_error("No encapsulated data")),
        };
        let http_request = match self.extract_http_request(e) {
            Ok(q) => q,
            Err(x) => return Err(x),
        };
        let modified = match self.apply_content_filters(&http_request) {
            Ok(m) => m,
            Err(x) => return Err(x),
        };
        let x = self.decide_response(request, &http_request, &modified);
        proof {
            assert(response_view(x) == reqmod_answer(*request, http_req_view(http_request), http_req_view(modified)));
            assert(request_filters_reach(
                self.filters(),
                http_req_view(http_request),
                http_req_view(modified),
            ));
        }
        Ok(x)
    }
}

fn bytes_equal(a: &[u8], b: &[u8]) -> (r: bool)
    ensures
        r == (a@ == b@),
{
    if a.len() != b.len() {
        return false;
    }
    let mut i: usize = 0;
    while i < a.len()
        invariant
            i <= a@.len(),
            a@.len() == b@.len(),
            forall|j: int| 0 <= j < i ==> a@[j] == b@[j],
        decreases a@.len() - i,
    {
        if a[i] != b[i] {
            return false;
        }
        i = i + 1;
    }
    proof {
        assert(a@ =~= b@);
    }
    true
}

/// What a RESPMOD workflow refuses before it looks at the messages: another
/// method, no encapsulated data, a response body above the limit.
pub open spec fn respmod_validation(r: IcapRequest, max: int) -> Option<ErrModel> {
    if r.method != IcapMethod::Respmod {
        Some(ErrModel::Protocol("WORKFLOW: "@ + "Expected RESPMOD method"@))
    } else if r.encapsulated is None {
        Some(ErrModel::Protocol("WORKFLOW: "@ + "RESPMOD request must have encapsulated data"@))
    } else if r.encapsulated->Some_0.res_body matches Some(b) && b@.len() > max {
        Some(ErrModel::Service(too_large_message("Response"@, r.encapsulated->Some_0.res_body->Some_0@.len() as int, max)))
    } else {
        None
    }
}

/// The HTTP request and response taken out of encapsulated data: both
/// header sections are needed; the request is taken as `GET / HTTP/1.1`
/// and the response as status 200.
pub open spec fn extracted_pair(e: EncapsulatedData) -> Result<(HttpReqModel, HttpResModel), ErrModel> {
    match e.req_hdr {
        None => Err(ErrModel::Protocol("WORKFLOW: "@ + "No request headers in encapsulated data"@)),
        Some(h) => match e.res_hdr {
            None => Err(ErrModel::Protocol("WORKFLOW: "@ + "No response headers in encapsulated data"@)),
            Some(g) => Ok(
                (
                    HttpReqModel {
                        method: "GET"@,
                        uri: "/"@,
                        version: HttpVersion::Http11,
                        fields: h@,
                        body: body_or_empty(e.req_body),
                    },
                    HttpResModel { status: 200, fields: g@, body: body_or_empty(e.res_body) },
                ),
            ),
        },
    }
}

/// Why a response is blocked, if it is: its body, then a field.
pub open spec fn respmod_block_reason(m: HttpResModel) -> Option<Seq<char>> {
    if m.body.len() > 0 && has_any(lossy_text(m.body), respmod_keywords()) {
        Some("Blocked content pattern in response"@)
    } else if fields_blocked(m.fields, "x-malicious"@) {
        Some("Blocked header pattern in response"@)
    } else {
        None
    }
}

/// The answer to RESPMOD for the request `r` with HTTP request `req`, whose
/// HTTP response `orig` the filters made into `m`.
pub open spec fn respmod_answer(r: IcapRequest, req: HttpReqModel, orig: HttpResModel, m: HttpResModel) -> ResponseModel {
    match respmod_block_reason(m) {
        Some(reason) => blocked_answer(r.version, reason, "Response blocked: "@),
        None => if orig.body == m.body && same_fields(orig.fields, m.fields) {
            unchanged_answer(r.version)
        } else {
            ResponseModel {
                status: 200,
                version: r.version,
                fields: set_field(Seq::empty(), "ISTag"@, "\"g3icap-modified\""@),
                body: Seq::empty(),
                enc: Some(
                    EncModel {
                        req_hdr: Some(request_section(req)),
                        req_body: Some(req.body),
                        res_hdr: Some(response_section(m)),
                        res_body: Some(m.body),
                        null_body: false,
                    },
                ),
            }
        },
    }
}

fn respmod_block_reason_exec(m: &HttpResponse) -> (r: Option<&'static str>)
    ensures
        match respmod_block_reason(http_res_view(*m)) {
            Some(t) => r matches Some(s) && s@ == t,
            None => r is None,
        },
{
    if m.body.len() > 0 {
        let text = utf8_lossy(m.body.as_slice());
        let kws = respmod_keywords_exec();
        if has_any_exec(text.as_str(), kws.as_slice()) {
            return Some("Blocked content pattern in response");
        }
    }
    if fields_blocked_exec(&m.headers, "x-malicious") {
        return Some("Blocked header pattern in response");
    }
    None
}

/// Checks RESPMOD requests and passes the HTTP responses they carry through
/// content filters.
pub struct RespmodWorkflow<F: ContentFilter> {
    content_filters: Vec<F>,
    max_response_size: usize,
    allow_modifications: bool,
}

impl<F: ContentFilter> RespmodWorkflow<F> {
    /// The largest response body that the workflow takes.
    pub closed spec fn max_size(&self) -> int {
        self.max_response_size as int
    }

    /// The number of filters.
    pub closed spec fn filter_count(&self) -> int {
        self.content_filters@.len() as int
    }

    /// The filters, in the order they run.
    pub closed spec fn filters(&self) -> Seq<F> {
        self.content_filters@
    }

    /// A workflow without filters for response bodies of at most
    /// `max_response_size` bytes.
    pub fn new(max_response_size: usize) -> (r: Self)
        ensures
            r.max_size() == max_response_size,
            r.filter_count() == 0,
    {
        RespmodWorkflow { content_filters: Vec::new(), max_response_size, allow_modifications: true }
    }

    /// Adds a filter after the others.
    pub fn add_content_filter(&mut self, filter: F)
        ensures
            final(self).max_size() == old(self).max_size(),
            final(self).filter_count() == old(self).filter_count() + 1,
    {
        self.content_filters.push(filter);
    }

    fn validate_request(&self, request: &IcapRequest) -> (r: Result<(), IcapError>)
        ensures
            match respmod_validation(*request, self.max_size()) {
                Some(m) => r matches Err(e) && error_is(e, m),
                None => r is Ok,
            },
    {
        if request.method != IcapMethod::Respmod {
            return Err(workflow_error("Expected RESPMOD method"));
        }
        match &request.encapsulated {
            None => Err(workflow_error("RESPMOD request must have encapsulated data")),
            Some(e) => match &e.res_body {
                Some(b) => if b.len() > self.max_response_size {
                    let m = too_large_exec("Response", b.len(), self.max_response_size);
                    Err(IcapError::resource_exhausted_simple(m.as_str()))
                } else {
                    Ok(())
                },
                None => Ok(()),
            },
        }
    }

    fn extract_http_request_and_response(&self, e: &EncapsulatedData) -> (r: Result<(HttpRequest, HttpResponse), IcapError>)
        ensures
            match extracted_pair(*e) {
                Ok((q, s)) => r matches Ok((a, b)) && http_req_view(a) == q && http_res_view(b) == s,
                Err(m) => r matches Err(x) && error_is(x, m),
            },
    {
        let req_headers = match &e.req_hdr {
            Some(h) => h.copy(),
            None => return Err(workflow_error("No request headers in encapsulated data")),
        };
        let req_body = match &e.req_body {
            Some(b) => copy_bytes(b.as_slice()),
            None => Vec::new(),
        };
        let http_request = HttpRequest {
            method: String::from_str("GET"),
            uri: String::from_str("/"),
            version: HttpVersion::Http11,
            headers: req_headers,
            body: req_body,
        };
        let res_headers = match &e.res_hdr {
            Some(h) => h.copy(),
            None => return Err(workflow_error("No response headers in encapsulated data")),
        };
        let res_body = match &e.res_body {
            Some(b) => copy_bytes(b.as_slice()),
            None => Vec::new(),
        };
        Ok((http_request, HttpResponse { status_code: 200, headers: res_headers, body: res_body }))
    }

    fn apply_content_filters(&self, response: &HttpResponse) -> (r: Result<HttpResponse, IcapError>)
        ensures
            r matches Ok(m) ==> response_filters_reach(self.filters(), http_res_view(*response), http_res_view(m)),
            self.filter_count() == 0 ==> (r matches Ok(m) && http_res_view(m) == http_res_view(*response)),
            r matches Err(e) ==> e is Service || e is Protocol,
    {
        let mut modified = copy_response(response);
        let mut i: usize = 0;
        let ghost mut states: Seq<HttpResModel> = seq![http_res_view(*response)];
        while i < self.content_filters.len()
            invariant
                i <= self.content_filters@.len(),
                states.len() == i + 1,
                states[0] == http_res_view(*response),
                states[i as int] == http_res_view(modified),
                forall|j: int|
                    0 <= j < i ==> #[trigger] response_filter_step(self.content_filters@[j], states[j], states[j + 1]),
            decreases self.content_filters@.len() - i,
        {
            let filter = &self.content_filters[i];
            let ghost before = http_res_view(modified);
            if modified.body.len() > 0 {
                match filter_response_bytes(filter, modified.body.as_slice()) {
                    Ok(v) => {
                        modified.body = v;
                    },
                    Err(e) => return Err(e),
                }
            }
            let block = header_block_exec(&modified.headers);
            let filtered = match filter_response_bytes(filter, block.as_slice()) {
                Ok(v) => v,
                Err(e) => return Err(e),
            };
            match parse_headers_from_bytes(filtered.as_slice()) {
                Ok(h) => {
                    modified.headers = h;
                },
                Err(e) => return Err(e),
            }
            proof {
                assert(response_filter_gives(self.content_filters@[i as int], header_block(before.fields), filtered@));
                assert(response_filter_step(self.content_filters@[i as int], before, http_res_view(modified)));
                let next = states.push(http_res_view(modified));
                assert forall|j: int| 0 <= j < i + 1 implies #[trigger] response_filter_step(
                    self.content_filters@[j],
                    next[j],
                    next[j + 1],
                ) by {
                    if j < i {
                        assert(next[j] == states[j] && next[j + 1] == states[j + 1]);
                    }
                }
                states = next;
            }
            i = i + 1;
        }
        proof {
            assert(response_filter_run(self.content_filters@, states));
        }
        Ok(modified)
    }

    /// The answer for the request `request` with HTTP request `http_request`,
    /// whose HTTP response `original` the filters made into `modified`: a
    /// block when `modified` is to be blocked, else no change when it equals
    /// `original`, else both messages with the modified response.
    pub fn decide_response(
        &self,
        request: &IcapRequest,
        http_request: &HttpRequest,
        original: &HttpResponse,
        modified: &HttpResponse,
    ) -> (r: IcapResponse)
        ensures
            response_view(r) == respmod_answer(
                *request,
                http_req_view(*http_request),
                http_res_view(*original),
                http_res_view(*modified),
            ),
    {
        if let Some(reason) = respmod_block_reason_exec(modified) {
            return blocked_response(request.version, reason, "Response blocked: ");
        }
        let same_body = bytes_equal(original.body.as_slice(), modified.body.as_slice());
        if same_body && same_fields_exec(&original.headers, &modified.headers) {
            return unchanged_response(request.version);
        }
        let mut headers = HeaderMap::new();
        headers.insert("ISTag", "\"g3icap-modified\"");
        let encapsulated = EncapsulatedData {
            req_hdr: Some(request_section_exec(http_request)),
            req_body: Some(copy_bytes(http_request.body.as_slice())),
            res_hdr: Some(response_section_exec(modified)),
            res_body: Some(copy_bytes(modified.body.as_slice())),
            null_body: false,
        };
        IcapResponse { status: 200, version: request.version, headers, body: Vec::new(), encapsulated: Some(encapsulated) }
    }

    /// Handles a RESPMOD request: refused when it is no RESPMOD request, has
    /// no encapsulated data or too large a response body, or lacks a header
    /// section; else its HTTP response goes through the filters, and the
    /// answer is `decide_response` of what comes out.
    pub fn process_request(&self, request: &IcapRequest) -> (r: Result<IcapResponse, IcapError>)
        ensures
            match respmod_validation(*request, self.max_size()) {
                Some(m) => r matches Err(e) && error_is(e, m),
                None => match extracted_pair(request.encapsulated->Some_0) {
                    Err(m) => r matches Err(e) && error_is(e, m),
                    Ok((req, orig)) => {
                        &&& r matches Ok(x) ==> exists|m: HttpResModel|
                            #[trigger] response_filters_reach(self.filters(), orig, m)
                                && response_view(x) == respmod_answer(*request, req, orig, m)
                        &&& self.filter_count() == 0 ==> (r matches Ok(x) && response_view(x) == respmod_answer(
                            *request,
                            req,
                            orig,
                            orig,
                        ))
                        &&& r matches Err(e) ==> e is Service || e is Protocol
                    },
                },
            },
    {
        match self.validate_request(request) {
            Err(e) => return Err(e),
            Ok(()) => {},
        }
        let e = match &request.encapsulated {
            Some(e) => e,
            None => return Err(workflow_error("No encapsulated data")),
        };
        let (http_request, http_response) = match self.extract_http_request_and_response(e) {
            Ok(p) => p,
            Err(x) => return Err(x),
        };
        let modified = match self.apply_content_filters(&http_response) {
            Ok(m) => m,
            Err(x) => return Err(x),
        };
        let x = self.decide_response(request, &http_request, &http_response, &modified);
        proof {
            assert(response_view(x) == respmod_answer(
                *request,
                http_req_view(http_request),
                http_res_view(http_response),
                http_res_view(modified),
            ));
            assert(response_filters_reach(
                self.filters(),
                http_res_view(http_response),
                http_res_view(modified),
            ));
        }
        Ok(x)
    }
}

} // verus!
