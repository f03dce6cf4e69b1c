//! Building ICAP responses for every status of RFC 3507, with the header
//! fields each status carries, and writing them out.

use vstd::prelude::*;
use vstd::utf8::encode_utf8;
use crate::protocol::fields::{HeaderMap, FieldView, set_field, map_get};
use crate::protocol::common::{
    IcapMethod, HttpVersion, IcapResponse, EncapsulatedData, method_name, method_debug_name,
    join_parts, is_visible_text,
};
use crate::protocol::parser::{ResponseModel, EncModel, response_view, enc_view};
use crate::text::{dec_chars, decimal_string, ascii_lower, ascii_lowercase, str_eq, extend_bytes};
use crate::bridge::{is_field_name, is_field_value, field_name_lower, field_value_ok};

verus! {

/// What a generator writes into every response: server name, ISTag value
/// and service id.
pub ghost struct GenModel {
    pub server_name: Seq<char>,
    pub server_version: Seq<char>,
    pub service_id: Option<Seq<char>>,
}

/// The text of an optional string argument.
pub open spec fn opt_text(m: Option<&str>) -> Option<Seq<char>> {
    match m {
        Some(s) => Some(s@),
        None => None,
    }
}

/// `"version"`, the ISTag value.
pub open spec fn istag_value(version: Seq<char>) -> Seq<char> {
    "\""@ + version + "\""@
}

/// The fields of every response: server, ISTag and, if set, service id.
pub open spec fn std_fields(g: GenModel) -> Seq<FieldView> {
    let f = set_field(set_field(Seq::empty(), "server"@, g.server_name), "istag"@, istag_value(g.server_version));
    match g.service_id {
        Some(id) => set_field(f, "service-id"@, id),
        None => f,
    }
}

/// The standard fields with `Encapsulated: null-body=0`.
pub open spec fn null_body_fields(g: GenModel) -> Seq<FieldView> {
    set_field(std_fields(g), "encapsulated"@, "null-body=0"@)
}

/// The fields of an error response: the standard ones, a null body,
/// `connection: close` and the content type; chunked ones add
/// `transfer-encoding: chunked`.
pub open spec fn error_fields(g: GenModel, chunked: bool, html: bool) -> Seq<FieldView> {
    let f = set_field(
        set_field(null_body_fields(g), "connection"@, "close"@),
        "content-type"@,
        if html { "text/html"@ } else { "text/plain"@ },
    );
    if chunked {
        set_field(f, "transfer-encoding"@, "chunked"@)
    } else {
        f
    }
}

/// `CODE message`, the body of an error response.
pub open spec fn error_text(status: u16, msg: Seq<char>) -> Seq<char> {
    dec_chars(status as nat) + " "@ + msg
}

/// An error response with the given body text.
pub open spec fn error_model(g: GenModel, status: u16, text: Seq<char>, chunked: bool, html: bool) -> ResponseModel {
    ResponseModel {
        status,
        version: HttpVersion::Http11,
        fields: error_fields(g, chunked, html),
        body: encode_utf8(text),
        enc: None,
    }
}

/// `prefix + m + suffix` for a given `m`, `default` otherwise.
pub open spec fn msg_or(m: Option<Seq<char>>, prefix: Seq<char>, suffix: Seq<char>, default: Seq<char>) -> Seq<char> {
    match m {
        Some(x) => prefix + x + suffix,
        None => default,
    }
}

/// A response that only sets `model.fields` and `model.status` anew.
pub open spec fn with_field(m: ResponseModel, name: Seq<char>, value: Seq<char>) -> ResponseModel {
    ResponseModel { fields: set_field(m.fields, name, value), ..m }
}

/// The Encapsulated value that the generator writes for `e`: each section
/// present with a number after it (the count of fields for a header, the
/// length for a body), then `null-body=0` when there is no body.
pub open spec fn gen_enc_parts(e: EncModel) -> Seq<Seq<char>> {
    let p0 = Seq::<Seq<char>>::empty();
    let p1 = match e.req_hdr { Some(h) => p0.push("req-hdr="@ + dec_chars(h.len())), None => p0 };
    let p2 = match e.res_hdr { Some(h) => p1.push("res-hdr="@ + dec_chars(h.len())), None => p1 };
    let p3 = match e.req_body { Some(b) => p2.push("req-body="@ + dec_chars(b.len())), None => p2 };
    let p4 = match e.res_body { Some(b) => p3.push("res-body="@ + dec_chars(b.len())), None => p3 };
    if e.null_body { p4.push("null-body=0"@) } else { p4 }
}

pub open spec fn gen_enc_text(e: EncModel) -> Seq<char> {
    join_parts(gen_enc_parts(e))
}

pub open spec fn enc_opt(e: Option<EncapsulatedData>) -> Option<EncModel> {
    match e {
        Some(d) => Some(enc_view(d)),
        None => None,
    }
}

/// The standard fields with the Encapsulated value of `e`, if any.
pub open spec fn fields_with_enc(g: GenModel, e: Option<EncModel>) -> Seq<FieldView> {
    match e {
        Some(m) => set_field(std_fields(g), "encapsulated"@, gen_enc_text(m)),
        None => std_fields(g),
    }
}

/// The reason phrase that the generator writes for a status.
pub open spec fn reason_phrase(status: u16) -> Seq<char> {

    if status == 100 {
        "Continue"@
    } else if status == 200 {
        "OK"@
    } else if status == 204 {
        "No Content"@
    } else if status == 304 {
        "Not Modified"@
    } else if status == 400 {
        "Bad Request"@
    } else if status == 403 {
        "Forbidden"@
    } else if status == 404 {
        "Not Found"@
    } else if status == 405 {
        "Method Not Allowed"@
    } else if status == 407 {
        "Proxy Authentication Required"@
    } else if status == 409 {
        "Conflict"@
    } else if status == 413 {
        "Request Entity Too Large"@
    } else if status == 415 {
        "Unsupported Media Type"@
    } else if status == 500 {
        "Internal Server Error"@
    } else if status == 501 {
        "Not Implemented"@
    } else if status == 502 {
        "Bad Gateway"@
    } else if status == 503 {
        "Service Unavailable"@
    } else if status == 505 {
        "HTTP Version Not Supported"@
    } else {
        "Unknown"@
    }
}

/// The HTML page of an error.
pub open spec fn html_error_page(status: u16, msg: Seq<char>) -> Seq<char> {
    let code = dec_chars(status as nat);
    let reason = reason_phrase(status);
    "<html>\n<head><title>"@ + code + " "@ + reason + "</title></head>\n<body>\n<div style=\"text-align: center;\"><h1>"@
        + code + " "@ + reason + "</h1>\n<p>"@ + msg + "</p></div>\n</body>\n</html>\n"@
}

/// Method names joined with `, `.
pub open spec fn methods_text(ms: Seq<IcapMethod>) -> Seq<char> {
    join_parts(Seq::new(ms.len(), |i: int| method_name(ms[i])))
}

pub open spec fn continue_model(g: GenModel) -> ResponseModel {
    ResponseModel { status: 100, version: HttpVersion::Http11, fields: null_body_fields(g), body: Seq::empty(), enc: None }
}

pub open spec fn ok_model(g: GenModel, e: Option<EncModel>, body: Seq<u8>, chunked: bool) -> ResponseModel {
    ResponseModel {
        status: 200,
        version: HttpVersion::Http11,
        fields: if chunked { set_field(fields_with_enc(g, e), "transfer-encoding"@, "chunked"@) } else { fields_with_enc(g, e) },
        body,
        enc: e,
    }
}

/// A 204: the standard fields and the Encapsulated value (`null-body=0`
/// when none is given).
pub open spec fn no_modifications_model(g: GenModel, e: Option<EncModel>) -> ResponseModel {
    ResponseModel {
        status: 204,
        version: HttpVersion::Http11,
        fields: set_field(
            std_fields(g),
            "encapsulated"@,
            match e { Some(m) => gen_enc_text(m), None => "null-body=0"@ },
        ),
        body: Seq::empty(),
        enc: e,
    }
}

pub open spec fn not_modified_model(g: GenModel) -> ResponseModel {
    ResponseModel { status: 304, version: HttpVersion::Http11, fields: null_body_fields(g), body: Seq::empty(), enc: None }
}

pub open spec fn bad_request_model(g: GenModel, m: Option<Seq<char>>) -> ResponseModel {
    error_model(g, 400, error_text(400, msg_or(m, "Bad Request: "@, ""@, "Malformed ICAP request"@)), false, false)
}

pub open spec fn bad_request_chunked_model(g: GenModel, m: Option<Seq<char>>) -> ResponseModel {
    error_model(g, 400, error_text(400, msg_or(m, "Bad Request: "@, ""@, "Malformed ICAP request"@)), true, false)
}

pub open spec fn forbidden_model(g: GenModel, m: Option<Seq<char>>) -> ResponseModel {
    error_model(g, 403, error_text(403, msg_or(m, "Forbidden: "@, ""@, "Access denied"@)), false, false)
}

pub open spec fn not_found_model(g: GenModel, m: Option<Seq<char>>) -> ResponseModel {
    error_model(g, 404, error_text(404, msg_or(m, "ICAP service '"@, "' is not available"@, "ICAP service not available"@)), false, false)
}

pub open spec fn conflict_model(g: GenModel, m: Option<Seq<char>>) -> ResponseModel {
    error_model(g, 409, error_text(409, msg_or(m, "Conflict: "@, ""@, "Request could not be completed due to a conflict"@)), false, false)
}

pub open spec fn unsupported_media_type_model(g: GenModel, m: Option<Seq<char>>) -> ResponseModel {
    error_model(g, 415, error_text(415, msg_or(m, "Content type '"@, "' is not supported"@, "Content type is not supported"@)), false, false)
}

pub open spec fn internal_server_error_model(g: GenModel, m: Option<Seq<char>>) -> ResponseModel {
    error_model(g, 500, error_text(500, msg_or(m, "Internal Server Error: "@, ""@, "An unexpected error occurred"@)), false, false)
}

pub open spec fn bad_gateway_model(g: GenModel, m: Option<Seq<char>>) -> ResponseModel {
    error_model(g, 502, error_text(502, msg_or(m, "Bad Gateway: "@, ""@, "Invalid response from downstream server"@)), false, false)
}

pub open spec fn version_not_supported_model(g: GenModel, m: Option<Seq<char>>) -> ResponseModel {
    error_model(g, 505, error_text(505, msg_or(m, "Version '"@, "' is not supported"@, "ICAP version is not supported"@)), false, false)
}

pub open spec fn forbidden_chunked_model(g: GenModel, m: Option<Seq<char>>) -> ResponseModel {
    error_model(
        g,
        403,
        "<html><body><h1>403 Forbidden</h1><p>Access Denied - "@ + msg_or(m, ""@, ""@, "Blocked"@) + "</p></body></html>"@,
        true,
        true,
    )
}

pub open spec fn internal_server_error_chunked_model(g: GenModel, m: Option<Seq<char>>) -> ResponseModel {
    error_model(g, 500, msg_or(m, "Internal scan failure: "@, ""@, "Internal scan failure"@), true, false)
}

pub open spec fn method_not_allowed_model(g: GenModel, method: IcapMethod, allowed: Seq<IcapMethod>) -> ResponseModel {
    with_field(
        error_model(
            g,
            405,
            error_text(
                405,
                method_debug_name(method) + " method is not allowed for this service. Allowed methods: "@
                    + methods_text(allowed),
            ),
            false,
            false,
        ),
        "allow"@,
        methods_text(allowed),
    )
}

pub open spec fn proxy_auth_required_model(g: GenModel, realm: Option<Seq<char>>) -> ResponseModel {
    with_field(
        error_model(g, 407, error_text(407, "Proxy Authentication Required"@), false, false),
        "proxy-authenticate"@,
        "Basic realm=\""@ + msg_or(realm, ""@, ""@, "ICAP Server"@) + "\""@,
    )
}

pub open spec fn request_too_large_model(g: GenModel, max_size: Option<usize>) -> ResponseModel {
    match max_size {
        Some(n) => with_field(
            error_model(g, 413, error_text(413, "Request exceeds maximum size of "@ + dec_chars(n as nat) + " bytes"@), false, false),
            "content-length"@,
            dec_chars(n as nat),
        ),
        None => error_model(g, 413, error_text(413, "Request exceeds maximum allowed size"@), false, false),
    }
}

pub open spec fn not_implemented_model(g: GenModel, method: Option<IcapMethod>) -> ResponseModel {
    error_model(
        g,
        501,
        error_text(501, match method {
            Some(m) => method_name(m) + " method is not supported"@,
            None => "Request method is not supported"@,
        }),
        false,
        false,
    )
}

pub open spec fn service_unavailable_model(g: GenModel, retry_after: Option<u64>) -> ResponseModel {
    let m = error_model(g, 503, error_text(503, "ICAP service is temporarily unavailable"@), false, false);
    match retry_after {
        Some(s) => with_field(m, "retry-after"@, dec_chars(s as nat)),
        None => m,
    }
}

pub open spec fn found_model(g: GenModel, location: Seq<char>) -> ResponseModel {
    ResponseModel {
        status: 302,
        version: HttpVersion::Http11,
        fields: set_field(set_field(std_fields(g), "location"@, location), "encapsulated"@, "null-body=0"@),
        body: Seq::empty(),
        enc: None,
    }
}

pub open spec fn html_error_model(g: GenModel, status: u16, msg: Seq<char>) -> ResponseModel {
    error_model(g, status, html_error_page(status, msg), false, true)
}

/// The response for a status and optional message, by status.
pub open spec fn status_model(g: GenModel, status: u16, m: Option<Seq<char>>, chunked: bool) -> ResponseModel {
    if status == 100 {
        continue_model(g)
    } else if status == 200 {
        ok_model(g, None, Seq::empty(), chunked)
    } else if status == 204 {
        no_modifications_model(g, None)
    } else if status == 304 {
        not_modified_model(g)
    } else if status == 400 {
        if chunked { bad_request_chunked_model(g, m) } else { bad_request_model(g, m) }
    } else if status == 403 {
        if chunked { forbidden_chunked_model(g, m) } else { forbidden_model(g, m) }
    } else if status == 404 {
        not_found_model(g, m)
    } else if status == 405 {
        method_not_allowed_model(g, IcapMethod::Options, seq![IcapMethod::Options, IcapMethod::Reqmod, IcapMethod::Respmod])
    } else if status == 407 {
        proxy_auth_required_model(g, m)
    } else if status == 409 {
        conflict_model(g, m)
    } else if status == 413 {
        request_too_large_model(g, None)
    } else if status == 415 {
        unsupported_media_type_model(g, m)
    } else if status == 500 {
        if chunked { internal_server_error_chunked_model(g, m) } else { internal_server_error_model(g, m) }
    } else if status == 501 {
        not_implemented_model(g, None)
    } else if status == 502 {
        bad_gateway_model(g, m)
    } else if status == 503 {
        service_unavailable_model(g, None)
    } else if status == 505 {
        version_not_supported_model(g, m)
    } else {
        error_model(g, status, error_text(status, msg_or(m, ""@, ""@, "Unknown error"@)), chunked, false)
    }
}


/// The statuses whose responses close the connection.
pub open spec fn closing_status(s: u16) -> bool {
    s == 400 || s == 401 || s == 403 || s == 404 || s == 405 || s == 408 || s == 409 || s == 413
        || s == 415 || s == 500 || s == 501 || s == 502 || s == 503 || s == 505
}

/// A response closes the connection when its Connection field reads `close`
/// (in any case), or when its status is one of the closing ones.
pub open spec fn closes_connection(m: ResponseModel) -> bool {
    (match map_get(m.fields, "connection"@) {
        Some(v) => is_visible_text(v) && ascii_lower(v) == "close"@,
        None => false,
    }) || closing_status(m.status)
}

/// The fields after setting each capability in order.
pub open spec fn caps_onto(f: Seq<FieldView>, caps: Seq<(Seq<char>, Seq<char>)>) -> Seq<FieldView>
    decreases caps.len(),
{
    if caps.len() == 0 {
        f
    } else {
        set_field(caps_onto(f, caps.drop_last()), caps.last().0, caps.last().1)
    }
}

pub open spec fn caps_view(caps: Seq<(String, String)>) -> Seq<(Seq<char>, Seq<char>)> {
    Seq::new(caps.len(), |i: int| (caps[i].0@, caps[i].1@))
}

/// The OPTIONS answer: 204 with the methods, the service description, the
/// capabilities and a null body.
pub open spec fn options_model(g: GenModel, ms: Seq<IcapMethod>, caps: Seq<(Seq<char>, Seq<char>)>) -> ResponseModel {
    ResponseModel {
        status: 204,
        version: HttpVersion::Http11,
        fields: set_field(
            caps_onto(
                set_field(
                    set_field(std_fields(g), "methods"@, methods_text(ms)),
                    "service"@,
                    "G3 ICAP Server - Content Filtering & Antivirus"@,
                ),
                caps,
            ),
            "encapsulated"@,
            "null-body=0"@,
        ),
        body: Seq::empty(),
        enc: None,
    }
}

pub open spec fn chunked_model(g: GenModel, status: u16, e: Option<EncModel>, body: Seq<u8>, content_type: Seq<char>) -> ResponseModel {
    ResponseModel {
        status,
        version: HttpVersion::Http11,
        fields: set_field(set_field(fields_with_enc(g, e), "content-type"@, content_type), "transfer-encoding"@, "chunked"@),
        body,
        enc: e,
    }
}

/// The response for an error kind of a proxy, by its name.
pub open spec fn error_type_model(g: GenModel, t: Seq<char>, m: Option<Seq<char>>) -> ResponseModel {
    if t == "InternalServerError"@ || t == "InternalAdapterError"@ || t == "InternalResolverError"@
        || t == "UnclassifiedError"@ {
        internal_server_error_model(g, m)
    } else if t == "InternalTlsClientError"@ {
        internal_server_error_model(g, Some("TLS client error"@))
    } else if t == "EscaperNotUsable"@ {
        service_unavailable_model(g, None)
    } else if t == "ForbiddenByRule"@ {
        forbidden_model(g, m)
    } else if t == "InvalidClientProtocol"@ || t == "ClientAppError"@ {
        bad_request_model(g, m)
    } else if t == "UnimplementedProtocol"@ {
        not_implemented_model(g, None)
    } else if t == "UpstreamNotResolved"@ {
        bad_gateway_model(g, Some("Upstream not resolved"@))
    } else if t == "UpstreamConnectFailed"@ {
        bad_gateway_model(g, Some("Upstream connection failed"@))
    } else if t == "UpstreamReadFailed"@ {
        bad_gateway_model(g, Some("Upstream read failed"@))
    } else if t == "UpstreamWriteFailed"@ {
        bad_gateway_model(g, Some("Upstream write failed"@))
    } else if t == "UpstreamTimeout"@ {
        service_unavailable_model(g, Some(30))
    } else if t == "ClientTcpWriteFailed"@ {
        internal_server_error_model(g, Some("Client write failed"@))
    } else if t == "ClientTcpReadFailed"@ {
        bad_request_model(g, Some("Client read failed"@))
    } else {
        internal_server_error_model(g, m)
    }
}

/// Header lines as stored: `name: value CR LF` each.
pub open spec fn raw_lines(s: Seq<FieldView>) -> Seq<char>
    decreases s.len(),
{
    if s.len() == 0 {
        Seq::empty()
    } else {
        raw_lines(s.drop_last()) + s.last().0 + ": "@ + s.last().1 + "\r\n"@
    }
}

/// A response on the wire as the generator writes it: status line, the
/// fields as stored, an empty line, the body.
pub open spec fn generated_wire(m: ResponseModel) -> Seq<u8> {
    encode_utf8("ICAP/1.0 "@ + dec_chars(m.status as nat) + " "@ + reason_phrase(m.status) + "\r\n"@
        + raw_lines(m.fields) + "\r\n"@) + m.body
}

/// Every error response tells the client to close the connection.
pub proof fn lemma_error_closes(g: GenModel, status: u16, text: Seq<char>, chunked: bool, html: bool)
    ensures
        closes_connection(error_model(g, status, text, chunked, html)),
{
    reveal_strlit("connection");
    reveal_strlit("close");
    reveal_strlit("content-type");
    reveal_strlit("transfer-encoding");
    let c = ascii_lower("connection"@);
    assert(c =~= "connection"@);
    assert(ascii_lower("content-type"@) != c) by {
        assert(ascii_lower("content-type"@)[3] != c[3]);
    }
    assert(ascii_lower("transfer-encoding"@) != c) by {
        assert(ascii_lower("transfer-encoding"@)[0] != c[0]);
    }
    assert(ascii_lower("close"@) =~= "close"@);
    assert(is_visible_text("close"@));
    let f0 = null_body_fields(g);
    let f1 = set_field(f0, "connection"@, "close"@);
    crate::protocol::fields::lemma_get_insert(f0, c, "close"@, c);
    let ct: Seq<char> = if html { "text/html"@ } else { "text/plain"@ };
    let f2 = set_field(f1, "content-type"@, ct);
    crate::protocol::fields::lemma_get_insert(f1, ascii_lower("content-type"@), ct, c);
    let f3 = set_field(f2, "transfer-encoding"@, "chunked"@);
    crate::protocol::fields::lemma_get_insert(f2, ascii_lower("transfer-encoding"@), "chunked"@, c);
}

/// The text `prefix + m + suffix` for a given `m`, `default` otherwise.
fn msg_or_exec(m: Option<&str>, prefix: &str, suffix: &str, default: &str) -> (r: String)
    ensures
        r@ == msg_or(opt_text(m), prefix@, suffix@, default@),
{
    match m {
        Some(x) => {
            let mut s = String::from_str(prefix);
            s.append(x);
            s.append(suffix);
            s
        },
        None => String::from_str(default),
    }
}

/// `CODE message`.
fn error_text_exec(status: u16, msg: &str) -> (r: String)
    ensures
        r@ == error_text(status, msg@),
{
    let mut s = decimal_string(status as u64);
    s.append(" ");
    s.append(msg);
    s
}

/// The UTF-8 bytes of `s`.
pub fn text_bytes(s: &str) -> (r: Vec<u8>)
    ensures
        r@ == encode_utf8(s@),
{
    let mut v: Vec<u8> = Vec::new();
    extend_bytes(&mut v, s.as_bytes());
    v
}

/// The method names joined with `, `.
pub fn methods_string(ms: &[IcapMethod]) -> (r: String)
    ensures
        r@ == methods_text(ms@),
{
    let ghost names = Seq::new(ms@.len(), |i: int| method_name(ms@[i]));
    let mut out = String::new();
    let mut i: usize = 0;
    while i < ms.len()
        invariant
            i <= ms@.len(),
            names == Seq::new(ms@.len(), |i: int| method_name(ms@[i])),
            out@ == join_parts(names.subrange(0, i as int)),
        decreases ms@.len() - i,
    {
        if i > 0 {
            out.append(", ");
        }
        let n = ms[i].to_string();
        out.append(n.as_str());
        proof {
            let s = names.subrange(0, i + 1);
            assert(s.drop_last() =~= names.subrange(0, i as int));
            if i == 0 {
                assert(out@ =~= s[0]);
            }
        }
        i = i + 1;
    }
    proof {
        assert(names.subrange(0, ms@.len() as int) =~= names);
    }
    out
}

fn gen_enc_string(e: &EncapsulatedData) -> (r: String)
    ensures
        r@ == gen_enc_text(enc_view(*e)),
{
    let mut parts: Vec<String> = Vec::new();
    if let Some(h) = &e.req_hdr {
        let mut p = String::from_str("req-hdr=");
        let d = decimal_string(h.len() as u64);
        p.append(d.as_str());
        parts.push(p);
    }
    if let Some(h) = &e.res_hdr {
        let mut p = String::from_str("res-hdr=");
        let d = decimal_string(h.len() as u64);
        p.append(d.as_str());
        parts.push(p);
    }
    if let Some(b) = &e.req_body {
        let mut p = String::from_str("req-body=");
        let d = decimal_string(b.len() as u64);
        p.append(d.as_str());
        parts.push(p);
    }
    if let Some(b) = &e.res_body {
        let mut p = String::from_str("res-body=");
        let d = decimal_string(b.len() as u64);
        p.append(d.as_str());
        parts.push(p);
    }
    if e.null_body {
        parts.push(String::from_str("null-body=0"));
    }
    proof {
        assert(crate::protocol::common::strings_view(parts@) =~= gen_enc_parts(enc_view(*e)));
    }
    crate::protocol::common::join_strings(&parts)
}

/// Builds ICAP responses that name this server.
pub struct IcapResponseGenerator {
    server_name: String,
    server_version: String,
    service_id: Option<String>,
}

impl IcapResponseGenerator {
    /// The server name, ISTag value and service id that this generator writes.
    pub closed spec fn model(&self) -> GenModel {
        GenModel {
            server_name: self.server_name@,
            server_version: self.server_version@,
            service_id: match self.service_id {
                Some(s) => Some(s@),
                None => None,
            },
        }
    }

    /// A generator without a service id.
    pub fn new(server_name: String, server_version: String) -> (r: Self)
        ensures
            r.model() == (GenModel { server_name: server_name@, server_version: server_version@, service_id: None }),
    {
        IcapResponseGenerator { server_name, server_version, service_id: None }
    }

    /// A generator with an optional service id.
    pub fn with_service_id(server_name: String, server_version: String, service_id: Option<String>) -> (r: Self)
        ensures
            r.model() == (GenModel {
                server_name: server_name@,
                server_version: server_version@,
                service_id: match service_id {
                    Some(s) => Some(s@),
                    None => None,
                },
            }),
    {
        IcapResponseGenerator { server_name, server_version, service_id }
    }

    /// Sets the service id.
    pub fn set_service_id(&mut self, service_id: Option<String>)
        ensures
            final(self).model() == (GenModel {
                service_id: match service_id {
                    Some(s) => Some(s@),
                    None => None,
                },
                ..old(self).model()
            }),
    {
        self.service_id = service_id;
    }

    fn standard_headers(&self) -> (r: HeaderMap)
        ensures
            r@ == std_fields(self.model()),
    {
        let mut h = HeaderMap::new();
        h.insert("server", self.server_name.as_str());
        let mut tag = String::from_str("\"");
        tag.append(self.server_version.as_str());
        tag.append("\"");
        h.insert("istag", tag.as_str());
        if let Some(id) = &self.service_id {
            h.insert("service-id", id.as_str());
        }
        h
    }

    fn null_body_headers(&self) -> (r: HeaderMap)
        ensures
            r@ == null_body_fields(self.model()),
    {
        let mut h = self.standard_headers();
        h.insert("encapsulated", "null-body=0");
        h
    }

    fn error_response(&self, status: u16, text: &str, chunked: bool, html: bool) -> (r: IcapResponse)
        ensures
            response_view(r) == error_model(self.model(), status, text@, chunked, html),
    {
        let mut h = self.null_body_headers();
        h.insert("connection", "close");
        if html {
            h.insert("content-type", "text/html");
        } else {
            h.insert("content-type", "text/plain");
        }
        if chunked {
            h.insert("transfer-encoding", "chunked");
        }
        IcapResponse { status, version: HttpVersion::Http11, headers: h, body: text_bytes(text), encapsulated: None }
    }

    /// 100 Continue.
    pub fn continue_response(&self) -> (r: IcapResponse)
        ensures
            response_view(r) == continue_model(self.model()),
    {
        IcapResponse {
            status: 100,
            version: HttpVersion::Http11,
            headers: self.null_body_headers(),
            body: Vec::new(),
            encapsulated: None,
        }
    }

    fn ok_response(&self, encapsulated: Option<EncapsulatedData>, body: Vec<u8>, chunked: bool) -> (r: IcapResponse)
        ensures
            response_view(r) == ok_model(self.model(), enc_opt(encapsulated), body@, chunked),
    {
        let mut h = self.standard_headers();
        if let Some(e) = &encapsulated {
            let t = gen_enc_string(e);
            h.insert("encapsulated", t.as_str());
        }
        if chunked {
            h.insert("transfer-encoding", "chunked");
        }
        IcapResponse { status: 200, version: HttpVersion::Http11, headers: h, body, encapsulated }
    }

    /// 200 OK with the modified message.
    pub fn ok_modified(&self, encapsulated: Option<EncapsulatedData>, body: Vec<u8>) -> (r: IcapResponse)
        ensures
            response_view(r) == ok_model(self.model(), enc_opt(encapsulated), body@, false),
    {
        self.ok_response(encapsulated, body, false)
    }

    /// 200 OK with the modified message, sent chunked.
    pub fn ok_modified_chunked(&self, encapsulated: Option<EncapsulatedData>, body: Vec<u8>) -> (r: IcapResponse)
        ensures
            response_view(r) == ok_model(self.model(), enc_opt(encapsulated), body@, true),
    {
        self.ok_response(encapsulated, body, true)
    }

    /// 204 No Modifications.
    pub fn no_modifications(&self, encapsulated: Option<EncapsulatedData>) -> (r: IcapResponse)
        ensures
            response_view(r) == no_modifications_model(self.model(), enc_opt(encapsulated)),
    {
        let mut h = self.standard_headers();
        match &encapsulated {
            Some(e) => {
                let t = gen_enc_string(e);
                h.insert("encapsulated", t.as_str());
            },
            None => {
                h.insert("encapsulated", "null-body=0");
            },
        }
        IcapResponse { status: 204, version: HttpVersion::Http11, headers: h, body: Vec::new(), encapsulated }
    }

    /// 302 Found, pointing at `location`.
    pub fn found(&self, location: &str) -> (r: IcapResponse)
        ensures
            response_view(r) == found_model(self.model(), location@),
    {
        let mut h = self.standard_headers();
        h.insert("location", location);
        h.insert("encapsulated", "null-body=0");
        IcapResponse { status: 302, version: HttpVersion::Http11, headers: h, body: Vec::new(), encapsulated: None }
    }

    /// 304 Not Modified.
    pub fn not_modified(&self) -> (r: IcapResponse)
        ensures
            response_view(r) == not_modified_model(self.model()),
    {
        IcapResponse {
            status: 304,
            version: HttpVersion::Http11,
            headers: self.null_body_headers(),
            body: Vec::new(),
            encapsulated: None,
        }
    }

    /// 400 Bad Request.
    pub fn bad_request(&self, message: Option<&str>) -> (r: IcapResponse)
        ensures
            response_view(r) == bad_request_model(self.model(), opt_text(message)),
    {
        let m = msg_or_exec(message, "Bad Request: ", "", "Malformed ICAP request");
        let t = error_text_exec(400, m.as_str());
        self.error_response(400, t.as_str(), false, false)
    }

    /// 400 Bad Request, sent chunked.
    pub fn bad_request_chunked(&self, message: Option<&str>) -> (r: IcapResponse)
        ensures
            response_view(r) == bad_request_chunked_model(self.model(), opt_text(message)),
    {
        let m = msg_or_exec(message, "Bad Request: ", "", "Malformed ICAP request");
        let t = error_text_exec(400, m.as_str());
        self.error_response(400, t.as_str(), true, false)
    }

    /// 403 Forbidden.
    pub fn forbidden(&self, reason: Option<&str>) -> (r: IcapResponse)
        ensures
            response_view(r) == forbidden_model(self.model(), opt_text(reason)),
    {
        let m = msg_or_exec(reason, "Forbidden: ", "", "Access denied");
        let t = error_text_exec(403, m.as_str());
        self.error_response(403, t.as_str(), false, false)
    }

    /// 404 Not Found: the service is not available.
    pub fn not_found(&self, service: Option<&str>) -> (r: IcapResponse)
        ensures
            response_view(r) == not_found_model(self.model(), opt_text(service)),
    {
        let m = msg_or_exec(service, "ICAP service '", "' is not available", "ICAP service not available");
        let t = error_text_exec(404, m.as_str());
        self.error_response(404, t.as_str(), false, false)
    }

    /// 409 Conflict.
    pub fn conflict(&self, reason: Option<&str>) -> (r: IcapResponse)
        ensures
            response_view(r) == conflict_model(self.model(), opt_text(reason)),
    {
        let m = msg_or_exec(reason, "Conflict: ", "", "Request could not be completed due to a conflict");
        let t = error_text_exec(409, m.as_str());
        self.error_response(409, t.as_str(), false, false)
    }

    /// 415 Unsupported Media Type.
    pub fn unsupported_media_type(&self, content_type: Option<&str>) -> (r: IcapResponse)
        ensures
            response_view(r) == unsupported_media_type_model(self.model(), opt_text(content_type)),
    {
        let m = msg_or_exec(content_type, "Content type '", "' is not supported", "Content type is not supported");
        let t = error_text_exec(415, m.as_str());
        self.error_response(415, t.as_str(), false, false)
    }

    /// 500 Internal Server Error.
    pub fn internal_server_error(&self, error: Option<&str>) -> (r: IcapResponse)
        ensures
            response_view(r) == internal_server_error_model(self.model(), opt_text(error)),
    {
        let m = msg_or_exec(error, "Internal Server Error: ", "", "An unexpected error occurred");
        let t = error_text_exec(500, m.as_str());
        self.error_response(500, t.as_str(), false, false)
    }

    /// 502 Bad Gateway.
    pub fn bad_gateway(&self, reason: Option<&str>) -> (r: IcapResponse)
        ensures
            response_view(r) == bad_gateway_model(self.model(), opt_text(reason)),
    {
        let m = msg_or_exec(reason, "Bad Gateway: ", "", "Invalid response from downstream server");
        let t = error_text_exec(502, m.as_str());
        self.error_response(502, t.as_str(), false, false)
    }

    /// 505 ICAP Version Not Supported.
    pub fn version_not_supported(&self, version: Option<&str>) -> (r: IcapResponse)
        ensures
            response_view(r) == version_not_supported_model(self.model(), opt_text(version)),
    {
        let m = msg_or_exec(version, "Version '", "' is not supported", "ICAP version is not supported");
        let t = error_text_exec(505, m.as_str());
        self.error_response(505, t.as_str(), false, false)
    }

    /// 403 Forbidden with an HTML page, sent chunked.
    pub fn forbidden_chunked(&self, reason: Option<&str>) -> (r: IcapResponse)
        ensures
            response_view(r) == forbidden_chunked_model(self.model(), opt_text(reason)),
    {
        let mut t = String::from_str("<html><body><h1>403 Forbidden</h1><p>Access Denied - ");
        let m = msg_or_exec(reason, "", "", "Blocked");
        t.append(m.as_str());
        t.append("</p></body></html>");
        self.error_response(403, t.as_str(), true, true)
    }

    /// 500 Internal Server Error for a failed scan, sent chunked.
    pub fn internal_server_error_chunked(&self, error: Option<&str>) -> (r: IcapResponse)
        ensures
            response_view(r) == internal_server_error_chunked_model(self.model(), opt_text(error)),
    {
        let t = msg_or_exec(error, "Internal scan failure: ", "", "Internal scan failure");
        self.error_response(500, t.as_str(), true, false)
    }

    /// 405 Method Not Allowed, listing the allowed methods.
    pub fn method_not_allowed(&self, method: &IcapMethod, allowed_methods: &[IcapMethod]) -> (r: IcapResponse)
        ensures
            response_view(r) == method_not_allowed_model(self.model(), *method, allowed_methods@),
    {
        let allowed = methods_string(allowed_methods);
        let mut m = String::from_str(method.debug_name());
        m.append(" method is not allowed for this service. Allowed methods: ");
        m.append(allowed.as_str());
        let t = error_text_exec(405, m.as_str());
        let mut r = self.error_response(405, t.as_str(), false, false);
        r.headers.insert("allow", allowed.as_str());
        r
    }

    /// 407 Proxy Authentication Required, with a Basic challenge for `realm`.
    pub fn proxy_auth_required(&self, realm: Option<&str>) -> (r: IcapResponse)
        ensures
            response_view(r) == proxy_auth_required_model(self.model(), opt_text(realm)),
    {
        let t = error_text_exec(407, "Proxy Authentication Required");
        let mut r = self.error_response(407, t.as_str(), false, false);
        let mut c = String::from_str("Basic realm=\"");
        let m = msg_or_exec(realm, "", "", "ICAP Server");
        c.append(m.as_str());
        c.append("\"");
        r.headers.insert("proxy-authenticate", c.as_str());
        r
    }

    /// 413 Request Too Large, with the limit when given.
    pub fn request_too_large(&self, max_size: Option<usize>) -> (r: IcapResponse)
        ensures
            response_view(r) == request_too_large_model(self.model(), max_size),
    {
        match max_size {
            Some(n) => {
                let d = decimal_string(n as u64);
                let mut m = String::from_str("Request exceeds maximum size of ");
                m.append(d.as_str());
                m.append(" bytes");
                let t = error_text_exec(413, m.as_str());
                let mut r = self.error_response(413, t.as_str(), false, false);
                r.headers.insert("content-length", d.as_str());
                r
            },
            None => {
                let t = error_text_exec(413, "Request exceeds maximum allowed size");
                self.error_response(413, t.as_str(), false, false)
            },
        }
    }

    /// 501 Not Implemented.
    pub fn not_implemented(&self, method: Option<&IcapMethod>) -> (r: IcapResponse)
        ensures
            response_view(r) == not_implemented_model(
                self.model(),
                match method {
                    Some(m) => Some(*m),
                    None => None,
                },
            ),
    {
        let m = match method {
            Some(x) => {
                let mut s = x.to_string();
                s.append(" method is not supported");
                s
            },
            None => String::from_str("Request method is not supported"),
        };
        let t = error_text_exec(501, m.as_str());
        self.error_response(501, t.as_str(), false, false)
    }

    /// 503 Service Unavailable, with a Retry-After when given.
    pub fn service_unavailable(&self, retry_after: Option<u64>) -> (r: IcapResponse)
        ensures
            response_view(r) == service_unavailable_model(self.model(), retry_after),
    {
        let t = error_text_exec(503, "ICAP service is temporarily unavailable");
        let mut r = self.error_response(503, t.as_str(), false, false);
        if let Some(s) = retry_after {
            let d = decimal_string(s);
            r.headers.insert("retry-after", d.as_str());
        }
        r
    }

    /// A response with the given parts.
    pub fn custom_response(
        &self,
        status: u16,
        headers: HeaderMap,
        body: Vec<u8>,
        encapsulated: Option<EncapsulatedData>,
    ) -> (r: IcapResponse)
        ensures
            r.status == status,
            r.version == HttpVersion::Http11,
            r.headers == headers,
            r.body == body,
            r.encapsulated == encapsulated,
    {
        IcapResponse { status, version: HttpVersion::Http11, headers, body, encapsulated }
    }
    /// The OPTIONS answer: the methods, the service description and the
    /// capabilities, in the order given.
    pub fn options_response(&self, methods: &[IcapMethod], capabilities: &[(String, String)]) -> (r: IcapResponse)
        ensures
            response_view(r) == options_model(self.model(), methods@, caps_view(capabilities@)),
    {
        let mut h = self.standard_headers();
        let m = methods_string(methods);
        h.insert("methods", m.as_str());
        h.insert("service", "G3 ICAP Server - Content Filtering & Antivirus");
        let ghost base = h@;
        let mut i: usize = 0;
        while i < capabilities.len()
            invariant
                i <= capabilities@.len(),
                h@ == caps_onto(base, caps_view(capabilities@).subrange(0, i as int)),
            decreases capabilities@.len() - i,
        {
            let (k, v) = &capabilities[i];
            h.insert(k.as_str(), v.as_str());
            proof {
                let c = caps_view(capabilities@).subrange(0, i + 1);
                assert(c.drop_last() =~= caps_view(capabilities@).subrange(0, i as int));
            }
            i = i + 1;
        }
        proof {
            assert(caps_view(capabilities@).subrange(0, capabilities@.len() as int) =~= caps_view(capabilities@));
        }
        h.insert("encapsulated", "null-body=0");
        IcapResponse { status: 204, version: HttpVersion::Http11, headers: h, body: Vec::new(), encapsulated: None }
    }

    /// The HTML page of an error.
    pub fn format_html_error_message(&self, status: u16, message: &str) -> (r: String)
        ensures
            r@ == html_error_page(status, message@),
    {
        let code = decimal_string(status as u64);
        let reason = Self::get_reason_phrase(status);
        let mut s = String::from_str("<html>\n<head><title>");
        s.append(code.as_str());
        s.append(" ");
        s.append(reason);
        s.append("</title></head>\n<body>\n<div style=\"text-align: center;\"><h1>");
        s.append(code.as_str());
        s.append(" ");
        s.append(reason);
        s.append("</h1>\n<p>");
        s.append(message);
        s.append("</p></div>\n</body>\n</html>\n");
        s
    }

    /// The response for `status`, with `message` where the status takes one.
    pub fn from_status_code(&self, status: u16, message: Option<&str>) -> (r: IcapResponse)
        ensures
            response_view(r) == status_model(self.model(), status, opt_text(message), false),
    {
        self.status_response(status, message, false)
    }

    /// The response for `status`, sent chunked where the status has a chunked form.
    pub fn from_status_code_chunked(&self, status: u16, message: Option<&str>) -> (r: IcapResponse)
        ensures
            response_view(r) == status_model(self.model(), status, opt_text(message), true),
    {
        self.status_response(status, message, true)
    }

    fn status_response(&self, status: u16, message: Option<&str>, chunked: bool) -> (r: IcapResponse)
        ensures
            response_view(r) == status_model(self.model(), status, opt_text(message), chunked),
    {
        if status == 100 {
            self.continue_response()
        } else if status == 200 {
            self.ok_response(None, Vec::new(), chunked)
        } else if status == 204 {
            self.no_modifications(None)
        } else if status == 304 {
            self.not_modified()
        } else if status == 400 {
            if chunked { self.bad_request_chunked(message) } else { self.bad_request(message) }
        } else if status == 403 {
            if chunked { self.forbidden_chunked(message) } else { self.forbidden(message) }
        } else if status == 404 {
            self.not_found(message)
        } else if status == 405 {
            let allowed = [IcapMethod::Options, IcapMethod::Reqmod, IcapMethod::Respmod];
            let r = self.method_not_allowed(&IcapMethod::Options, &allowed);
            proof {
                assert(allowed@ =~= seq![IcapMethod::Options, IcapMethod::Reqmod, IcapMethod::Respmod]);
            }
            r
        } else if status == 407 {
            self.proxy_auth_required(message)
        } else if status == 409 {
            self.conflict(message)
        } else if status == 413 {
            self.request_too_large(None)
        } else if status == 415 {
            self.unsupported_media_type(message)
        } else if status == 500 {
            if chunked { self.internal_server_error_chunked(message) } else { self.internal_server_error(message) }
        } else if status == 501 {
            self.not_implemented(None)
        } else if status == 502 {
            self.bad_gateway(message)
        } else if status == 503 {
            self.service_unavailable(None)
        } else if status == 505 {
            self.version_not_supported(message)
        } else {
            let m = msg_or_exec(message, "", "", "Unknown error");
            let t = error_text_exec(status, m.as_str());
            self.error_response(status, t.as_str(), chunked, false)
        }
    }

    /// True for the error statuses, 400 and up.
    pub fn is_error_status(status: u16) -> (r: bool)
        ensures
            r == (status >= 400),
    {
        status >= 400
    }

    /// The reason phrase that the generator writes for `status`.
    pub fn get_reason_phrase(status: u16) -> (r: &'static str)
        ensures
            r@ == reason_phrase(status),
    {
        if status == 100 {
            "Continue"
        } else if status == 200 {
            "OK"
        } else if status == 204 {
            "No Content"
        } else if status == 304 {
            "Not Modified"
        } else if status == 400 {
            "Bad Request"
        } else if status == 403 {
            "Forbidden"
        } else if status == 404 {
            "Not Found"
        } else if status == 405 {
            "Method Not Allowed"
        } else if status == 407 {
            "Proxy Authentication Required"
        } else if status == 409 {
            "Conflict"
        } else if status == 413 {
            "Request Entity Too Large"
        } else if status == 415 {
            "Unsupported Media Type"
        } else if status == 500 {
            "Internal Server Error"
        } else if status == 501 {
            "Not Implemented"
        } else if status == 502 {
            "Bad Gateway"
        } else if status == 503 {
            "Service Unavailable"
        } else if status == 505 {
            "HTTP Version Not Supported"
        } else {
            "Unknown"
        }
    }

    /// Chunked transfer suits a body of unknown size or one above 1 MiB.
    pub fn should_use_chunked_encoding(&self, body_size: Option<usize>) -> (r: bool)
        ensures
            r == match body_size {
                None => true,
                Some(n) => n > 1048576,
            },
    {
        match body_size {
            None => true,
            Some(size) => size > 1024 * 1024,
        }
    }

    /// A response sent chunked, with the content type given.
    pub fn create_chunked_response(
        &self,
        status: u16,
        encapsulated: Option<EncapsulatedData>,
        body: Vec<u8>,
        content_type: &str,
    ) -> (r: IcapResponse)
        ensures
            response_view(r) == chunked_model(self.model(), status, enc_opt(encapsulated), body@, content_type@),
    {
        let mut h = self.standard_headers();
        if let Some(e) = &encapsulated {
            let t = gen_enc_string(e);
            h.insert("encapsulated", t.as_str());
        }
        h.insert("content-type", content_type);
        h.insert("transfer-encoding", "chunked");
        IcapResponse { status, version: HttpVersion::Http11, headers: h, body, encapsulated }
    }

    /// The response for an error kind of a proxy, named as text.
    pub fn from_error_type(&self, error_type: &str, message: Option<&str>) -> (r: IcapResponse)
        ensures
            response_view(r) == error_type_model(self.model(), error_type@, opt_text(message)),
    {
        let t = error_type;
        if str_eq(t, "InternalServerError") || str_eq(t, "InternalAdapterError") || str_eq(t, "InternalResolverError")
            || str_eq(t, "UnclassifiedError") {
            self.internal_server_error(message)
        } else if str_eq(t, "InternalTlsClientError") {
            self.internal_server_error(Some("TLS client error"))
        } else if str_eq(t, "EscaperNotUsable") {
            self.service_unavailable(None)
        } else if str_eq(t, "ForbiddenByRule") {
            self.forbidden(message)
        } else if str_eq(t, "InvalidClientProtocol") || str_eq(t, "ClientAppError") {
            self.bad_request(message)
        } else if str_eq(t, "UnimplementedProtocol") {
            self.not_implemented(None)
        } else if str_eq(t, "UpstreamNotResolved") {
            self.bad_gateway(Some("Upstream not resolved"))
        } else if str_eq(t, "UpstreamConnectFailed") {
            self.bad_gateway(Some("Upstream connection failed"))
        } else if str_eq(t, "UpstreamReadFailed") {
            self.bad_gateway(Some("Upstream read failed"))
        } else if str_eq(t, "UpstreamWriteFailed") {
            self.bad_gateway(Some("Upstream write failed"))
        } else if str_eq(t, "UpstreamTimeout") {
            self.service_unavailable(Some(30))
        } else if str_eq(t, "ClientTcpWriteFailed") {
            self.internal_server_error(Some("Client write failed"))
        } else if str_eq(t, "ClientTcpReadFailed") {
            self.bad_request(Some("Client read failed"))
        } else {
            self.internal_server_error(message)
        }
    }

    /// An error response whose body is the HTML page of the error.
    pub fn html_error_response(&self, status: u16, message: &str) -> (r: IcapResponse)
        ensures
            response_view(r) == html_error_model(self.model(), status, message@),
    {
        let t = self.format_html_error_message(status, message);
        self.error_response(status, t.as_str(), false, true)
    }

    /// The response on the wire: status line, the fields as stored, an empty
    /// line, the body.
    pub fn serialize_response(&self, response: &IcapResponse) -> (r: Vec<u8>)
        ensures
            r@ == generated_wire(response_view(*response)),
    {
        let mut head = String::from_str("ICAP/1.0 ");
        let code = decimal_string(response.status as u64);
        head.append(code.as_str());
        head.append(" ");
        head.append(Self::get_reason_phrase(response.status));
        head.append("\r\n");
        let ghost start = head@;
        let h = &response.headers;
        let mut i: usize = 0;
        while i < h.len()
            invariant
                i <= h@.len(),
                head@ == start + raw_lines(h@.subrange(0, i as int)),
            decreases h@.len() - i,
        {
            let (n, v) = h.entry(i);
            head.append(n.as_str());
            head.append(": ");
            head.append(v.as_str());
            head.append("\r\n");
            proof {
                let s = h@.subrange(0, i + 1);
                assert(s.drop_last() =~= h@.subrange(0, i as int));
                assert(head@ =~= start + raw_lines(s));
            }
            i = i + 1;
        }
        proof {
            assert(h@.subrange(0, h@.len() as int) =~= h@);
        }
        head.append("\r\n");
        let mut out = text_bytes(head.as_str());
        extend_bytes(&mut out, response.body.as_slice());
        proof {
            assert(head@ =~= "ICAP/1.0 "@ + dec_chars(response.status as nat) + " "@ + reason_phrase(
                response.status,
            ) + "\r\n"@ + raw_lines(response.headers@) + "\r\n"@);
        }
        out
    }

    /// True when the response closes the connection: its Connection field
    /// reads `close`, or its status is a closing one.
    pub fn should_close_connection(&self, response: &IcapResponse) -> (r: bool)
        ensures
            r == closes_connection(response_view(*response)),
    {
        proof {
            reveal_strlit("connection");
            assert(ascii_lower("connection"@) =~= "connection"@);
        }
        if let Some(c) = response.headers.get("connection") {
            if crate::protocol::common::is_visible_exec(c.as_str()) {
                let l = ascii_lowercase(c.as_str());
                if str_eq(l.as_str(), "close") {
                    return true;
                }
            }
        }
        let s = response.status;
        s == 400 || s == 401 || s == 403 || s == 404 || s == 405 || s == 408 || s == 409 || s == 413
            || s == 415 || s == 500 || s == 501 || s == 502 || s == 503 || s == 505
    }

    /// Sets a field when `http` takes both its name and its value.
    pub fn add_custom_header(&self, headers: &mut HeaderMap, name: &str, value: &str)
        ensures
            final(headers)@ == if is_field_name(name@) && is_field_value(value@) {
                set_field(old(headers)@, name@, value@)
            } else {
                old(headers)@
            },
    {
        if field_name_lower(name).is_some() && field_value_ok(value) {
            headers.insert(name, value);
        }
    }

    /// The generator as text: `IcapResponseGenerator(name, version)`.
    pub fn to_string(&self) -> (r: String)
        ensures
            r@ == "IcapResponseGenerator("@ + self.model().server_name + ", "@ + self.model().server_version
                + ")"@,
    {
        let mut s = String::from_str("IcapResponseGenerator(");
        s.append(self.server_name.as_str());
        s.append(", ");
        s.append(self.server_version.as_str());
        s.append(")");
        s
    }
}

impl Default for IcapResponseGenerator {
    fn default() -> (r: Self)
        ensures
            r.model() == (GenModel { server_name: "G3ICAP/1.0.0"@, server_version: "g3icap-1.0.0"@, service_id: None }),
    {
        Self::new(String::from_str("G3ICAP/1.0.0"), String::from_str("g3icap-1.0.0"))
    }
}

} // verus!
