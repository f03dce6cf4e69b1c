//! ICAP messages: methods, versions, requests, responses and the HTTP
//! messages they encapsulate.

use vstd::prelude::*;
use std::collections::HashMap;
use vstd::utf8::{encode_utf8, valid_utf8, decode_utf8};
use crate::protocol::fields::{HeaderMap, FieldView, map_get};
use crate::text::{
    is_ascii_text, ascii_upper, ascii_upper_char, ascii_lower, ascii_upper_char_exec, str_eq, str_chars,
    dec_chars, decimal_string, extend_bytes,
};
use crate::bridge::{
    unicode_upper, to_uppercase, chars_string, canonical_reason, canonical_reason_of, utf8_chars,
};
use crate::error::IcapError;
use crate::protocol::parser::{
    request_parse, response_parse, request_view, response_view, parse_icap_request_chars,
    parse_icap_response_chars,
};

verus! {

/// ICAP methods (RFC 3507 §4.3.2).
#[derive(PartialEq, Eq, Structural, Clone, Copy, Debug)]
pub enum IcapMethod {
    /// Request modification.
    Reqmod,
    /// Response modification.
    Respmod,
    /// Service discovery.
    Options,
}

/// The name of a method on the wire.
pub open spec fn method_name(m: IcapMethod) -> Seq<char> {
    match m {
        IcapMethod::Reqmod => "REQMOD"@,
        IcapMethod::Respmod => "RESPMOD"@,
        IcapMethod::Options => "OPTIONS"@,
    }
}

/// The name of a method as `Debug` writes it.
pub open spec fn method_debug_name(m: IcapMethod) -> Seq<char> {
    match m {
        IcapMethod::Reqmod => "Reqmod"@,
        IcapMethod::Respmod => "Respmod"@,
        IcapMethod::Options => "Options"@,
    }
}

/// The method that a text names once upper-cased; any other text means OPTIONS.
pub open spec fn method_from_upper(u: Seq<char>) -> IcapMethod {
    if u == "REQMOD"@ {
        IcapMethod::Reqmod
    } else if u == "RESPMOD"@ {
        IcapMethod::Respmod
    } else {
        IcapMethod::Options
    }
}

/// The method that a text names (compared after Unicode upper-casing).
pub open spec fn method_from_text(s: Seq<char>) -> IcapMethod {
    method_from_upper(unicode_upper(s))
}

/// Reading back the name of a method gives the method.
pub proof fn lemma_method_name_roundtrip(m: IcapMethod)
    ensures
        is_ascii_text(method_name(m)),
        method_from_upper(ascii_upper(method_name(m))) == m,
{
    reveal_strlit("REQMOD");
    reveal_strlit("RESPMOD");
    reveal_strlit("OPTIONS");
    assert(ascii_upper("REQMOD"@) =~= "REQMOD"@);
    assert(ascii_upper("RESPMOD"@) =~= "RESPMOD"@);
    assert(ascii_upper("OPTIONS"@) =~= "OPTIONS"@);
    assert("REQMOD"@ != "RESPMOD"@);
    assert("REQMOD"@ != "OPTIONS"@);
    assert("RESPMOD"@ != "OPTIONS"@ ) by {
        assert("RESPMOD"@[0] != "OPTIONS"@[0]);
    }
}

impl IcapMethod {
    /// The method that `s` names, without regard to case; any other text
    /// means OPTIONS.
    pub fn parse_text(s: &str) -> (r: IcapMethod)
        ensures
            r == method_from_text(s@),
            is_ascii_text(s@) ==> r == method_from_upper(ascii_upper(s@)),
    {
        let u = to_uppercase(s);
        if str_eq(u.as_str(), "REQMOD") {
            IcapMethod::Reqmod
        } else if str_eq(u.as_str(), "RESPMOD") {
            IcapMethod::Respmod
        } else {
            IcapMethod::Options
        }
    }

    /// The name of the method on the wire.
    pub fn to_string(&self) -> (r: String)
        ensures
            r@ == method_name(*self),
    {
        match self {
            IcapMethod::Reqmod => String::from_str("REQMOD"),
            IcapMethod::Respmod => String::from_str("RESPMOD"),
            IcapMethod::Options => String::from_str("OPTIONS"),
        }
    }

    /// The name of the method as `Debug` writes it.
    pub fn debug_name(&self) -> (r: &'static str)
        ensures
            r@ == method_debug_name(*self),
    {
        match self {
            IcapMethod::Reqmod => "Reqmod",
            IcapMethod::Respmod => "Respmod",
            IcapMethod::Options => "Options",
        }
    }
}

impl<'a> From<&'a str> for IcapMethod {
    fn from(s: &'a str) -> (r: IcapMethod) {
        IcapMethod::parse_text(s)
    }
}

impl<'a> vstd::std_specs::convert::FromSpecImpl<&'a str> for IcapMethod {
    open spec fn obeys_from_spec() -> bool {
        true
    }

    open spec fn from_spec(s: &'a str) -> IcapMethod {
        method_from_text(s@)
    }
}

/// Protocol versions that a message may carry (ICAP/1.0 is held as HTTP/1.1).
#[derive(PartialEq, Eq, Structural, Clone, Copy, Debug)]
pub enum HttpVersion {
    Http09,
    Http10,
    Http11,
    Http2,
    Http3,
}

/// The HTTP messages that an ICAP message encapsulates.
#[derive(Clone, Debug)]
pub struct EncapsulatedData {
    /// HTTP request header
    pub req_hdr: Option<HeaderMap>,
    /// HTTP request body
    pub req_body: Option<Vec<u8>>,
    /// HTTP response header
    pub res_hdr: Option<HeaderMap>,
    /// HTTP response body
    pub res_body: Option<Vec<u8>>,
    /// No body follows
    pub null_body: bool,
}

/// An ICAP request.
#[derive(Clone, Debug)]
pub struct IcapRequest {
    pub method: IcapMethod,
    /// The request URI, in the normal form of `http::Uri`.
    pub uri: String,
    pub version: HttpVersion,
    pub headers: HeaderMap,
    pub body: Vec<u8>,
    pub encapsulated: Option<EncapsulatedData>,
}

/// An ICAP response.
#[derive(Clone, Debug)]
pub struct IcapResponse {
    /// Status code.
    pub status: u16,
    pub version: HttpVersion,
    pub headers: HeaderMap,
    pub body: Vec<u8>,
    pub encapsulated: Option<EncapsulatedData>,
}

/// An ICAP service: its name, description, methods and options.
#[derive(Clone, Debug)]
pub struct IcapService {
    pub name: String,
    pub description: String,
    pub methods: Vec<IcapMethod>,
    pub options: HashMap<String, String>,
}


/// The version text of a request line: ICAP/1.0 for HTTP/1.1 (which stands
/// for ICAP/1.0) and HTTP/0.9, the HTTP version otherwise.
pub open spec fn version_text(v: HttpVersion) -> Seq<char> {
    match v {
        HttpVersion::Http10 => "HTTP/1.0"@,
        HttpVersion::Http2 => "HTTP/2.0"@,
        HttpVersion::Http3 => "HTTP/3.0"@,
        _ => "ICAP/1.0"@,
    }
}

pub fn version_str(v: HttpVersion) -> (r: &'static str)
    ensures
        r@ == version_text(v),
{
    match v {
        HttpVersion::Http10 => "HTTP/1.0",
        HttpVersion::Http2 => "HTTP/2.0",
        HttpVersion::Http3 => "HTTP/3.0",
        _ => "ICAP/1.0",
    }
}

/// Visible ASCII and tab only (what `HeaderValue::to_str` accepts).
pub open spec fn is_visible_text(v: Seq<char>) -> bool {
    forall|i: int| 0 <= i < v.len() ==> (#[trigger] v[i] == '\t' || (' ' <= v[i] && v[i] <= '~'))
}

/// The value as a header line shows it: itself when visible text, else nothing.
pub open spec fn shown_value(v: Seq<char>) -> Seq<char> {
    if is_visible_text(v) {
        v
    } else {
        Seq::empty()
    }
}

/// A name with the first letter of each dash-separated word in upper case.
pub open spec fn title_case(n: Seq<char>) -> Seq<char> {
    Seq::new(
        n.len(),
        |i: int|
            if i == 0 || n[i - 1] == '-' {
                ascii_upper_char(n[i])
            } else {
                n[i]
            },
    )
}

/// The spelling of a field name on the wire: `ISTag` for `istag`, the
/// title-cased name otherwise.
pub open spec fn wire_name(n: Seq<char>) -> Seq<char> {
    if n == "istag"@ {
        "ISTag"@
    } else {
        title_case(n)
    }
}

/// One header line.
pub open spec fn field_line(f: FieldView) -> Seq<char> {
    wire_name(f.0) + ": "@ + shown_value(f.1) + "\r\n"@
}

/// The header lines of the fields, in order.
pub open spec fn field_lines(s: Seq<FieldView>) -> Seq<char>
    decreases s.len(),
{
    if s.len() == 0 {
        Seq::empty()
    } else {
        field_lines(s.drop_last()) + field_line(s.last())
    }
}

/// Number of bytes of the fields written as `name: value CR LF` lines.
pub open spec fn fields_byte_len(s: Seq<FieldView>) -> nat
    decreases s.len(),
{
    if s.len() == 0 {
        0
    } else {
        fields_byte_len(s.drop_last()) + encode_utf8(s.last().0).len() + encode_utf8(s.last().1).len()
            + 4
    }
}

/// Number of bytes of a header block: its lines and the empty line after them.
pub open spec fn header_block_len(s: Seq<FieldView>) -> nat {
    fields_byte_len(s) + 2
}

pub open spec fn opt_fields_len(h: Option<HeaderMap>) -> nat {
    match h {
        Some(m) => header_block_len(m@),
        None => 0,
    }
}

pub open spec fn opt_body_len(b: Option<Vec<u8>>) -> nat {
    match b {
        Some(v) => v@.len(),
        None => 0,
    }
}

/// The parts of an Encapsulated header: each section present, with the
/// offset at which it starts, then `null-body=0` when there is no body.
pub open spec fn encapsulated_parts(e: EncapsulatedData) -> Seq<Seq<char>> {
    let o1 = opt_fields_len(e.req_hdr);
    let o2 = o1 + opt_fields_len(e.res_hdr);
    let o3 = o2 + opt_body_len(e.req_body);
    let p0 = Seq::<Seq<char>>::empty();
    let p1 = if e.req_hdr is Some { p0.push("req-hdr="@ + dec_chars(0)) } else { p0 };
    let p2 = if e.res_hdr is Some { p1.push("res-hdr="@ + dec_chars(o1)) } else { p1 };
    let p3 = if e.req_body is Some { p2.push("req-body="@ + dec_chars(o2)) } else { p2 };
    let p4 = if e.res_body is Some { p3.push("res-body="@ + dec_chars(o3)) } else { p3 };
    if e.null_body { p4.push("null-body=0"@) } else { p4 }
}

/// The size of all the sections: the largest offset an Encapsulated header holds.
pub open spec fn encapsulated_size(e: EncapsulatedData) -> nat {
    opt_fields_len(e.req_hdr) + opt_fields_len(e.res_hdr) + opt_body_len(e.req_body)
}

/// Parts joined with `, ` between them.
pub open spec fn join_parts(p: Seq<Seq<char>>) -> Seq<char>
    decreases p.len(),
{
    if p.len() == 0 {
        Seq::empty()
    } else if p.len() == 1 {
        p[0]
    } else {
        join_parts(p.drop_last()) + ", "@ + p.last()
    }
}

/// The value of the Encapsulated header of `e`.
pub open spec fn encapsulated_text(e: EncapsulatedData) -> Seq<char> {
    join_parts(encapsulated_parts(e))
}

/// The Encapsulated line of a message, if it carries encapsulated data.
pub open spec fn encapsulated_line(e: Option<EncapsulatedData>) -> Seq<char> {
    match e {
        Some(d) => "Encapsulated: "@ + encapsulated_text(d) + "\r\n"@,
        None => Seq::empty(),
    }
}

/// The head of a request on the wire: request line, header lines, the
/// Encapsulated line, the empty line.
pub open spec fn request_head(r: IcapRequest) -> Seq<char> {
    method_name(r.method) + " "@ + r.uri@ + " "@ + version_text(r.version) + "\r\n"@ + field_lines(
        r.headers@,
    ) + encapsulated_line(r.encapsulated) + "\r\n"@
}

/// The reason phrase of a status line: `No Modifications` for 204, the
/// canonical phrase of the code otherwise, `Unknown` where there is none.
pub open spec fn status_reason(code: u16) -> Seq<char> {
    if code == 204 {
        "No Modifications"@
    } else {
        match canonical_reason(code) {
            Some(t) => t,
            None => "Unknown"@,
        }
    }
}

/// The head of a response on the wire: status line, header lines, the
/// Encapsulated line unless a field already carries it, the empty line.
pub open spec fn response_head(r: IcapResponse) -> Seq<char> {
    "ICAP/1.0 "@ + dec_chars(r.status as nat) + " "@ + status_reason(r.status) + "\r\n"@
        + field_lines(r.headers@) + (if map_get(r.headers@, "encapsulated"@) is Some {
        Seq::empty()
    } else {
        encapsulated_line(r.encapsulated)
    }) + "\r\n"@
}

/// The body of a response on the wire: none for 204 (RFC 3507 §4.6).
pub open spec fn response_body(r: IcapResponse) -> Seq<u8> {
    if r.status == 204 {
        Seq::empty()
    } else {
        r.body@
    }
}

pub open spec fn encapsulated_fits(e: Option<EncapsulatedData>) -> bool {
    match e {
        Some(d) => encapsulated_size(d) <= usize::MAX,
        None => true,
    }
}

pub fn is_visible_exec(v: &str) -> (r: bool)
    ensures
        r == is_visible_text(v@),
{
    let cs = str_chars(v);
    let mut i: usize = 0;
    while i < cs.len()
        invariant
            i <= cs@.len(),
            cs@ == v@,
            forall|j: int| 0 <= j < i ==> (#[trigger] cs@[j] == '\t' || (' ' <= cs@[j] && cs@[j] <= '~')),
        decreases cs@.len() - i,
    {
        let c = cs[i];
        if !(c == '\t' || (' ' <= c && c <= '~')) {
            return false;
        }
        i = i + 1;
    }
    true
}

fn wire_name_exec(n: &str) -> (r: String)
    ensures
        r@ == wire_name(n@),
{
    if str_eq(n, "istag") {
        return String::from_str("ISTag");
    }
    let cs = str_chars(n);
    let mut out: Vec<char> = Vec::new();
    let mut i: usize = 0;
    while i < cs.len()
        invariant
            i <= cs@.len(),
            cs@ == n@,
            out@ == title_case(cs@).subrange(0, i as int),
        decreases cs@.len() - i,
    {
        let c = if i == 0 || cs[i - 1] == '-' {
            ascii_upper_char_exec(cs[i])
        } else {
            cs[i]
        };
        out.push(c);
        proof {
            assert(title_case(cs@).subrange(0, i + 1) =~= title_case(cs@).subrange(0, i as int).push(c));
        }
        i = i + 1;
    }
    proof {
        assert(title_case(cs@).subrange(0, cs@.len() as int) =~= title_case(cs@));
    }
    chars_string(out.as_slice())
}

/// Appends the header lines of `h` to `out`.
fn write_field_lines(out: &mut String, h: &HeaderMap)
    ensures
        final(out)@ == old(out)@ + field_lines(h@),
{
    let ghost start = out@;
    let mut i: usize = 0;
    while i < h.len()
        invariant
            i <= h@.len(),
            start == old(out)@,
            out@ == start + field_lines(h@.subrange(0, i as int)),
        decreases h@.len() - i,
    {
        let (n, v) = h.entry(i);
        let wn = wire_name_exec(n.as_str());
        out.append(wn.as_str());
        out.append(": ");
        if is_visible_exec(v.as_str()) {
            out.append(v.as_str());
        }
        out.append("\r\n");
        proof {
            let s = h@.subrange(0, i + 1);
            assert(s.drop_last() =~= h@.subrange(0, i as int));
            assert(s.last() == h@[i as int]);
            assert(out@ =~= start + field_lines(s));
        }
        i = i + 1;
    }
    proof {
        assert(h@.subrange(0, h@.len() as int) =~= h@);
    }
}

/// Number of bytes of the header block of `h`.
fn header_block_size(h: &HeaderMap, bound: Ghost<nat>) -> (r: usize)
    requires
        header_block_len(h@) <= bound@,
        bound@ <= usize::MAX,
    ensures
        r == header_block_len(h@),
{
    let mut total: usize = 0;
    let mut i: usize = 0;
    while i < h.len()
        invariant
            i <= h@.len(),
            total == fields_byte_len(h@.subrange(0, i as int)),
            header_block_len(h@) <= bound@,
            bound@ <= usize::MAX,
        decreases h@.len() - i,
    {
        let (n, v) = h.entry(i);
        let nb = n.as_str().as_bytes().len();
        let vb = v.as_str().as_bytes().len();
        proof {
            let s = h@.subrange(0, i + 1);
            assert(s.drop_last() =~= h@.subrange(0, i as int));
            lemma_fields_len_prefix(h@, i + 1);
        }
        total = total + nb + vb + 4;
        i = i + 1;
    }
    proof {
        assert(h@.subrange(0, h@.len() as int) =~= h@);
    }
    total + 2
}

proof fn lemma_fields_len_prefix(s: Seq<FieldView>, k: int)
    requires
        0 <= k <= s.len(),
    ensures
        fields_byte_len(s.subrange(0, k)) <= fields_byte_len(s),
    decreases s.len() - k,
{
    if k < s.len() {
        lemma_fields_len_prefix(s, k + 1);
        assert(s.subrange(0, k + 1).drop_last() =~= s.subrange(0, k));
    } else {
        assert(s.subrange(0, k) =~= s);
    }
}

/// Number of bytes of the header block of `h`, when it fits in a `usize`.
fn checked_block_size(h: &HeaderMap) -> (r: Option<usize>)
    ensures
        r matches Some(n) ==> n == header_block_len(h@),
        r is None ==> header_block_len(h@) > usize::MAX,
{
    let mut total: usize = 0;
    let mut i: usize = 0;
    while i < h.len()
        invariant
            i <= h@.len(),
            total == fields_byte_len(h@.subrange(0, i as int)),
        decreases h@.len() - i,
    {
        let (n, v) = h.entry(i);
        let nb = n.as_str().as_bytes().len();
        let vb = v.as_str().as_bytes().len();
        proof {
            let s = h@.subrange(0, i + 1);
            assert(s.drop_last() =~= h@.subrange(0, i as int));
            lemma_fields_len_prefix(h@, i + 1);
        }
        let step = match nb.checked_add(vb) {
            Some(x) => x.checked_add(4),
            None => None,
        };
        let next = match step {
            Some(x) => total.checked_add(x),
            None => None,
        };
        match next {
            Some(t) => {
                total = t;
            },
            None => {
                return None;
            },
        }
        i = i + 1;
    }
    proof {
        assert(h@.subrange(0, h@.len() as int) =~= h@);
    }
    total.checked_add(2)
}

/// True when the sections of `e` add up to at most `usize::MAX` bytes, as
/// writing its Encapsulated header needs.
pub fn encapsulated_size_fits(e: &Option<EncapsulatedData>) -> (r: bool)
    ensures
        r == encapsulated_fits(*e),
{
    match e {
        None => true,
        Some(d) => {
            let a: usize = match &d.req_hdr {
                Some(h) => match checked_block_size(h) {
                    Some(n) => n,
                    None => {
                        return false;
                    },
                },
                None => 0,
            };
            let b: usize = match &d.res_hdr {
                Some(h) => match checked_block_size(h) {
                    Some(n) => n,
                    None => {
                        return false;
                    },
                },
                None => 0,
            };
            let c: usize = match &d.req_body {
                Some(v) => v.len(),
                None => 0,
            };
            match a.checked_add(b) {
                Some(ab) => ab.checked_add(c).is_some(),
                None => false,
            }
        },
    }
}

pub fn push_part(parts: &mut Vec<String>, key: &str, n: usize)
    ensures
        final(parts)@.len() == old(parts)@.len() + 1,
        forall|i: int| 0 <= i < old(parts)@.len() ==> #[trigger] final(parts)@[i] == old(parts)@[i],
        final(parts)@.last()@ == key@ + dec_chars(n as nat),
{
    let mut p = String::from_str(key);
    let d = decimal_string(n as u64);
    p.append(d.as_str());
    parts.push(p);
}

pub open spec fn strings_view(v: Seq<String>) -> Seq<Seq<char>> {
    Seq::new(v.len(), |i: int| v[i]@)
}

/// The value of the Encapsulated header of `e`.
pub fn serialize_encapsulated(e: &EncapsulatedData) -> (r: String)
    requires
        encapsulated_size(*e) <= usize::MAX,
    ensures
        r@ == encapsulated_text(*e),
{
    let mut parts: Vec<String> = Vec::new();
    let ghost bound: nat = encapsulated_size(*e);
    let mut offset: usize = 0;
    if let Some(h) = &e.req_hdr {
        push_part(&mut parts, "req-hdr=", offset);
        offset = header_block_size(h, Ghost(bound));
    }
    let ghost o1 = offset;
    if let Some(h) = &e.res_hdr {
        push_part(&mut parts, "res-hdr=", offset);
        let n = header_block_size(h, Ghost(bound));
        offset = offset + n;
    }
    let ghost o2 = offset;
    if let Some(b) = &e.req_body {
        push_part(&mut parts, "req-body=", offset);
        offset = offset + b.len();
    }
    if let Some(_) = &e.res_body {
        push_part(&mut parts, "res-body=", offset);
    }
    if e.null_body {
        parts.push(String::from_str("null-body=0"));
    }
    proof {
        assert(strings_view(parts@) =~= encapsulated_parts(*e));
    }
    join_strings(&parts)
}

pub fn join_strings(parts: &Vec<String>) -> (r: String)
    ensures
        r@ == join_parts(strings_view(parts@)),
{
    let mut out = String::new();
    let mut i: usize = 0;
    while i < parts.len()
        invariant
            i <= parts@.len(),
            out@ == join_parts(strings_view(parts@).subrange(0, i as int)),
        decreases parts@.len() - i,
    {
        if i > 0 {
            out.append(", ");
        }
        out.append(parts[i].as_str());
        proof {
            let s = strings_view(parts@).subrange(0, i + 1);
            assert(s.drop_last() =~= strings_view(parts@).subrange(0, i as int));
            if i == 0 {
                assert(join_parts(strings_view(parts@).subrange(0, 0)) == Seq::<char>::empty());
                assert(out@ =~= s[0]);
            }
        }
        i = i + 1;
    }
    proof {
        assert(strings_view(parts@).subrange(0, parts@.len() as int) =~= strings_view(parts@));
    }
    out
}

/// Writes ICAP messages as bytes.
pub struct IcapSerializer;

impl IcapSerializer {
    /// The request on the wire: its head (request line, header lines, the
    /// Encapsulated line, an empty line) in UTF-8, then its body.
    pub fn serialize_request(request: &IcapRequest) -> (r: Result<Vec<u8>, IcapError>)
        requires
            encapsulated_fits(request.encapsulated),
        ensures
            r matches Ok(b) && b@ == encode_utf8(request_head(*request)) + request.body@,
    {
        let mut head = request.method.to_string();
        head.append(" ");
        head.append(request.uri.as_str());
        head.append(" ");
        head.append(version_str(request.version));
        head.append("\r\n");
        write_field_lines(&mut head, &request.headers);
        if let Some(e) = &request.encapsulated {
            let text = serialize_encapsulated(e);
            head.append("Encapsulated: ");
            head.append(text.as_str());
            head.append("\r\n");
        }
        head.append("\r\n");
        proof {
            assert(head@ =~= request_head(*request));
        }
        let mut out: Vec<u8> = Vec::new();
        extend_bytes(&mut out, head.as_str().as_bytes());
        extend_bytes(&mut out, request.body.as_slice());
        proof {
            assert(out@ =~= encode_utf8(request_head(*request)) + request.body@);
        }
        Ok(out)
    }

    /// The response on the wire: its head (status line, header lines, the
    /// Encapsulated line unless a field carries it, an empty line) in UTF-8,
    /// then its body, which a 204 response never has.
    pub fn serialize_response(response: &IcapResponse) -> (r: Result<Vec<u8>, IcapError>)
        requires
            encapsulated_fits(response.encapsulated),
        ensures
            r matches Ok(b) && b@ == encode_utf8(response_head(*response)) + response_body(*response),
    {
        let mut head = String::from_str("ICAP/1.0 ");
        let code = decimal_string(response.status as u64);
        head.append(code.as_str());
        head.append(" ");
        if response.status == 204 {
            head.append("No Modifications");
        } else {
            match canonical_reason_of(response.status) {
                Some(t) => head.append(t),
                None => head.append("Unknown"),
            }
        }
        head.append("\r\n");
        write_field_lines(&mut head, &response.headers);
        proof {
            reveal_strlit("encapsulated");
            assert(ascii_lower("encapsulated"@) =~= "encapsulated"@);
        }
        if let Some(e) = &response.encapsulated {
            if !response.headers.contains_key("encapsulated") {
                let text = serialize_encapsulated(e);
                head.append("Encapsulated: ");
                head.append(text.as_str());
                head.append("\r\n");
            }
        }
        head.append("\r\n");
        proof {
            assert(head@ =~= response_head(*response));
        }
        let mut out: Vec<u8> = Vec::new();
        extend_bytes(&mut out, head.as_str().as_bytes());
        if response.status != 204 {
            extend_bytes(&mut out, response.body.as_slice());
        }
        proof {
            assert(out@ =~= encode_utf8(response_head(*response)) + response_body(*response));
        }
        Ok(out)
    }
}


/// Parses ICAP messages from bytes.
pub struct IcapParser;

impl IcapParser {
    /// Parses an ICAP request from UTF-8 bytes.
    pub fn parse_request(data: &[u8]) -> (r: Result<IcapRequest, IcapError>)
        ensures
            !valid_utf8(data@) ==> (r matches Err(IcapError::Protocol(e)) && e@
                == "PARSER: Invalid UTF-8"@),
            valid_utf8(data@) ==> match request_parse(decode_utf8(data@)) {
                Ok(m) => r matches Ok(q) && request_view(q) == m,
                Err(x) => r matches Err(IcapError::Protocol(e)) && e@ == x,
            },
    {
        match utf8_chars(data) {
            None => Err(IcapError::Protocol(String::from_str("PARSER: Invalid UTF-8"))),
            Some(cs) => parse_icap_request_chars(cs.as_slice()),
        }
    }

    /// Parses an ICAP response from UTF-8 bytes.
    pub fn parse_response(data: &[u8]) -> (r: Result<IcapResponse, IcapError>)
        ensures
            !valid_utf8(data@) ==> (r matches Err(IcapError::Protocol(e)) && e@
                == "PARSER: Invalid UTF-8"@),
            valid_utf8(data@) ==> match response_parse(decode_utf8(data@)) {
                Ok(m) => r matches Ok(q) && response_view(q) == m,
                Err(x) => r matches Err(IcapError::Protocol(e)) && e@ == x,
            },
    {
        match utf8_chars(data) {
            None => Err(IcapError::Protocol(String::from_str("PARSER: Invalid UTF-8"))),
            Some(cs) => parse_icap_response_chars(cs.as_slice()),
        }
    }
}

} // verus!
