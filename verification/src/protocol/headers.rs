//! ICAP-specific header fields (RFC 3507 §4.3, §4.10), read from and
//! written to a header map.

use vstd::prelude::*;
use crate::protocol::fields::{HeaderMap, FieldView, map_get, set_field, lemma_get_insert};
use crate::protocol::ip_roundtrip::{lemma_ip_read_back, lemma_ip_text_visible};
use crate::protocol::roundtrip::lemma_dec_chars_read_back;
use crate::protocol::common::{is_visible_text, is_visible_exec};
use crate::protocol::ip::{IpAddr, ip_parse, ip_text, parse_ip};
use crate::protocol::parser::{dec_value, skip_digits, skip_digits_exec, lemma_skip_digits, digits_value};
use crate::text::{IntErrorKind, ascii_lower, dec_chars, decimal_string, str_chars, starts_with_seq};
use crate::bridge::{is_field_value, field_value_ok};

verus! {

/// The ICAP-specific header fields of a message.
#[derive(Clone, Debug)]
pub struct IcapHeaders {
    /// ICAP protocol version
    pub icap_version: Option<String>,
    /// Client IP address
    pub icap_client_ip: Option<IpAddr>,
    /// Server IP address
    pub icap_server_ip: Option<IpAddr>,
    /// Request identification
    pub icap_request_id: Option<String>,
    /// Encapsulated data specification
    pub encapsulated: Option<String>,
    /// Preview size
    pub preview: Option<usize>,
    /// Allowed response codes
    pub allow: Option<String>,
    /// Service identification tag
    pub istag: Option<String>,
    /// Service description
    pub service: Option<String>,
    /// Maximum connections
    pub max_connections: Option<usize>,
    /// Options TTL
    pub options_ttl: Option<usize>,
    /// Service ID
    pub service_id: Option<String>,
    /// Transfer preview
    pub transfer_preview: Option<String>,
    /// Update
    pub update: Option<String>,
    /// Transfer complete
    pub transfer_complete: Option<String>,
    /// Transfer ignore
    pub transfer_ignore: Option<String>,
}

/// The value of a field as `HeaderMap::get` finds it.
pub open spec fn field_of(h: Seq<FieldView>, name: Seq<char>) -> Option<Seq<char>> {
    map_get(h, ascii_lower(name))
}

/// A text field: its value when it is visible text, none when it is not,
/// `dflt` when the field is missing.
pub open spec fn text_field(h: Seq<FieldView>, name: Seq<char>, dflt: Option<Seq<char>>) -> Option<Seq<char>> {
    match field_of(h, name) {
        Some(v) => if is_visible_text(v) { Some(v) } else { None },
        None => dflt,
    }
}

/// An address field: the address its visible text spells, if any.
pub open spec fn ip_field(h: Seq<FieldView>, name: Seq<char>) -> Option<IpAddr> {
    match field_of(h, name) {
        Some(v) => if is_visible_text(v) { ip_parse(v) } else { None },
        None => None,
    }
}

/// What `str::parse::<usize>` makes of a text: after an optional `+`, the
/// digits up to the first other character; too large a value is an
/// overflow, found before any later non-digit.
pub open spec fn parse_dec_usize(s: Seq<char>) -> Result<int, IntErrorKind> {
    let st: int = if s.len() > 0 && s[0] == '+' { 1 } else { 0 };
    let k = skip_digits(s, st);
    if s.len() == 0 {
        Err(IntErrorKind::Empty)
    } else if st == s.len() {
        Err(IntErrorKind::InvalidDigit)
    } else if dec_value(s.subrange(st, k)) > usize::MAX {
        Err(IntErrorKind::PosOverflow)
    } else if k < s.len() {
        Err(IntErrorKind::InvalidDigit)
    } else {
        Ok(dec_value(s.subrange(st, k)))
    }
}

/// The `usize` that a text spells, if `str::parse::<usize>` reads one.
pub open spec fn parse_usize(s: Seq<char>) -> Option<int> {
    match parse_dec_usize(s) {
        Ok(v) => Some(v),
        Err(_) => None,
    }
}

/// A number field: the number its visible text spells, if any.
pub open spec fn num_field(h: Seq<FieldView>, name: Seq<char>) -> Option<int> {
    match field_of(h, name) {
        Some(v) => if is_visible_text(v) { parse_usize(v) } else { None },
        None => None,
    }
}

pub open spec fn text_opt(o: Option<String>) -> Option<Seq<char>> {
    match o {
        Some(s) => Some(s@),
        None => None,
    }
}

pub open spec fn num_opt(o: Option<usize>) -> Option<int> {
    match o {
        Some(n) => Some(n as int),
        None => None,
    }
}

/// Sets field `name` to `v` when there is one and `http` takes it as a value.
pub open spec fn put_text(f: Seq<FieldView>, name: Seq<char>, v: Option<Seq<char>>) -> Seq<FieldView> {
    match v {
        Some(t) => if is_field_value(t) { set_field(f, name, t) } else { f },
        None => f,
    }
}

pub open spec fn ip_opt_text(a: Option<IpAddr>) -> Option<Seq<char>> {
    match a {
        Some(x) => Some(ip_text(x)),
        None => None,
    }
}

pub open spec fn num_opt_text(n: Option<usize>) -> Option<Seq<char>> {
    match n {
        Some(x) => Some(dec_chars(x as nat)),
        None => None,
    }
}

/// The fields that `to_http_headers` writes, in order.
pub open spec fn icap_fields(x: IcapHeaders) -> Seq<FieldView> {
    let f0 = Seq::<FieldView>::empty();
    let f1 = put_text(f0, "icap-version"@, text_opt(x.icap_version));
    let f2 = put_text(f1, "icap-client-ip"@, ip_opt_text(x.icap_client_ip));
    let f3 = put_text(f2, "icap-server-ip"@, ip_opt_text(x.icap_server_ip));
    let f4 = put_text(f3, "icap-request-id"@, text_opt(x.icap_request_id));
    let f5 = put_text(f4, "encapsulated"@, text_opt(x.encapsulated));
    let f6 = put_text(f5, "preview"@, num_opt_text(x.preview));
    let f7 = put_text(f6, "allow"@, text_opt(x.allow));
    let f8 = put_text(f7, "istag"@, text_opt(x.istag));
    let f9 = put_text(f8, "service"@, text_opt(x.service));
    let f10 = put_text(f9, "max-connections"@, num_opt_text(x.max_connections));
    let f11 = put_text(f10, "options-ttl"@, num_opt_text(x.options_ttl));
    let f12 = put_text(f11, "service-id"@, text_opt(x.service_id));
    let f13 = put_text(f12, "transfer-preview"@, text_opt(x.transfer_preview));
    let f14 = put_text(f13, "update"@, text_opt(x.update));
    let f15 = put_text(f14, "transfer-complete"@, text_opt(x.transfer_complete));
    put_text(f15, "transfer-ignore"@, text_opt(x.transfer_ignore))
}

/// A header field problem that `validate` finds.
#[derive(Clone, Debug)]
pub enum IcapHeaderError {
    InvalidVersion(String),
    InvalidPreviewSize(usize),
    InvalidMaxConnections(usize),
    InvalidOptionsTtl(usize),
}

impl IcapHeaderError {
    /// The message of the error.
    pub fn to_string(&self) -> (r: String)
        ensures
            r@ == match *self {
                IcapHeaderError::InvalidVersion(v) => "Invalid ICAP version: "@ + v@,
                IcapHeaderError::InvalidPreviewSize(n) => "Invalid preview size: "@ + dec_chars(n as nat),
                IcapHeaderError::InvalidMaxConnections(n) => "Invalid max connections: "@ + dec_chars(n as nat),
                IcapHeaderError::InvalidOptionsTtl(n) => "Invalid options TTL: "@ + dec_chars(n as nat),
            },
    {
        match self {
            IcapHeaderError::InvalidVersion(v) => {
                let mut s = String::from_str("Invalid ICAP version: ");
                s.append(v.as_str());
                s
            },
            IcapHeaderError::InvalidPreviewSize(n) => {
                let mut s = String::from_str("Invalid preview size: ");
                s.append(decimal_string(*n as u64).as_str());
                s
            },
            IcapHeaderError::InvalidMaxConnections(n) => {
                let mut s = String::from_str("Invalid max connections: ");
                s.append(decimal_string(*n as u64).as_str());
                s
            },
            IcapHeaderError::InvalidOptionsTtl(n) => {
                let mut s = String::from_str("Invalid options TTL: ");
                s.append(decimal_string(*n as u64).as_str());
                s
            },
        }
    }
}

/// What `validate` finds: a version that does not start with `ICAP/`, then
/// a zero preview size, maximum of connections or options TTL.
pub open spec fn validation(x: IcapHeaders) -> Option<IcapHeaderError> {
    if x.icap_version matches Some(v) && !starts_with_seq(v@, "ICAP/"@) {
        Some(IcapHeaderError::InvalidVersion(x.icap_version->Some_0))
    } else if x.preview == Some(0usize) {
        Some(IcapHeaderError::InvalidPreviewSize(0))
    } else if x.max_connections == Some(0usize) {
        Some(IcapHeaderError::InvalidMaxConnections(0))
    } else if x.options_ttl == Some(0usize) {
        Some(IcapHeaderError::InvalidOptionsTtl(0))
    } else {
        None
    }
}

fn text_from(h: &HeaderMap, name: &str, dflt: Option<String>) -> (r: Option<String>)
    ensures
        text_opt(r) == text_field(h@, name@, text_opt(dflt)),
{
    match h.get(name) {
        Some(v) => if is_visible_exec(v.as_str()) { Some(v.clone()) } else { None },
        None => dflt,
    }
}

fn ip_from(h: &HeaderMap, name: &str) -> (r: Option<IpAddr>)
    ensures
        r == ip_field(h@, name@),
{
    match h.get(name) {
        Some(v) => if is_visible_exec(v.as_str()) { parse_ip(v.as_str()) } else { None },
        None => None,
    }
}

/// Reads `s` as `str::parse::<usize>` does, with the kind of error.
pub fn parse_usize_text(s: &str) -> (r: Result<usize, IntErrorKind>)
    ensures
        match r {
            Ok(v) => parse_dec_usize(s@) == Ok::<int, IntErrorKind>(v as int),
            Err(k) => parse_dec_usize(s@) == Err::<int, IntErrorKind>(k),
        },
{
    let cs = str_chars(s);
    let len = cs.len();
    if len == 0 {
        return Err(IntErrorKind::Empty);
    }
    let start: usize = if cs[0] == '+' { 1 } else { 0 };
    if start == len {
        return Err(IntErrorKind::InvalidDigit);
    }
    let k = skip_digits_exec(cs.as_slice(), start);
    proof {
        lemma_skip_digits(cs@, start as int);
    }
    match digits_value(cs.as_slice(), start, k, usize::MAX) {
        None => Err(IntErrorKind::PosOverflow),
        Some(v) => if k < len { Err(IntErrorKind::InvalidDigit) } else { Ok(v) },
    }
}

/// Reads `s` as `str::parse::<usize>` does.
pub fn parse_usize_exec(s: &str) -> (r: Option<usize>)
    ensures
        num_opt(r) == parse_usize(s@),
{
    match parse_usize_text(s) {
        Ok(v) => Some(v),
        Err(_) => None,
    }
}

fn num_from(h: &HeaderMap, name: &str) -> (r: Option<usize>)
    ensures
        num_opt(r) == num_field(h@, name@),
{
    match h.get(name) {
        Some(v) => if is_visible_exec(v.as_str()) { parse_usize_exec(v.as_str()) } else { None },
        None => None,
    }
}

fn put_text_exec(h: &mut HeaderMap, name: &str, v: &str)
    ensures
        final(h)@ == put_text(old(h)@, name@, Some(v@)),
{
    if field_value_ok(v) {
        h.insert(name, v);
    }
}

fn put_opt_text(h: &mut HeaderMap, name: &str, v: &Option<String>)
    ensures
        final(h)@ == put_text(old(h)@, name@, text_opt(*v)),
{
    if let Some(t) = v {
        put_text_exec(h, name, t.as_str());
    }
}

fn put_opt_ip(h: &mut HeaderMap, name: &str, a: &Option<IpAddr>)
    ensures
        final(h)@ == put_text(old(h)@, name@, ip_opt_text(*a)),
{
    if let Some(x) = a {
        let t = x.to_string();
        put_text_exec(h, name, t.as_str());
    }
}

fn put_opt_num(h: &mut HeaderMap, name: &str, n: Option<usize>)
    ensures
        final(h)@ == put_text(old(h)@, name@, num_opt_text(n)),
{
    if let Some(x) = n {
        let t = decimal_string(x as u64);
        put_text_exec(h, name, t.as_str());
    }
}

impl IcapHeaders {
    /// Only the ICAP version, `ICAP/1.0`, set.
    pub fn new() -> (r: Self)
        ensures
            text_opt(r.icap_version) == Some("ICAP/1.0"@),

            r.icap_client_ip is None,
            r.icap_server_ip is None,
            r.icap_request_id is None,
            r.encapsulated is None,
            r.preview is None,
            r.allow is None,
            r.istag is None,
            r.service is None,
            r.max_connections is None,
            r.options_ttl is None,
            r.service_id is None,
            r.transfer_preview is None,
            r.update is None,
            r.transfer_complete is None,
            r.transfer_ignore is None,
    {
        IcapHeaders {
            icap_version: Some(String::from_str("ICAP/1.0")),
            icap_client_ip: None,
            icap_server_ip: None,
            icap_request_id: None,
            encapsulated: None,
            preview: None,
            allow: None,
            istag: None,
            service: None,
            max_connections: None,
            options_ttl: None,
            service_id: None,
            transfer_preview: None,
            update: None,
            transfer_complete: None,
            transfer_ignore: None,
        }
    }

    /// The ICAP fields of a header map: each one set when its field is there
    /// with visible text (and, for addresses and numbers, text that reads
    /// as one); the version stays `ICAP/1.0` when its field is missing.
    pub fn from_http_headers(headers: &HeaderMap) -> (r: Self)
        ensures
            text_opt(r.icap_version) == text_field(headers@, "icap-version"@, Some("ICAP/1.0"@)),
            r.icap_client_ip == ip_field(headers@, "icap-client-ip"@),
            r.icap_server_ip == ip_field(headers@, "icap-server-ip"@),
            text_opt(r.icap_request_id) == text_field(headers@, "icap-request-id"@, None),
            text_opt(r.encapsulated) == text_field(headers@, "encapsulated"@, None),
            num_opt(r.preview) == num_field(headers@, "preview"@),
            text_opt(r.allow) == text_field(headers@, "allow"@, None),
            text_opt(r.istag) == text_field(headers@, "istag"@, None),
            text_opt(r.service) == text_field(headers@, "service"@, None),
            num_opt(r.max_connections) == num_field(headers@, "max-connections"@),
            num_opt(r.options_ttl) == num_field(headers@, "options-ttl"@),
            text_opt(r.service_id) == text_field(headers@, "service-id"@, None),
            text_opt(r.transfer_preview) == text_field(headers@, "transfer-preview"@, None),
            text_opt(r.update) == text_field(headers@, "update"@, None),
            text_opt(r.transfer_complete) == text_field(headers@, "transfer-complete"@, None),
            text_opt(r.transfer_ignore) == text_field(headers@, "transfer-ignore"@, None),
    {
        IcapHeaders {
            icap_version: text_from(headers, "icap-version", Some(String::from_str("ICAP/1.0"))),
            icap_client_ip: ip_from(headers, "icap-client-ip"),
            icap_server_ip: ip_from(headers, "icap-server-ip"),
            icap_request_id: text_from(headers, "icap-request-id", None),
            encapsulated: text_from(headers, "encapsulated", None),
            preview: num_from(headers, "preview"),
            allow: text_from(headers, "allow", None),
            istag: text_from(headers, "istag", None),
            service: text_from(headers, "service", None),
            max_connections: num_from(headers, "max-connections"),
            options_ttl: num_from(headers, "options-ttl"),
            service_id: text_from(headers, "service-id", None),
            transfer_preview: text_from(headers, "transfer-preview", None),
            update: text_from(headers, "update", None),
            transfer_complete: text_from(headers, "transfer-complete", None),
            transfer_ignore: text_from(headers, "transfer-ignore", None),
        }
    }

    /// The fields as a header map: each one that is set and that `http`
    /// takes as a value, in the order of declaration.
    pub fn to_http_headers(&self) -> (r: HeaderMap)
        ensures
            r@ == icap_fields(*self),
    {
        let mut h = HeaderMap::new();
        put_opt_text(&mut h, "icap-version", &self.icap_version);
        put_opt_ip(&mut h, "icap-client-ip", &self.icap_client_ip);
        put_opt_ip(&mut h, "icap-server-ip", &self.icap_server_ip);
        put_opt_text(&mut h, "icap-request-id", &self.icap_request_id);
        put_opt_text(&mut h, "encapsulated", &self.encapsulated);
        put_opt_num(&mut h, "preview", self.preview);
        put_opt_text(&mut h, "allow", &self.allow);
        put_opt_text(&mut h, "istag", &self.istag);
        put_opt_text(&mut h, "service", &self.service);
        put_opt_num(&mut h, "max-connections", self.max_connections);
        put_opt_num(&mut h, "options-ttl", self.options_ttl);
        put_opt_text(&mut h, "service-id", &self.service_id);
        put_opt_text(&mut h, "transfer-preview", &self.transfer_preview);
        put_opt_text(&mut h, "update", &self.update);
        put_opt_text(&mut h, "transfer-complete", &self.transfer_complete);
        put_opt_text(&mut h, "transfer-ignore", &self.transfer_ignore);
        h
    }

    /// Checks the version and the limits.
    pub fn validate(&self) -> (r: Result<(), IcapHeaderError>)
        ensures
            match validation(*self) {
                Some(IcapHeaderError::InvalidVersion(v)) => r matches Err(IcapHeaderError::InvalidVersion(w)) && w@ == v@,
                Some(e) => r == Err::<(), IcapHeaderError>(e),
                None => r is Ok,
            },
    {
        if let Some(v) = &self.icap_version {
            let cs = str_chars(v.as_str());
            let p = str_chars("ICAP/");
            let mut ok = cs.len() >= p.len();
            let mut i: usize = 0;
            if ok {
                while i < p.len()
                    invariant
                        i <= p@.len() <= cs@.len(),
                        cs@ == v@,
                        p@ == "ICAP/"@,
                        ok == forall|j: int| 0 <= j < i ==> cs@[j] == p@[j],
                    decreases p@.len() - i,
                {
                    if cs[i] != p[i] {
                        ok = false;
                    }
                    i = i + 1;
                }
                proof {
                    if ok {
                        assert(v@.subrange(0, p@.len() as int) =~= p@);
                    } else {
                        let j = choose|j: int| 0 <= j < p@.len() && cs@[j] != p@[j];
                        assert(v@.subrange(0, p@.len() as int)[j] != p@[j]);
                    }
                }
            }
            if !ok {
                return Err(IcapHeaderError::InvalidVersion(v.clone()));
            }
        }
        if self.preview == Some(0usize) {
            return Err(IcapHeaderError::InvalidPreviewSize(0));
        }
        if self.max_connections == Some(0usize) {
            return Err(IcapHeaderError::InvalidMaxConnections(0));
        }
        if self.options_ttl == Some(0usize) {
            return Err(IcapHeaderError::InvalidOptionsTtl(0));
        }
        Ok(())
    }
}

impl Default for IcapHeaders {
    fn default() -> (r: Self)
        ensures
            text_opt(r.icap_version) == Some("ICAP/1.0"@),

            r.icap_client_ip is None,
            r.icap_server_ip is None,
            r.icap_request_id is None,
            r.encapsulated is None,
            r.preview is None,
            r.allow is None,
            r.istag is None,
            r.service is None,
            r.max_connections is None,
            r.options_ttl is None,
            r.service_id is None,
            r.transfer_preview is None,
            r.update is None,
            r.transfer_complete is None,
            r.transfer_ignore is None,
    {
        Self::new()
    }
}


/// Visible text, when set.
pub open spec fn visible_opt(o: Option<String>) -> bool {
    match o {
        Some(t) => is_visible_text(t@),
        None => true,
    }
}

/// ICAP fields that read back as they are written: every text field that
/// is set holds visible text.
pub open spec fn readable_fields(x: IcapHeaders) -> bool {
    &&& visible_opt(x.icap_version)
    &&& visible_opt(x.icap_request_id)
    &&& visible_opt(x.encapsulated)
    &&& visible_opt(x.allow)
    &&& visible_opt(x.istag)
    &&& visible_opt(x.service)
    &&& visible_opt(x.service_id)
    &&& visible_opt(x.transfer_preview)
    &&& visible_opt(x.update)
    &&& visible_opt(x.transfer_complete)
    &&& visible_opt(x.transfer_ignore)
}

proof fn lemma_put_text_get(f: Seq<FieldView>, n: Seq<char>, v: Option<Seq<char>>, m: Seq<char>)
    requires
        ascii_lower(n) == n,
    ensures
        map_get(put_text(f, n, v), m) == (if m == n && v is Some && is_field_value(v->Some_0) {
            v
        } else {
            map_get(f, m)
        }),
{
    if let Some(t) = v {
        if is_field_value(t) {
            lemma_get_insert(f, n, t, m);
        }
    }
}

proof fn lemma_visible_is_value(t: Seq<char>)
    requires
        is_visible_text(t),
    ensures
        is_field_value(t),
{
    assert forall|i: int| 0 <= i < t.len() implies (#[trigger] t[i] == '\t' || (' ' <= t[i] && t[i] != '\x7f')) by {
        assert(t[i] == '\t' || (' ' <= t[i] && t[i] <= '~'));
    }
}

proof fn lemma_text_read_back(o: Option<String>)
    requires
        visible_opt(o),
    ensures
        text_opt(o) matches Some(t) ==> is_field_value(t) && is_visible_text(t),
{
    if let Some(t) = o {
        lemma_visible_is_value(t@);
    }
}

proof fn lemma_ip_opt_read_back(a: Option<IpAddr>)
    ensures
        ip_opt_text(a) matches Some(t) ==> is_field_value(t) && is_visible_text(t) && ip_parse(t) == a,
{
    if let Some(x) = a {
        lemma_ip_text_visible(x);
        lemma_visible_is_value(ip_text(x));
        lemma_ip_read_back(x);
    }
}

proof fn lemma_num_opt_read_back(n: Option<usize>)
    ensures
        num_opt_text(n) matches Some(t) ==> is_field_value(t) && is_visible_text(t) && parse_usize(t) == num_opt(n),
{
    if let Some(x) = n {
        let t = dec_chars(x as nat);
        lemma_dec_chars_read_back(x as nat);
        assert forall|i: int| 0 <= i < t.len() implies #[trigger] t[i] == '\t' || (' ' <= t[i] && t[i] <= '~') by {
            assert(crate::protocol::parser::is_digit(t[i]));
        }
        lemma_visible_is_value(t);
        lemma_skip_digits(t, 0);
        if skip_digits(t, 0) < t.len() {
            assert(crate::protocol::parser::is_digit(t[skip_digits(t, 0)]));
            assert(false) by {
                lemma_skip_digits_stop(t, 0);
            }
        }
        assert(t.subrange(0, t.len() as int) =~= t);
        assert(t[0] != '+') by {
            assert(crate::protocol::parser::is_digit(t[0]));
        }
    }
}

proof fn lemma_skip_digits_stop(s: Seq<char>, i: int)
    requires
        0 <= i <= s.len(),
    ensures
        skip_digits(s, i) == s.len() || !crate::protocol::parser::is_digit(s[skip_digits(s, i)]),
    decreases s.len() - i,
{
    if i < s.len() && crate::protocol::parser::is_digit(s[i]) {
        lemma_skip_digits_stop(s, i + 1);
    }
}

proof fn lemma_lower_names()
    ensures
        ascii_lower("icap-version"@) == "icap-version"@,
        ascii_lower("icap-client-ip"@) == "icap-client-ip"@,
        ascii_lower("icap-server-ip"@) == "icap-server-ip"@,
        ascii_lower("icap-request-id"@) == "icap-request-id"@,
        ascii_lower("encapsulated"@) == "encapsulated"@,
        ascii_lower("preview"@) == "preview"@,
        ascii_lower("allow"@) == "allow"@,
        ascii_lower("istag"@) == "istag"@,
        ascii_lower("service"@) == "service"@,
        ascii_lower("max-connections"@) == "max-connections"@,
        ascii_lower("options-ttl"@) == "options-ttl"@,
        ascii_lower("service-id"@) == "service-id"@,
        ascii_lower("transfer-preview"@) == "transfer-preview"@,
        ascii_lower("update"@) == "update"@,
        ascii_lower("transfer-complete"@) == "transfer-complete"@,
        ascii_lower("transfer-ignore"@) == "transfer-ignore"@,
{
    reveal_strlit("icap-version");
    reveal_strlit("icap-client-ip");
    reveal_strlit("icap-server-ip");
    reveal_strlit("icap-request-id");
    reveal_strlit("encapsulated");
    reveal_strlit("preview");
    reveal_strlit("allow");
    reveal_strlit("istag");
    reveal_strlit("service");
    reveal_strlit("max-connections");
    reveal_strlit("options-ttl");
    reveal_strlit("service-id");
    reveal_strlit("transfer-preview");
    reveal_strlit("update");
    reveal_strlit("transfer-complete");
    reveal_strlit("transfer-ignore");
    assert(ascii_lower("icap-version"@) =~= "icap-version"@);
    assert(ascii_lower("icap-client-ip"@) =~= "icap-client-ip"@);
    assert(ascii_lower("icap-server-ip"@) =~= "icap-server-ip"@);
    assert(ascii_lower("icap-request-id"@) =~= "icap-request-id"@);
    assert(ascii_lower("encapsulated"@) =~= "encapsulated"@);
    assert(ascii_lower("preview"@) =~= "preview"@);
    assert(ascii_lower("allow"@) =~= "allow"@);
    assert(ascii_lower("istag"@) =~= "istag"@);
    assert(ascii_lower("service"@) =~= "service"@);
    assert(ascii_lower("max-connections"@) =~= "max-connections"@);
    assert(ascii_lower("options-ttl"@) =~= "options-ttl"@);
    assert(ascii_lower("service-id"@) =~= "service-id"@);
    assert(ascii_lower("transfer-preview"@) =~= "transfer-preview"@);
    assert(ascii_lower("update"@) =~= "update"@);
    assert(ascii_lower("transfer-complete"@) =~= "transfer-complete"@);
    assert(ascii_lower("transfer-ignore"@) =~= "transfer-ignore"@);
}

/// The names that `to_http_headers` writes, in order.
pub open spec fn icap_names() -> Seq<Seq<char>> {
    seq![
        "icap-version"@, "icap-client-ip"@, "icap-server-ip"@, "icap-request-id"@, "encapsulated"@, "preview"@,
        "allow"@, "istag"@, "service"@, "max-connections"@, "options-ttl"@, "service-id"@, "transfer-preview"@,
        "update"@, "transfer-complete"@, "transfer-ignore"@,
    ]
}

/// The values that `to_http_headers` writes, in the order of the names.
pub open spec fn icap_values(x: IcapHeaders) -> Seq<Option<Seq<char>>> {
    seq![
        text_opt(x.icap_version), ip_opt_text(x.icap_client_ip), ip_opt_text(x.icap_server_ip),
        text_opt(x.icap_request_id), text_opt(x.encapsulated), num_opt_text(x.preview), text_opt(x.allow),
        text_opt(x.istag), text_opt(x.service), num_opt_text(x.max_connections), num_opt_text(x.options_ttl),
        text_opt(x.service_id), text_opt(x.transfer_preview), text_opt(x.update), text_opt(x.transfer_complete),
        text_opt(x.transfer_ignore),
    ]
}

/// The first `k` names put with their values.
pub open spec fn put_first(names: Seq<Seq<char>>, values: Seq<Option<Seq<char>>>, k: int) -> Seq<FieldView>
    decreases k,
{
    if k <= 0 {
        Seq::empty()
    } else {
        put_text(put_first(names, values, k - 1), names[k - 1], values[k - 1])
    }
}

proof fn lemma_icap_fields_put_first(x: IcapHeaders)
    ensures
        icap_fields(x) == put_first(icap_names(), icap_values(x), 16),
{
    reveal_with_fuel(put_first, 17);
}

proof fn lemma_names_distinct()
    ensures
        forall|i: int, j: int| 0 <= i < 16 && 0 <= j < 16 && i != j ==> #[trigger] icap_names()[i] != #[trigger] icap_names()[j],
        forall|i: int| 0 <= i < 16 ==> ascii_lower(#[trigger] icap_names()[i]) == icap_names()[i],
{
    lemma_lower_names();
    reveal_strlit("icap-version");
    reveal_strlit("icap-client-ip");
    reveal_strlit("icap-server-ip");
    reveal_strlit("icap-request-id");
    reveal_strlit("encapsulated");
    reveal_strlit("preview");
    reveal_strlit("allow");
    reveal_strlit("istag");
    reveal_strlit("service");
    reveal_strlit("max-connections");
    reveal_strlit("options-ttl");
    reveal_strlit("service-id");
    reveal_strlit("transfer-preview");
    reveal_strlit("update");
    reveal_strlit("transfer-complete");
    reveal_strlit("transfer-ignore");
    let n = icap_names();
    assert forall|i: int, j: int| 0 <= i < 16 && 0 <= j < 16 && i != j implies #[trigger] n[i] != #[trigger] n[j] by {
        if n[i] == n[j] {
            assert(n[i].len() == n[j].len());
            assert(n[i][0] == n[j][0]);
            assert(n[i][5] == n[j][5]);
        }
    }
}

proof fn lemma_put_first_get(names: Seq<Seq<char>>, values: Seq<Option<Seq<char>>>, k: int, j: int)
    requires
        names.len() == values.len(),
        0 <= k <= names.len(),
        0 <= j < names.len(),
        forall|a: int, b: int| 0 <= a < names.len() && 0 <= b < names.len() && a != b ==> #[trigger] names[a] != #[trigger] names[b],
        forall|a: int| 0 <= a < names.len() ==> ascii_lower(#[trigger] names[a]) == names[a],
    ensures
        map_get(put_first(names, values, k), names[j]) == (if j < k && values[j] is Some && is_field_value(values[j]->Some_0) {
            values[j]
        } else {
            None
        }),
    decreases k,
{
    if k > 0 {
        lemma_put_first_get(names, values, k - 1, j);
        assert(ascii_lower(names[k - 1]) == names[k - 1]);
        lemma_put_text_get(put_first(names, values, k - 1), names[k - 1], values[k - 1], names[j]);
        if j != k - 1 {
            assert(names[j] != names[k - 1]);
        }
    }
}

/// The value that `to_http_headers` writes under the `j`th name.
proof fn lemma_icap_field_get(x: IcapHeaders, j: int)
    requires
        0 <= j < 16,
    ensures
        map_get(icap_fields(x), icap_names()[j]) == (if icap_values(x)[j] is Some && is_field_value(icap_values(x)[j]->Some_0) {
            icap_values(x)[j]
        } else {
            None
        }),
        ascii_lower(icap_names()[j]) == icap_names()[j],
{
    lemma_icap_fields_put_first(x);
    lemma_names_distinct();
    lemma_put_first_get(icap_names(), icap_values(x), 16, j);
}

/// The version that reading back gives: the one written, or `ICAP/1.0`
/// when none was.
pub open spec fn version_read_back(v: Option<String>) -> Option<Seq<char>> {
    match v {
        Some(t) => Some(t@),
        None => Some("ICAP/1.0"@),
    }
}

proof fn lemma_read_back_icap_version(x: IcapHeaders)
    requires
        readable_fields(x),
    ensures
        text_field(icap_fields(x), "icap-version"@, Some("ICAP/1.0"@)) == version_read_back(x.icap_version),
{
    reveal_strlit("icap-version");
    lemma_text_read_back(x.icap_version);
    lemma_icap_field_get(x, 0);
    assert(icap_names()[0] == "icap-version"@);
    assert(icap_values(x)[0] == text_opt(x.icap_version));
}

proof fn lemma_read_back_icap_client_ip(x: IcapHeaders)
    ensures
        ip_field(icap_fields(x), "icap-client-ip"@) == x.icap_client_ip,
{
    reveal_strlit("icap-client-ip");
    lemma_ip_opt_read_back(x.icap_client_ip);
    lemma_icap_field_get(x, 1);
    assert(icap_names()[1] == "icap-client-ip"@);
    assert(icap_values(x)[1] == ip_opt_text(x.icap_client_ip));
}

proof fn lemma_read_back_icap_server_ip(x: IcapHeaders)
    ensures
        ip_field(icap_fields(x), "icap-server-ip"@) == x.icap_server_ip,
{
    reveal_strlit("icap-server-ip");
    lemma_ip_opt_read_back(x.icap_server_ip);
    lemma_icap_field_get(x, 2);
    assert(icap_names()[2] == "icap-server-ip"@);
    assert(icap_values(x)[2] == ip_opt_text(x.icap_server_ip));
}

proof fn lemma_read_back_icap_request_id(x: IcapHeaders)
    requires
        readable_fields(x),
    ensures
        text_field(icap_fields(x), "icap-request-id"@, None) == text_opt(x.icap_request_id),
{
    reveal_strlit("icap-request-id");
    lemma_text_read_back(x.icap_request_id);
    lemma_icap_field_get(x, 3);
    assert(icap_names()[3] == "icap-request-id"@);
    assert(icap_values(x)[3] == text_opt(x.icap_request_id));
}

proof fn lemma_read_back_encapsulated(x: IcapHeaders)
    requires
        readable_fields(x),
    ensures
        text_field(icap_fields(x), "encapsulated"@, None) == text_opt(x.encapsulated),
{
    reveal_strlit("encapsulated");
    lemma_text_read_back(x.encapsulated);
    lemma_icap_field_get(x, 4);
    assert(icap_names()[4] == "encapsulated"@);
    assert(icap_values(x)[4] == text_opt(x.encapsulated));
}

proof fn lemma_read_back_preview(x: IcapHeaders)
    ensures
        num_field(icap_fields(x), "preview"@) == num_opt(x.preview),
{
    reveal_strlit("preview");
    lemma_num_opt_read_back(x.preview);
    lemma_icap_field_get(x, 5);
    assert(icap_names()[5] == "preview"@);
    assert(icap_values(x)[5] == num_opt_text(x.preview));
}

proof fn lemma_read_back_allow(x: IcapHeaders)
    requires
        readable_fields(x),
    ensures
        text_field(icap_fields(x), "allow"@, None) == text_opt(x.allow),
{
    reveal_strlit("allow");
    lemma_text_read_back(x.allow);
    lemma_icap_field_get(x, 6);
    assert(icap_names()[6] == "allow"@);
    assert(icap_values(x)[6] == text_opt(x.allow));
}

proof fn lemma_read_back_istag(x: IcapHeaders)
    requires
        readable_fields(x),
    ensures
        text_field(icap_fields(x), "istag"@, None) == text_opt(x.istag),
{
    reveal_strlit("istag");
    lemma_text_read_back(x.istag);
    lemma_icap_field_get(x, 7);
    assert(icap_names()[7] == "istag"@);
    assert(icap_values(x)[7] == text_opt(x.istag));
}

proof fn lemma_read_back_service(x: IcapHeaders)
    requires
        readable_fields(x),
    ensures
        text_field(icap_fields(x), "service"@, None) == text_opt(x.service),
{
    reveal_strlit("service");
    lemma_text_read_back(x.service);
    lemma_icap_field_get(x, 8);
    assert(icap_names()[8] == "service"@);
    assert(icap_values(x)[8] == text_opt(x.service));
}

proof fn lemma_read_back_max_connections(x: IcapHeaders)
    ensures
        num_field(icap_fields(x), "max-connections"@) == num_opt(x.max_connections),
{
    reveal_strlit("max-connections");
    lemma_num_opt_read_back(x.max_connections);
    lemma_icap_field_get(x, 9);
    assert(icap_names()[9] == "max-connections"@);
    assert(icap_values(x)[9] == num_opt_text(x.max_connections));
}

proof fn lemma_read_back_options_ttl(x: IcapHeaders)
    ensures
        num_field(icap_fields(x), "options-ttl"@) == num_opt(x.options_ttl),
{
    reveal_strlit("options-ttl");
    lemma_num_opt_read_back(x.options_ttl);
    lemma_icap_field_get(x, 10);
    assert(icap_names()[10] == "options-ttl"@);
    assert(icap_values(x)[10] == num_opt_text(x.options_ttl));
}

proof fn lemma_read_back_service_id(x: IcapHeaders)
    requires
        readable_fields(x),
    ensures
        text_field(icap_fields(x), "service-id"@, None) == text_opt(x.service_id),
{
    reveal_strlit("service-id");
    lemma_text_read_back(x.service_id);
    lemma_icap_field_get(x, 11);
    assert(icap_names()[11] == "service-id"@);
    assert(icap_values(x)[11] == text_opt(x.service_id));
}

proof fn lemma_read_back_transfer_preview(x: IcapHeaders)
    requires
        readable_fields(x),
    ensures
        text_field(icap_fields(x), "transfer-preview"@, None) == text_opt(x.transfer_preview),
{
    reveal_strlit("transfer-preview");
    lemma_text_read_back(x.transfer_preview);
    lemma_icap_field_get(x, 12);
    assert(icap_names()[12] == "transfer-preview"@);
    assert(icap_values(x)[12] == text_opt(x.transfer_preview));
}

proof fn lemma_read_back_update(x: IcapHeaders)
    requires
        readable_fields(x),
    ensures
        text_field(icap_fields(x), "update"@, None) == text_opt(x.update),
{
    reveal_strlit("update");
    lemma_text_read_back(x.update);
    lemma_icap_field_get(x, 13);
    assert(icap_names()[13] == "update"@);
    assert(icap_values(x)[13] == text_opt(x.update));
}

proof fn lemma_read_back_transfer_complete(x: IcapHeaders)
    requires
        readable_fields(x),
    ensures
        text_field(icap_fields(x), "transfer-complete"@, None) == text_opt(x.transfer_complete),
{
    reveal_strlit("transfer-complete");
    lemma_text_read_back(x.transfer_complete);
    lemma_icap_field_get(x, 14);
    assert(icap_names()[14] == "transfer-complete"@);
    assert(icap_values(x)[14] == text_opt(x.transfer_complete));
}

proof fn lemma_read_back_transfer_ignore(x: IcapHeaders)
    requires
        readable_fields(x),
    ensures
        text_field(icap_fields(x), "transfer-ignore"@, None) == text_opt(x.transfer_ignore),
{
    reveal_strlit("transfer-ignore");
    lemma_text_read_back(x.transfer_ignore);
    lemma_icap_field_get(x, 15);
    assert(icap_names()[15] == "transfer-ignore"@);
    assert(icap_values(x)[15] == text_opt(x.transfer_ignore));
}

/// What `from_http_headers` reads of the map that `to_http_headers` writes
/// is the fields that were written, when every text field that is set holds
/// visible text; a version that was not set reads back as `ICAP/1.0`.
pub proof fn lemma_fields_read_back(x: IcapHeaders)
    requires
        readable_fields(x),
    ensures
        text_field(icap_fields(x), "icap-version"@, Some("ICAP/1.0"@)) == version_read_back(x.icap_version),
        ip_field(icap_fields(x), "icap-client-ip"@) == x.icap_client_ip,
        ip_field(icap_fields(x), "icap-server-ip"@) == x.icap_server_ip,
        text_field(icap_fields(x), "icap-request-id"@, None) == text_opt(x.icap_request_id),
        text_field(icap_fields(x), "encapsulated"@, None) == text_opt(x.encapsulated),
        num_field(icap_fields(x), "preview"@) == num_opt(x.preview),
        text_field(icap_fields(x), "allow"@, None) == text_opt(x.allow),
        text_field(icap_fields(x), "istag"@, None) == text_opt(x.istag),
        text_field(icap_fields(x), "service"@, None) == text_opt(x.service),
        num_field(icap_fields(x), "max-connections"@) == num_opt(x.max_connections),
        num_field(icap_fields(x), "options-ttl"@) == num_opt(x.options_ttl),
        text_field(icap_fields(x), "service-id"@, None) == text_opt(x.service_id),
        text_field(icap_fields(x), "transfer-preview"@, None) == text_opt(x.transfer_preview),
        text_field(icap_fields(x), "update"@, None) == text_opt(x.update),
        text_field(icap_fields(x), "transfer-complete"@, None) == text_opt(x.transfer_complete),
        text_field(icap_fields(x), "transfer-ignore"@, None) == text_opt(x.transfer_ignore),
{
    lemma_read_back_icap_version(x);
    lemma_read_back_icap_client_ip(x);
    lemma_read_back_icap_server_ip(x);
    lemma_read_back_icap_request_id(x);
    lemma_read_back_encapsulated(x);
    lemma_read_back_preview(x);
    lemma_read_back_allow(x);
    lemma_read_back_istag(x);
    lemma_read_back_service(x);
    lemma_read_back_max_connections(x);
    lemma_read_back_options_ttl(x);
    lemma_read_back_service_id(x);
    lemma_read_back_transfer_preview(x);
    lemma_read_back_update(x);
    lemma_read_back_transfer_complete(x);
    lemma_read_back_transfer_ignore(x);
}

} // verus!
