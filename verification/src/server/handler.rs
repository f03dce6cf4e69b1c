//! Request handlers of the server: pass-through handlers and a filter on
//! hosts, URI paths and response bodies.

use vstd::prelude::*;
use crate::error::IcapError;
use crate::protocol::common::{IcapRequest, IcapResponse, HttpVersion, is_visible_text, is_visible_exec};
use crate::protocol::fields::{HeaderMap, FieldView, set_field, map_get};
use crate::protocol::parser::{ResponseModel, response_view};
use crate::protocol::reqmod::ReqmodHandler;
use crate::protocol::respmod::RespmodHandler;
use crate::protocol::response_generator::text_bytes;
use crate::protocol::headers::field_of;
use crate::text::{contains_seq, contains_str, str_eq, ascii_lower};
use crate::bridge::{to_lowercase, unicode_lower, uri_path, uri_path_of, utf8_lossy, lossy_text};

verus! {

/// A 204 with no fields: lets the message through.
pub open spec fn pass_model() -> ResponseModel {
    ResponseModel { status: 204, version: HttpVersion::Http11, fields: Seq::empty(), body: Seq::empty(), enc: None }
}

fn pass_response() -> (r: IcapResponse)
    ensures
        response_view(r) == pass_model(),
{
    IcapResponse { status: 204, version: HttpVersion::Http11, headers: HeaderMap::new(), body: Vec::new(), encapsulated: None }
}

/// Lets every request through (204).
#[derive(Clone, Copy, Debug)]
pub struct DefaultReqmodHandler;

impl ReqmodHandler for DefaultReqmodHandler {
    fn handle_reqmod(&self, request: &IcapRequest) -> (r: Result<IcapResponse, IcapError>)
        ensures
            r matches Ok(x) && response_view(x) == pass_model(),
    {
        Ok(pass_response())
    }
}

/// Lets every response through (204).
#[derive(Clone, Copy, Debug)]
pub struct DefaultRespmodHandler;

impl RespmodHandler for DefaultRespmodHandler {
    fn handle_respmod(&self, request: &IcapRequest) -> (r: Result<IcapResponse, IcapError>)
        ensures
            r matches Ok(x) && response_view(x) == pass_model(),
    {
        Ok(pass_response())
    }
}

/// Blocks requests to some domains or with some keywords in their path, and
/// responses with those keywords in their body.
#[derive(Clone, Debug)]
pub struct ContentFilterHandler {
    blocked_domains: Vec<String>,
    blocked_keywords: Vec<String>,
}

/// Some text of `words` occurs in `s`.
pub open spec fn contains_any(s: Seq<char>, words: Seq<Seq<char>>) -> bool {
    exists|i: int| 0 <= i < words.len() && contains_seq(s, #[trigger] words[i])
}

/// Some text of `words`, lower-cased, occurs in `s`.
pub open spec fn contains_any_lower(s: Seq<char>, words: Seq<Seq<char>>) -> bool {
    exists|i: int| 0 <= i < words.len() && contains_seq(s, unicode_lower(#[trigger] words[i]))
}

/// The path of a request's URI (empty when the URI does not parse).
pub open spec fn request_path(uri: Seq<char>) -> Seq<char> {
    match uri_path_of(uri) {
        Some(p) => p,
        None => Seq::empty(),
    }
}

/// A request is blocked when its Host field is visible text that holds a
/// blocked domain, or its lower-cased URI path is not empty and holds a
/// lower-cased blocked keyword.
pub open spec fn request_blocked(fields: Seq<FieldView>, uri: Seq<char>, domains: Seq<Seq<char>>, keywords: Seq<Seq<char>>) -> bool {
    let host_hit = match field_of(fields, "host"@) {
        Some(h) => is_visible_text(h) && contains_any(h, domains),
        None => false,
    };
    let path = unicode_lower(request_path(uri));
    host_hit || (path.len() > 0 && contains_any_lower(path, keywords))
}

/// A response is blocked when the lower-cased text of its encapsulated
/// response body holds a lower-cased blocked keyword.
pub open spec fn response_blocked(res_body: Option<Seq<u8>>, keywords: Seq<Seq<char>>) -> bool {
    match res_body {
        Some(b) => contains_any_lower(unicode_lower(lossy_text(b)), keywords),
        None => false,
    }
}

/// The fields that an allowed message's answer carries over from the
/// request: Host, Encapsulated, then X-Client-IP and X-Client-Port in the
/// order of the request's fields.
pub open spec fn carried_fields(fields: Seq<FieldView>) -> Seq<FieldView> {
    let f1 = match map_get(fields, "host"@) {
        Some(v) => set_field(Seq::empty(), "host"@, v),
        None => Seq::empty(),
    };
    let f2 = match map_get(fields, "encapsulated"@) {
        Some(v) => set_field(f1, "encapsulated"@, v),
        None => f1,
    };
    client_fields(f2, fields)
}

/// `acc` with each X-Client-IP or X-Client-Port field of `fields` set, in order.
pub open spec fn client_fields(acc: Seq<FieldView>, fields: Seq<FieldView>) -> Seq<FieldView>
    decreases fields.len(),
{
    if fields.len() == 0 {
        acc
    } else {
        let prev = client_fields(acc, fields.drop_last());
        let (n, v) = fields.last();
        if n == "x-client-ip"@ || n == "x-client-port"@ {
            set_field(prev, n, v)
        } else {
            prev
        }
    }
}

/// The answer of the filter: 403 with `blocked_text` when blocked, else 204
/// with the carried fields.
pub open spec fn filter_answer(blocked: bool, blocked_text: Seq<char>, fields: Seq<FieldView>) -> ResponseModel {
    if blocked {
        ResponseModel {
            status: 403,
            version: HttpVersion::Http11,
            fields: Seq::empty(),
            body: vstd::utf8::encode_utf8(blocked_text),
            enc: None,
        }
    } else {
        ResponseModel { status: 204, version: HttpVersion::Http11, fields: carried_fields(fields), body: Seq::empty(), enc: None }
    }
}

/// The views of a list of strings.
pub open spec fn texts(v: Seq<String>) -> Seq<Seq<char>> {
    v.map_values(|s: String| s@)
}

fn contains_any_exec(s: &str, words: &Vec<String>) -> (r: bool)
    ensures
        r == contains_any(s@, texts(words@)),
{
    let ghost w = texts(words@);
    let mut i: usize = 0;
    while i < words.len()
        invariant
            i <= words@.len(),
            w == texts(words@),
            forall|j: int| 0 <= j < i ==> !contains_seq(s@, #[trigger] w[j]),
        decreases words@.len() - i,
    {
        if contains_str(s, words[i].as_str()) {
            proof {
                assert(contains_seq(s@, w[i as int]));
            }
            return true;
        }
        i = i + 1;
    }
    false
}

fn contains_any_lower_exec(s: &str, words: &Vec<String>) -> (r: bool)
    ensures
        r == contains_any_lower(s@, texts(words@)),
{
    let ghost w = texts(words@);
    let mut i: usize = 0;
    while i < words.len()
        invariant
            i <= words@.len(),
            w == texts(words@),
            forall|j: int| 0 <= j < i ==> !contains_seq(s@, unicode_lower(#[trigger] w[j])),
        decreases words@.len() - i,
    {
        let k = to_lowercase(words[i].as_str());
        if contains_str(s, k.as_str()) {
            proof {
                assert(contains_seq(s@, unicode_lower(w[i as int])));
            }
            return true;
        }
        i = i + 1;
    }
    false
}

fn carried_response(request: &IcapRequest) -> (r: IcapResponse)
    ensures
        response_view(r) == filter_answer(false, Seq::empty(), request.headers@),
{
    proof {
        reveal_strlit("host");
        reveal_strlit("encapsulated");
        assert(ascii_lower("host"@) =~= "host"@);
        assert(ascii_lower("encapsulated"@) =~= "encapsulated"@);
    }
    let mut h = HeaderMap::new();
    if let Some(v) = request.headers.get("host") {
        h.insert("host", v.as_str());
    }
    if let Some(v) = request.headers.get("encapsulated") {
        h.insert("encapsulated", v.as_str());
    }
    let ghost f2 = h@;
    let mut i: usize = 0;
    while i < request.headers.len()
        invariant
            i <= request.headers@.len(),
            h@ == client_fields(f2, request.headers@.subrange(0, i as int)),
        decreases request.headers@.len() - i,
    {
        let (n, v) = request.headers.entry(i);
        proof {
            assert(request.headers@.subrange(0, i + 1).drop_last() =~= request.headers@.subrange(0, i as int));
        }
        if str_eq(n.as_str(), "x-client-ip") || str_eq(n.as_str(), "x-client-port") {
            h.insert(n.as_str(), v.as_str());
        }
        i = i + 1;
    }
    proof {
        assert(request.headers@.subrange(0, request.headers@.len() as int) =~= request.headers@);
    }
    IcapResponse { status: 204, version: HttpVersion::Http11, headers: h, body: Vec::new(), encapsulated: None }
}

impl ContentFilterHandler {
    /// The blocked domains.
    pub closed spec fn domains(&self) -> Seq<Seq<char>> {
        texts(self.blocked_domains@)
    }

    /// The blocked keywords.
    pub closed spec fn keywords(&self) -> Seq<Seq<char>> {
        texts(self.blocked_keywords@)
    }

    /// A filter on `blocked_domains` and `blocked_keywords`.
    pub fn new(blocked_domains: Vec<String>, blocked_keywords: Vec<String>) -> (r: Self)
        ensures
            r.domains() == texts(blocked_domains@),
            r.keywords() == texts(blocked_keywords@),
    {
        ContentFilterHandler { blocked_domains, blocked_keywords }
    }

    /// True when `request` is to be blocked.
    pub fn should_block_request(&self, request: &IcapRequest) -> (r: bool)
        ensures
            r == request_blocked(request.headers@, request.uri@, self.domains(), self.keywords()),
    {
        proof {
            reveal_strlit("host");
        }
        let host_hit = match request.headers.get("host") {
            Some(h) => is_visible_exec(h.as_str()) && contains_any_exec(h.as_str(), &self.blocked_domains),
            None => false,
        };
        if host_hit {
            return true;
        }
        let raw = match uri_path(request.uri.as_str()) {
            Some(p) => p,
            None => String::new(),
        };
        let path = to_lowercase(raw.as_str());
        if path.as_str().unicode_len() > 0 && contains_any_lower_exec(path.as_str(), &self.blocked_keywords) {
            return true;
        }
        false
    }

    /// True when the response that `request` carries is to be blocked.
    pub fn should_block_response(&self, request: &IcapRequest) -> (r: bool)
        ensures
            r == response_blocked(
                match request.encapsulated {
                    Some(e) => match e.res_body {
                        Some(b) => Some(b@),
                        None => None,
                    },
                    None => None,
                },
                self.keywords(),
            ),
    {
        if let Some(e) = &request.encapsulated {
            if let Some(b) = &e.res_body {
                let text = utf8_lossy(b.as_slice());
                let lower = to_lowercase(text.as_str());
                return contains_any_lower_exec(lower.as_str(), &self.blocked_keywords);
            }
        }
        false
    }
}

impl ReqmodHandler for ContentFilterHandler {
    /// 403 for a blocked request, else 204 with the carried fields.
    fn handle_reqmod(&self, request: &IcapRequest) -> (r: Result<IcapResponse, IcapError>)
        ensures
            r matches Ok(x) && response_view(x) == filter_answer(
                request_blocked(request.headers@, request.uri@, self.domains(), self.keywords()),
                "Request blocked by content filter"@,
                request.headers@,
            ),
    {
        if self.should_block_request(request) {
            return Ok(IcapResponse {
                status: 403,
                version: HttpVersion::Http11,
                headers: HeaderMap::new(),
                body: text_bytes("Request blocked by content filter"),
                encapsulated: None,
            });
        }
        Ok(carried_response(request))
    }
}

impl RespmodHandler for ContentFilterHandler {
    /// 403 for a blocked response, else 204 with the carried fields.
    fn handle_respmod(&self, request: &IcapRequest) -> (r: Result<IcapResponse, IcapError>)
        ensures
            r matches Ok(x) && response_view(x) == filter_answer(
                response_blocked(
                    match request.encapsulated {
                        Some(e) => match e.res_body {
                            Some(b) => Some(b@),
                            None => None,
                        },
                        None => None,
                    },
                    self.keywords(),
                ),
                "Response blocked by content filter"@,
                request.headers@,
            ),
    {
        if self.should_block_response(request) {
            return Ok(IcapResponse {
                status: 403,
                version: HttpVersion::Http11,
                headers: HeaderMap::new(),
                body: text_bytes("Response blocked by content filter"),
                encapsulated: None,
            });
        }
        Ok(carried_response(request))
    }
}

} // verus!
