//! REQMOD (RFC 3507 §4.8): modification of HTTP requests.

use vstd::prelude::*;
use crate::error::IcapError;
use crate::protocol::common::{IcapMethod, IcapRequest, IcapResponse, HttpVersion};
use crate::protocol::fields::{HeaderMap, FieldView, set_field, map_get};
use crate::protocol::parser::{ResponseModel, response_view, copy_encapsulated, enc_view, EncModel};
use crate::text::ascii_lower;

verus! {

/// Answers REQMOD requests.
pub trait ReqmodHandler {
    /// Handles a REQMOD request.
    fn handle_reqmod(&self, request: &IcapRequest) -> (r: Result<IcapResponse, IcapError>);
}

/// The field `name` is set (without regard to ASCII case).
pub open spec fn has_field(f: Seq<FieldView>, name: Seq<char>) -> bool {
    map_get(f, ascii_lower(name)) is Some
}

/// The fields with `ISTag` set to `istag` and `Encapsulated` to `null-body=0`
/// where they are missing.
pub open spec fn required_fields(f: Seq<FieldView>, istag: Seq<char>) -> Seq<FieldView> {
    let f1 = if has_field(f, "ISTag"@) { f } else { set_field(f, "ISTag"@, istag) };
    if has_field(f1, "Encapsulated"@) { f1 } else { set_field(f1, "Encapsulated"@, "null-body=0"@) }
}

/// Whatever fields an answer had, once completed it has an ISTag and an
/// Encapsulated field, and every field it had keeps its value.
pub proof fn lemma_required_fields_present(f: Seq<FieldView>, istag: Seq<char>)
    ensures
        has_field(required_fields(f, istag), "ISTag"@),
        has_field(required_fields(f, istag), "Encapsulated"@),
        forall|n: Seq<char>| #[trigger] map_get(f, n) is Some ==> map_get(required_fields(f, istag), n) == map_get(f, n),
{
    let i = ascii_lower("ISTag"@);
    let e = ascii_lower("Encapsulated"@);
    let f1 = if has_field(f, "ISTag"@) { f } else { set_field(f, "ISTag"@, istag) };
    crate::protocol::fields::lemma_get_insert(f, i, istag, e);
    crate::protocol::fields::lemma_get_insert(f1, e, "null-body=0"@, i);
    assert forall|n: Seq<char>| #[trigger] map_get(f, n) is Some implies map_get(required_fields(f, istag), n) == map_get(f, n) by {
        crate::protocol::fields::lemma_get_insert(f, i, istag, n);
        crate::protocol::fields::lemma_get_insert(f1, e, "null-body=0"@, n);
    }
}

/// A response with the fields that every answer needs added where missing.
pub open spec fn with_required(m: ResponseModel, istag: Seq<char>) -> ResponseModel {
    ResponseModel { fields: required_fields(m.fields, istag), ..m }
}

/// Adds to `resp` the fields that an answer needs (RFC 3507 §4.2, §4.7):
/// `ISTag` with `istag` and `Encapsulated: null-body=0`, each where missing.
pub fn with_required_fields(resp: IcapResponse, istag: &str) -> (r: IcapResponse)
    ensures
        response_view(r) == with_required(response_view(resp), istag@),
{
    let mut resp = resp;
    if !resp.headers.contains_key("ISTag") {
        resp.headers.insert("ISTag", istag);
    }
    if !resp.headers.contains_key("Encapsulated") {
        resp.headers.insert("Encapsulated", "null-body=0");
    }
    resp
}

/// The answer of the default handler: 204 with its ISTag, `null-body=0`, and
/// the request's encapsulated data.
pub open spec fn default_reqmod_model(request: IcapRequest) -> ResponseModel {
    ResponseModel {
        status: 204,
        version: HttpVersion::Http11,
        fields: set_field(
            set_field(Seq::empty(), "ISTag"@, "\"DefaultReqmodHandler-1\""@),
            "Encapsulated"@,
            "null-body=0"@,
        ),
        body: Seq::empty(),
        enc: match request.encapsulated {
            Some(e) => Some(enc_view(e)),
            None => None,
        },
    }
}

/// Lets every request through unchanged (204).
#[derive(Clone, Copy, Debug)]
pub struct DefaultReqmodHandler;

impl ReqmodHandler for DefaultReqmodHandler {
    fn handle_reqmod(&self, request: &IcapRequest) -> (r: Result<IcapResponse, IcapError>)
        ensures
            r matches Ok(x) && response_view(x) == default_reqmod_model(*request),
    {
        let mut headers = HeaderMap::new();
        headers.insert("ISTag", "\"DefaultReqmodHandler-1\"");
        headers.insert("Encapsulated", "null-body=0");
        let encapsulated = match &request.encapsulated {
            Some(e) => Some(copy_encapsulated(e)),
            None => None,
        };
        Ok(IcapResponse { status: 204, version: HttpVersion::Http11, headers, body: Vec::new(), encapsulated })
    }
}

/// Serves REQMOD requests with a handler.
pub struct ReqmodService<H: ReqmodHandler> {
    handler: H,
}

impl<H: ReqmodHandler> ReqmodService<H> {
    /// The handler that answers.
    pub closed spec fn answering_handler(&self) -> H {
        self.handler
    }

    /// A service that answers with `handler`.
    pub fn new(handler: H) -> (r: Self)
        ensures
            r.answering_handler() == handler,
    {
        ReqmodService { handler }
    }

    /// Answers a REQMOD request with the handler and completes its answer
    /// with the fields every answer needs; any other method is a protocol
    /// error, and so is what the handler refuses.
    pub fn process_request(&self, request: &IcapRequest) -> (r: Result<IcapResponse, IcapError>)
        ensures
            request.method != IcapMethod::Reqmod ==> (r matches Err(IcapError::Protocol(m)) && m@
                == "ICAP: Expected REQMOD method"@),
            request.method == IcapMethod::Reqmod ==> (r matches Ok(x) ==> exists|y: ResponseModel|
                response_view(x) == #[trigger] with_required(y, "\"DefaultReqmodHandler-1\""@)),
    {
        if request.method != IcapMethod::Reqmod {
            proof {
                reveal_strlit("ICAP");
                reveal_strlit(": ");
                reveal_strlit("Expected REQMOD method");
                reveal_strlit("ICAP: Expected REQMOD method");
                assert("ICAP"@ + ": "@ + "Expected REQMOD method"@ =~= "ICAP: Expected REQMOD method"@);
            }
            return Err(IcapError::protocol_error("Expected REQMOD method", "ICAP"));
        }
        match self.handler.handle_reqmod(request) {
            Err(e) => Err(e),
            Ok(resp) => {
                let ghost y = response_view(resp);
                let x = with_required_fields(resp, "\"DefaultReqmodHandler-1\"");
                proof {
                    assert(response_view(x) == with_required(y, "\"DefaultReqmodHandler-1\""@));
                }
                Ok(x)
            },
        }
    }
}

} // verus!
