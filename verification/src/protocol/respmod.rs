//! RESPMOD (RFC 3507 §4.9): modification of HTTP responses.

use vstd::prelude::*;
use crate::error::IcapError;
use crate::protocol::common::{IcapMethod, IcapRequest, IcapResponse, HttpVersion, EncapsulatedData};
use crate::protocol::fields::{HeaderMap, set_field};
use crate::protocol::parser::{ResponseModel, EncModel, response_view};
use crate::protocol::reqmod::{with_required, with_required_fields};

verus! {

/// Answers RESPMOD requests.
pub trait RespmodHandler {
    /// Handles a RESPMOD request.
    fn handle_respmod(&self, request: &IcapRequest) -> (r: Result<IcapResponse, IcapError>);
}

/// The answer of the default handler: 204 with its ISTag, `null-body=0`,
/// and encapsulated data that holds no message.
pub open spec fn default_respmod_model() -> ResponseModel {
    ResponseModel {
        status: 204,
        version: HttpVersion::Http11,
        fields: set_field(
            set_field(Seq::empty(), "ISTag"@, "\"DefaultRespmod-1\""@),
            "Encapsulated"@,
            "null-body=0"@,
        ),
        body: Seq::empty(),
        enc: Some(EncModel { req_hdr: None, req_body: None, res_hdr: None, res_body: None, null_body: true }),
    }
}

/// Lets every response through unchanged (204).
#[derive(Clone, Copy, Debug)]
pub struct DefaultRespmodHandler;

impl RespmodHandler for DefaultRespmodHandler {
    fn handle_respmod(&self, request: &IcapRequest) -> (r: Result<IcapResponse, IcapError>)
        ensures
            r matches Ok(x) && response_view(x) == default_respmod_model(),
    {
        let mut headers = HeaderMap::new();
        headers.insert("ISTag", "\"DefaultRespmod-1\"");
        headers.insert("Encapsulated", "null-body=0");
        Ok(IcapResponse {
            status: 204,
            version: HttpVersion::Http11,
            headers,
            body: Vec::new(),
            encapsulated: Some(
                EncapsulatedData { req_hdr: None, req_body: None, res_hdr: None, res_body: None, null_body: true },
            ),
        })
    }
}

/// Serves RESPMOD requests with a handler.
pub struct RespmodService<H: RespmodHandler> {
    handler: H,
}

impl<H: RespmodHandler> RespmodService<H> {
    /// The handler that answers.
    pub closed spec fn answering_handler(&self) -> H {
        self.handler
    }

    /// A service that answers with `handler`.
    pub fn new(handler: H) -> (r: Self)
        ensures
            r.answering_handler() == handler,
    {
        RespmodService { handler }
    }

    /// Answers a RESPMOD request with the handler and completes its answer
    /// with the fields every answer needs; any other method is a protocol
    /// error, and so is what the handler refuses.
    pub fn process_request(&self, request: &IcapRequest) -> (r: Result<IcapResponse, IcapError>)
        ensures
            request.method != IcapMethod::Respmod ==> (r matches Err(IcapError::Protocol(m)) && m@
                == "ICAP: Expected RESPMOD"@),
            request.method == IcapMethod::Respmod ==> (r matches Ok(x) ==> exists|y: ResponseModel|
                response_view(x) == #[trigger] with_required(y, "\"DefaultRespmod-1\""@)),
    {
        if request.method != IcapMethod::Respmod {
            proof {
                reveal_strlit("ICAP");
                reveal_strlit(": ");
                reveal_strlit("Expected RESPMOD");
                reveal_strlit("ICAP: Expected RESPMOD");
                assert("ICAP"@ + ": "@ + "Expected RESPMOD"@ =~= "ICAP: Expected RESPMOD"@);
            }
            return Err(IcapError::protocol_error("Expected RESPMOD", "ICAP"));
        }
        match self.handler.handle_respmod(request) {
            Err(e) => Err(e),
            Ok(resp) => {
                let ghost y = response_view(resp);
                let x = with_required_fields(resp, "\"DefaultRespmod-1\"");
                proof {
                    assert(response_view(x) == with_required(y, "\"DefaultRespmod-1\""@));
                }
                Ok(x)
            },
        }
    }
}

} // verus!
