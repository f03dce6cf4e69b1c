//! Plain ICAP error responses and status-code helpers.

use vstd::prelude::*;
use vstd::utf8::encode_utf8;
use crate::protocol::fields::{HeaderMap, FieldView, set_field};
use crate::protocol::common::{HttpVersion, IcapResponse};
use crate::protocol::parser::{ResponseModel, response_view};
use crate::protocol::response_generator::text_bytes;
use crate::text::{dec_chars, decimal_string};
use crate::error::IcapError;

verus! {

/// A plain error response: ISTag `"g3icap-error"`, a text/plain body
/// `reason: message` and a Content-Length that counts the bytes of the message.
pub open spec fn plain_error_model(status: u16, reason: Seq<char>, message: Seq<char>) -> ResponseModel {
    ResponseModel {
        status,
        version: HttpVersion::Http11,
        fields: set_field(
            set_field(
                set_field(Seq::empty(), "ISTag"@, "\"g3icap-error\""@),
                "Content-Type"@,
                "text/plain"@,
            ),
            "Content-Length"@,
            dec_chars(encode_utf8(message).len()),
        ),
        body: encode_utf8(reason + ": "@ + message),
        enc: None,
    }
}

/// A response with only an ISTag field and no body.
pub open spec fn tag_only_model(status: u16, tag: Seq<char>) -> ResponseModel {
    ResponseModel {
        status,
        version: HttpVersion::Http11,
        fields: set_field(Seq::empty(), "ISTag"@, tag),
        body: Seq::empty(),
        enc: None,
    }
}

/// Builds plain ICAP error responses.
pub struct ErrorResponseBuilder;

impl ErrorResponseBuilder {
    fn create_error_response(status: u16, reason: &str, message: &str) -> (r: IcapResponse)
        ensures
            response_view(r) == plain_error_model(status, reason@, message@),
    {
        let mut h = HeaderMap::new();
        h.insert("ISTag", "\"g3icap-error\"");
        h.insert("Content-Type", "text/plain");
        let n = message.as_bytes().len();
        let len = decimal_string(n as u64);
        h.insert("Content-Length", len.as_str());
        let mut body = String::from_str(reason);
        body.append(": ");
        body.append(message);
        IcapResponse { status, version: HttpVersion::Http11, headers: h, body: text_bytes(body.as_str()), encapsulated: None }
    }

    /// 400 Bad Request.
    pub fn bad_request(message: &str) -> (r: IcapResponse)
        ensures
            response_view(r) == plain_error_model(400, "Bad Request"@, message@),
    {
        Self::create_error_response(400, "Bad Request", message)
    }

    /// 404 Not Found.
    pub fn not_found(message: &str) -> (r: IcapResponse)
        ensures
            response_view(r) == plain_error_model(404, "Not Found"@, message@),
    {
        Self::create_error_response(404, "Not Found", message)
    }

    /// 405 Method Not Allowed.
    pub fn method_not_allowed(message: &str) -> (r: IcapResponse)
        ensures
            response_view(r) == plain_error_model(405, "Method Not Allowed"@, message@),
    {
        Self::create_error_response(405, "Method Not Allowed", message)
    }

    /// 408 Request Timeout.
    pub fn request_timeout(message: &str) -> (r: IcapResponse)
        ensures
            response_view(r) == plain_error_model(408, "Request Timeout"@, message@),
    {
        Self::create_error_response(408, "Request Timeout", message)
    }

    /// 413 Payload Too Large.
    pub fn payload_too_large(message: &str) -> (r: IcapResponse)
        ensures
            response_view(r) == plain_error_model(413, "Payload Too Large"@, message@),
    {
        Self::create_error_response(413, "Payload Too Large", message)
    }

    /// 500 Internal Server Error.
    pub fn internal_server_error(message: &str) -> (r: IcapResponse)
        ensures
            response_view(r) == plain_error_model(500, "Internal Server Error"@, message@),
    {
        Self::create_error_response(500, "Internal Server Error", message)
    }

    /// 501 Not Implemented.
    pub fn not_implemented(message: &str) -> (r: IcapResponse)
        ensures
            response_view(r) == plain_error_model(501, "Not Implemented"@, message@),
    {
        Self::create_error_response(501, "Not Implemented", message)
    }

    /// 502 Bad Gateway.
    pub fn bad_gateway(message: &str) -> (r: IcapResponse)
        ensures
            response_view(r) == plain_error_model(502, "Bad Gateway"@, message@),
    {
        Self::create_error_response(502, "Bad Gateway", message)
    }

    /// 503 Service Unavailable.
    pub fn service_unavailable(message: &str) -> (r: IcapResponse)
        ensures
            response_view(r) == plain_error_model(503, "Service Unavailable"@, message@),
    {
        Self::create_error_response(503, "Service Unavailable", message)
    }

    /// 100 Continue, for preview.
    pub fn continue_response() -> (r: IcapResponse)
        ensures
            response_view(r) == tag_only_model(100, "\"g3icap-continue\""@),
    {
        let mut h = HeaderMap::new();
        h.insert("ISTag", "\"g3icap-continue\"");
        IcapResponse { status: 100, version: HttpVersion::Http11, headers: h, body: Vec::new(), encapsulated: None }
    }

    /// 204 No Content.
    pub fn no_content() -> (r: IcapResponse)
        ensures
            response_view(r) == tag_only_model(204, "\"g3icap-no-content\""@),
    {
        let mut h = HeaderMap::new();
        h.insert("ISTag", "\"g3icap-no-content\"");
        IcapResponse { status: 204, version: HttpVersion::Http11, headers: h, body: Vec::new(), encapsulated: None }
    }
}

/// The response that answers an error: configuration, I/O and other
/// internal errors give 500, protocol and input errors 400, network errors
/// 502, service errors 503.
pub open spec fn error_response_model(e: IcapError) -> ResponseModel {
    match e {
        IcapError::Config(m) => plain_error_model(500, "Internal Server Error"@, "Configuration error: "@ + m@),
        IcapError::Protocol(m) => plain_error_model(400, "Bad Request"@, "Protocol error: "@ + m@),
        IcapError::Network(m) => plain_error_model(502, "Bad Gateway"@, "Network error: "@ + m@),
        IcapError::Service(m) => plain_error_model(503, "Service Unavailable"@, "Service error: "@ + m@),
        IcapError::Io(_) => plain_error_model(500, "Internal Server Error"@, "I/O error occurred"@),
        IcapError::Http(_) => plain_error_model(400, "Bad Request"@, "HTTP error occurred"@),
        IcapError::Url(_) => plain_error_model(400, "Bad Request"@, "Invalid URL"@),
        IcapError::Json(_) => plain_error_model(400, "Bad Request"@, "JSON parsing error"@),
        IcapError::Yaml(_) => plain_error_model(400, "Bad Request"@, "YAML parsing error"@),
        IcapError::Anyhow(_) => plain_error_model(500, "Internal Server Error"@, "Internal error occurred"@),
    }
}

fn prefixed(prefix: &str, m: &String) -> (r: String)
    ensures
        r@ == prefix@ + m@,
{
    let mut s = String::from_str(prefix);
    s.append(m.as_str());
    s
}

/// The ICAP response that answers `error`.
pub fn error_to_response(error: &IcapError) -> (r: IcapResponse)
    ensures
        response_view(r) == error_response_model(*error),
{
    match error {
        IcapError::Config(m) => ErrorResponseBuilder::internal_server_error(prefixed("Configuration error: ", m).as_str()),
        IcapError::Protocol(m) => ErrorResponseBuilder::bad_request(prefixed("Protocol error: ", m).as_str()),
        IcapError::Network(m) => ErrorResponseBuilder::bad_gateway(prefixed("Network error: ", m).as_str()),
        IcapError::Service(m) => ErrorResponseBuilder::service_unavailable(prefixed("Service error: ", m).as_str()),
        IcapError::Io(_) => ErrorResponseBuilder::internal_server_error("I/O error occurred"),
        IcapError::Http(_) => ErrorResponseBuilder::bad_request("HTTP error occurred"),
        IcapError::Url(_) => ErrorResponseBuilder::bad_request("Invalid URL"),
        IcapError::Json(_) => ErrorResponseBuilder::bad_request("JSON parsing error"),
        IcapError::Yaml(_) => ErrorResponseBuilder::bad_request("YAML parsing error"),
        IcapError::Anyhow(_) => ErrorResponseBuilder::internal_server_error("Internal error occurred"),
    }
}

/// The message for an error status.
pub open spec fn status_error_message(status: u16) -> Seq<char> {

    if status == 400 {
        "Bad Request - The request could not be understood by the server"@
    } else if status == 401 {
        "Unauthorized - Authentication is required"@
    } else if status == 403 {
        "Forbidden - The server understood the request but refuses to authorize it"@
    } else if status == 404 {
        "Not Found - The requested resource was not found"@
    } else if status == 405 {
        "Method Not Allowed - The method is not allowed for this resource"@
    } else if status == 408 {
        "Request Timeout - The server timed out waiting for the request"@
    } else if status == 413 {
        "Payload Too Large - The request entity is too large"@
    } else if status == 500 {
        "Internal Server Error - The server encountered an unexpected condition"@
    } else if status == 501 {
        "Not Implemented - The server does not support the functionality required"@
    } else if status == 502 {
        "Bad Gateway - The server received an invalid response from upstream"@
    } else if status == 503 {
        "Service Unavailable - The server is currently unable to handle the request"@
    } else {
        "Unknown error occurred"@
    }
}

/// Status code classes.
pub struct IcapStatusCodes;

impl IcapStatusCodes {
    /// 2xx.
    pub fn is_success(status: u16) -> (r: bool)
        ensures
            r == (200 <= status < 300),
    {
        200 <= status && status < 300
    }

    /// 4xx.
    pub fn is_client_error(status: u16) -> (r: bool)
        ensures
            r == (400 <= status < 500),
    {
        400 <= status && status < 500
    }

    /// 5xx.
    pub fn is_server_error(status: u16) -> (r: bool)
        ensures
            r == (500 <= status < 600),
    {
        500 <= status && status < 600
    }

    /// The message for an error status.
    pub fn get_error_message(status: u16) -> (r: &'static str)
        ensures
            r@ == status_error_message(status),
    {

        if status == 400 {
            "Bad Request - The request could not be understood by the server"
        } else if status == 401 {
            "Unauthorized - Authentication is required"
        } else if status == 403 {
            "Forbidden - The server understood the request but refuses to authorize it"
        } else if status == 404 {
            "Not Found - The requested resource was not found"
        } else if status == 405 {
            "Method Not Allowed - The method is not allowed for this resource"
        } else if status == 408 {
            "Request Timeout - The server timed out waiting for the request"
        } else if status == 413 {
            "Payload Too Large - The request entity is too large"
        } else if status == 500 {
            "Internal Server Error - The server encountered an unexpected condition"
        } else if status == 501 {
            "Not Implemented - The server does not support the functionality required"
        } else if status == 502 {
            "Bad Gateway - The server received an invalid response from upstream"
        } else if status == 503 {
            "Service Unavailable - The server is currently unable to handle the request"
        } else {
            "Unknown error occurred"
        }
    }
}

} // verus!
