//! ICAP error codes (RFC 3507 §4.3.3) and error responses built from them.

use vstd::prelude::*;
use crate::text::{dec_chars, decimal_string};

verus! {

/// ICAP error and status codes.
#[derive(PartialEq, Eq, Structural, Clone, Copy, Debug, Hash)]
pub enum IcapErrorCode {
    BadRequest,
    Unauthorized,
    PaymentRequired,
    Forbidden,
    NotFound,
    MethodNotAllowed,
    NotAcceptable,
    ProxyAuthenticationRequired,
    RequestTimeout,
    Conflict,
    Gone,
    LengthRequired,
    PreconditionFailed,
    RequestEntityTooLarge,
    RequestUriTooLarge,
    UnsupportedMediaType,
    RequestedRangeNotSatisfiable,
    ExpectationFailed,
    InternalServerError,
    NotImplemented,
    BadGateway,
    ServiceUnavailable,
    GatewayTimeout,
    HttpVersionNotSupported,
    InvalidRequest,
    InvalidResponse,
    InvalidEncapsulated,
    InvalidPreview,
    PreviewRequired,
    Continue,
    NoContent,
}

/// The number of each code: its HTTP status for the standard codes, then 506 upward for the ICAP-specific ones, in the order of declaration.
pub open spec fn error_code_number(c: IcapErrorCode) -> u16 {
    match c {
        IcapErrorCode::BadRequest => 400,
        IcapErrorCode::Unauthorized => 401,
        IcapErrorCode::PaymentRequired => 402,
        IcapErrorCode::Forbidden => 403,
        IcapErrorCode::NotFound => 404,
        IcapErrorCode::MethodNotAllowed => 405,
        IcapErrorCode::NotAcceptable => 406,
        IcapErrorCode::ProxyAuthenticationRequired => 407,
        IcapErrorCode::RequestTimeout => 408,
        IcapErrorCode::Conflict => 409,
        IcapErrorCode::Gone => 410,
        IcapErrorCode::LengthRequired => 411,
        IcapErrorCode::PreconditionFailed => 412,
        IcapErrorCode::RequestEntityTooLarge => 413,
        IcapErrorCode::RequestUriTooLarge => 414,
        IcapErrorCode::UnsupportedMediaType => 415,
        IcapErrorCode::RequestedRangeNotSatisfiable => 416,
        IcapErrorCode::ExpectationFailed => 417,
        IcapErrorCode::InternalServerError => 500,
        IcapErrorCode::NotImplemented => 501,
        IcapErrorCode::BadGateway => 502,
        IcapErrorCode::ServiceUnavailable => 503,
        IcapErrorCode::GatewayTimeout => 504,
        IcapErrorCode::HttpVersionNotSupported => 505,
        IcapErrorCode::InvalidRequest => 506,
        IcapErrorCode::InvalidResponse => 507,
        IcapErrorCode::InvalidEncapsulated => 508,
        IcapErrorCode::InvalidPreview => 509,
        IcapErrorCode::PreviewRequired => 510,
        IcapErrorCode::Continue => 511,
        IcapErrorCode::NoContent => 512,
    }
}

/// The HTTP status that each code is answered with.
pub open spec fn error_status(c: IcapErrorCode) -> u16 {
    match c {
        IcapErrorCode::BadRequest => 400,
        IcapErrorCode::Unauthorized => 401,
        IcapErrorCode::PaymentRequired => 402,
        IcapErrorCode::Forbidden => 403,
        IcapErrorCode::NotFound => 404,
        IcapErrorCode::MethodNotAllowed => 405,
        IcapErrorCode::NotAcceptable => 406,
        IcapErrorCode::ProxyAuthenticationRequired => 407,
        IcapErrorCode::RequestTimeout => 408,
        IcapErrorCode::Conflict => 409,
        IcapErrorCode::Gone => 410,
        IcapErrorCode::LengthRequired => 411,
        IcapErrorCode::PreconditionFailed => 412,
        IcapErrorCode::RequestEntityTooLarge => 413,
        IcapErrorCode::RequestUriTooLarge => 414,
        IcapErrorCode::UnsupportedMediaType => 415,
        IcapErrorCode::RequestedRangeNotSatisfiable => 416,
        IcapErrorCode::ExpectationFailed => 417,
        IcapErrorCode::InternalServerError => 500,
        IcapErrorCode::NotImplemented => 501,
        IcapErrorCode::BadGateway => 502,
        IcapErrorCode::ServiceUnavailable => 503,
        IcapErrorCode::GatewayTimeout => 504,
        IcapErrorCode::HttpVersionNotSupported => 505,
        IcapErrorCode::InvalidRequest => 400,
        IcapErrorCode::InvalidResponse => 400,
        IcapErrorCode::InvalidEncapsulated => 400,
        IcapErrorCode::InvalidPreview => 400,
        IcapErrorCode::PreviewRequired => 100,
        IcapErrorCode::Continue => 100,
        IcapErrorCode::NoContent => 204,
    }
}

/// The short message of each code.
pub open spec fn error_message(c: IcapErrorCode) -> Seq<char> {
    match c {
        IcapErrorCode::BadRequest => "Bad Request"@,
        IcapErrorCode::Unauthorized => "Unauthorized"@,
        IcapErrorCode::PaymentRequired => "Payment Required"@,
        IcapErrorCode::Forbidden => "Forbidden"@,
        IcapErrorCode::NotFound => "Not Found"@,
        IcapErrorCode::MethodNotAllowed => "Method Not Allowed"@,
        IcapErrorCode::NotAcceptable => "Not Acceptable"@,
        IcapErrorCode::ProxyAuthenticationRequired => "Proxy Authentication Required"@,
        IcapErrorCode::RequestTimeout => "Request Timeout"@,
        IcapErrorCode::Conflict => "Conflict"@,
        IcapErrorCode::Gone => "Gone"@,
        IcapErrorCode::LengthRequired => "Length Required"@,
        IcapErrorCode::PreconditionFailed => "Precondition Failed"@,
        IcapErrorCode::RequestEntityTooLarge => "Request Entity Too Large"@,
        IcapErrorCode::RequestUriTooLarge => "Request URI Too Large"@,
        IcapErrorCode::UnsupportedMediaType => "Unsupported Media Type"@,
        IcapErrorCode::RequestedRangeNotSatisfiable => "Requested Range Not Satisfiable"@,
        IcapErrorCode::ExpectationFailed => "Expectation Failed"@,
        IcapErrorCode::InternalServerError => "Internal Server Error"@,
        IcapErrorCode::NotImplemented => "Not Implemented"@,
        IcapErrorCode::BadGateway => "Bad Gateway"@,
        IcapErrorCode::ServiceUnavailable => "Service Unavailable"@,
        IcapErrorCode::GatewayTimeout => "Gateway Timeout"@,
        IcapErrorCode::HttpVersionNotSupported => "HTTP Version Not Supported"@,
        IcapErrorCode::InvalidRequest => "Invalid ICAP Request"@,
        IcapErrorCode::InvalidResponse => "Invalid ICAP Response"@,
        IcapErrorCode::InvalidEncapsulated => "Invalid Encapsulated Data"@,
        IcapErrorCode::InvalidPreview => "Invalid Preview"@,
        IcapErrorCode::PreviewRequired => "Preview Required"@,
        IcapErrorCode::Continue => "Continue"@,
        IcapErrorCode::NoContent => "No Content"@,
    }
}

/// The long description of each code.
pub open spec fn error_description(c: IcapErrorCode) -> Seq<char> {
    match c {
        IcapErrorCode::BadRequest => "The request could not be understood by the server due to malformed syntax."@,
        IcapErrorCode::Unauthorized => "The request requires user authentication."@,
        IcapErrorCode::PaymentRequired => "The request requires payment."@,
        IcapErrorCode::Forbidden => "The server understood the request, but is refusing to fulfill it."@,
        IcapErrorCode::NotFound => "The server has not found anything matching the Request-URI."@,
        IcapErrorCode::MethodNotAllowed => "The method specified in the Request-Line is not allowed for the resource identified by the Request-URI."@,
        IcapErrorCode::NotAcceptable => "The resource identified by the request is only capable of generating response entities which have content characteristics not acceptable according to the accept headers sent in the request."@,
        IcapErrorCode::ProxyAuthenticationRequired => "The client must first authenticate itself with the proxy."@,
        IcapErrorCode::RequestTimeout => "The client did not produce a request within the time that the server was prepared to wait."@,
        IcapErrorCode::Conflict => "The request could not be completed due to a conflict with the current state of the resource."@,
        IcapErrorCode::Gone => "The requested resource is no longer available at the server and no forwarding address is known."@,
        IcapErrorCode::LengthRequired => "The server refuses to accept the request without a defined Content-Length."@,
        IcapErrorCode::PreconditionFailed => "The precondition given in one or more of the request-header fields evaluated to false when it was tested on the server."@,
        IcapErrorCode::RequestEntityTooLarge => "The server is refusing to process a request because the request entity is larger than the server is willing or able to process."@,
        IcapErrorCode::RequestUriTooLarge => "The server is refusing to service the request because the Request-URI is longer than the server is willing to interpret."@,
        IcapErrorCode::UnsupportedMediaType => "The server is refusing to service the request because the entity of the request is in a format not supported by the requested resource for the requested method."@,
        IcapErrorCode::RequestedRangeNotSatisfiable => "The server cannot fulfill the request because the requested range is not satisfiable."@,
        IcapErrorCode::ExpectationFailed => "The expectation given in an Expect request-header field could not be met by this server."@,
        IcapErrorCode::InternalServerError => "The server encountered an unexpected condition which prevented it from fulfilling the request."@,
        IcapErrorCode::NotImplemented => "The server does not support the functionality required to fulfill the request."@,
        IcapErrorCode::BadGateway => "The server, while acting as a gateway or proxy, received an invalid response from the upstream server it accessed in attempting to fulfill the request."@,
        IcapErrorCode::ServiceUnavailable => "The server is currently unable to handle the request due to a temporary overloading or maintenance of the server."@,
        IcapErrorCode::GatewayTimeout => "The server, while acting as a gateway or proxy, did not receive a timely response from the upstream server."@,
        IcapErrorCode::HttpVersionNotSupported => "The server does not support, or refuses to support, the HTTP protocol version that was used in the request message."@,
        IcapErrorCode::InvalidRequest => "The ICAP request is malformed or invalid."@,
        IcapErrorCode::InvalidResponse => "The ICAP response is malformed or invalid."@,
        IcapErrorCode::InvalidEncapsulated => "The encapsulated data in the ICAP request is malformed or invalid."@,
        IcapErrorCode::InvalidPreview => "The preview data in the ICAP request is malformed or invalid."@,
        IcapErrorCode::PreviewRequired => "The request requires preview mode processing."@,
        IcapErrorCode::Continue => "The server has received the request headers and the client should proceed to send the request body."@,
        IcapErrorCode::NoContent => "The server successfully processed the request and is not returning any content."@,
    }
}

/// The code that a number names: the standard HTTP codes and 100 and 204
/// name themselves; every other number means Internal Server Error.
pub open spec fn error_code_from(n: u16) -> IcapErrorCode {
    if n == 400 {
        IcapErrorCode::BadRequest
    } else if n == 401 {
        IcapErrorCode::Unauthorized
    } else if n == 402 {
        IcapErrorCode::PaymentRequired
    } else if n == 403 {
        IcapErrorCode::Forbidden
    } else if n == 404 {
        IcapErrorCode::NotFound
    } else if n == 405 {
        IcapErrorCode::MethodNotAllowed
    } else if n == 406 {
        IcapErrorCode::NotAcceptable
    } else if n == 407 {
        IcapErrorCode::ProxyAuthenticationRequired
    } else if n == 408 {
        IcapErrorCode::RequestTimeout
    } else if n == 409 {
        IcapErrorCode::Conflict
    } else if n == 410 {
        IcapErrorCode::Gone
    } else if n == 411 {
        IcapErrorCode::LengthRequired
    } else if n == 412 {
        IcapErrorCode::PreconditionFailed
    } else if n == 413 {
        IcapErrorCode::RequestEntityTooLarge
    } else if n == 414 {
        IcapErrorCode::RequestUriTooLarge
    } else if n == 415 {
        IcapErrorCode::UnsupportedMediaType
    } else if n == 416 {
        IcapErrorCode::RequestedRangeNotSatisfiable
    } else if n == 417 {
        IcapErrorCode::ExpectationFailed
    } else if n == 500 {
        IcapErrorCode::InternalServerError
    } else if n == 501 {
        IcapErrorCode::NotImplemented
    } else if n == 502 {
        IcapErrorCode::BadGateway
    } else if n == 503 {
        IcapErrorCode::ServiceUnavailable
    } else if n == 504 {
        IcapErrorCode::GatewayTimeout
    } else if n == 505 {
        IcapErrorCode::HttpVersionNotSupported
    } else if n == 100 {
        IcapErrorCode::Continue
    } else if n == 204 {
        IcapErrorCode::NoContent
    } else {
        IcapErrorCode::InternalServerError
    }
}

/// The numbers that name a code of their own.
pub open spec fn is_named_code(n: u16) -> bool {
    (400 <= n <= 417) || (500 <= n <= 505) || n == 100 || n == 204
}

impl IcapErrorCode {
    /// The HTTP status code that answers this error.
    pub fn status_code(&self) -> (r: u16)
        ensures
            r == error_status(*self),
    {
        match self {
            IcapErrorCode::BadRequest => 400,
            IcapErrorCode::Unauthorized => 401,
            IcapErrorCode::PaymentRequired => 402,
            IcapErrorCode::Forbidden => 403,
            IcapErrorCode::NotFound => 404,
            IcapErrorCode::MethodNotAllowed => 405,
            IcapErrorCode::NotAcceptable => 406,
            IcapErrorCode::ProxyAuthenticationRequired => 407,
            IcapErrorCode::RequestTimeout => 408,
            IcapErrorCode::Conflict => 409,
            IcapErrorCode::Gone => 410,
            IcapErrorCode::LengthRequired => 411,
            IcapErrorCode::PreconditionFailed => 412,
            IcapErrorCode::RequestEntityTooLarge => 413,
            IcapErrorCode::RequestUriTooLarge => 414,
            IcapErrorCode::UnsupportedMediaType => 415,
            IcapErrorCode::RequestedRangeNotSatisfiable => 416,
            IcapErrorCode::ExpectationFailed => 417,
            IcapErrorCode::InternalServerError => 500,
            IcapErrorCode::NotImplemented => 501,
            IcapErrorCode::BadGateway => 502,
            IcapErrorCode::ServiceUnavailable => 503,
            IcapErrorCode::GatewayTimeout => 504,
            IcapErrorCode::HttpVersionNotSupported => 505,
            IcapErrorCode::InvalidRequest => 400,
            IcapErrorCode::InvalidResponse => 400,
            IcapErrorCode::InvalidEncapsulated => 400,
            IcapErrorCode::InvalidPreview => 400,
            IcapErrorCode::PreviewRequired => 100,
            IcapErrorCode::Continue => 100,
            IcapErrorCode::NoContent => 204,
        }
    }

    /// The number of this code (as `code as u16` gives it).
    pub fn code(&self) -> (r: u16)
        ensures
            r == error_code_number(*self),
    {
        match self {
            IcapErrorCode::BadRequest => 400,
            IcapErrorCode::Unauthorized => 401,
            IcapErrorCode::PaymentRequired => 402,
            IcapErrorCode::Forbidden => 403,
            IcapErrorCode::NotFound => 404,
            IcapErrorCode::MethodNotAllowed => 405,
            IcapErrorCode::NotAcceptable => 406,
            IcapErrorCode::ProxyAuthenticationRequired => 407,
            IcapErrorCode::RequestTimeout => 408,
            IcapErrorCode::Conflict => 409,
            IcapErrorCode::Gone => 410,
            IcapErrorCode::LengthRequired => 411,
            IcapErrorCode::PreconditionFailed => 412,
            IcapErrorCode::RequestEntityTooLarge => 413,
            IcapErrorCode::RequestUriTooLarge => 414,
            IcapErrorCode::UnsupportedMediaType => 415,
            IcapErrorCode::RequestedRangeNotSatisfiable => 416,
            IcapErrorCode::ExpectationFailed => 417,
            IcapErrorCode::InternalServerError => 500,
            IcapErrorCode::NotImplemented => 501,
            IcapErrorCode::BadGateway => 502,
            IcapErrorCode::ServiceUnavailable => 503,
            IcapErrorCode::GatewayTimeout => 504,
            IcapErrorCode::HttpVersionNotSupported => 505,
            IcapErrorCode::InvalidRequest => 506,
            IcapErrorCode::InvalidResponse => 507,
            IcapErrorCode::InvalidEncapsulated => 508,
            IcapErrorCode::InvalidPreview => 509,
            IcapErrorCode::PreviewRequired => 510,
            IcapErrorCode::Continue => 511,
            IcapErrorCode::NoContent => 512,
        }
    }

    /// The short message of this code.
    pub fn message(&self) -> (r: &'static str)
        ensures
            r@ == error_message(*self),
    {
        match self {
            IcapErrorCode::BadRequest => "Bad Request",
            IcapErrorCode::Unauthorized => "Unauthorized",
            IcapErrorCode::PaymentRequired => "Payment Required",
            IcapErrorCode::Forbidden => "Forbidden",
            IcapErrorCode::NotFound => "Not Found",
            IcapErrorCode::MethodNotAllowed => "Method Not Allowed",
            IcapErrorCode::NotAcceptable => "Not Acceptable",
            IcapErrorCode::ProxyAuthenticationRequired => "Proxy Authentication Required",
            IcapErrorCode::RequestTimeout => "Request Timeout",
            IcapErrorCode::Conflict => "Conflict",
            IcapErrorCode::Gone => "Gone",
            IcapErrorCode::LengthRequired => "Length Required",
            IcapErrorCode::PreconditionFailed => "Precondition Failed",
            IcapErrorCode::RequestEntityTooLarge => "Request Entity Too Large",
            IcapErrorCode::RequestUriTooLarge => "Request URI Too Large",
            IcapErrorCode::UnsupportedMediaType => "Unsupported Media Type",
            IcapErrorCode::RequestedRangeNotSatisfiable => "Requested Range Not Satisfiable",
            IcapErrorCode::ExpectationFailed => "Expectation Failed",
            IcapErrorCode::InternalServerError => "Internal Server Error",
            IcapErrorCode::NotImplemented => "Not Implemented",
            IcapErrorCode::BadGateway => "Bad Gateway",
            IcapErrorCode::ServiceUnavailable => "Service Unavailable",
            IcapErrorCode::GatewayTimeout => "Gateway Timeout",
            IcapErrorCode::HttpVersionNotSupported => "HTTP Version Not Supported",
            IcapErrorCode::InvalidRequest => "Invalid ICAP Request",
            IcapErrorCode::InvalidResponse => "Invalid ICAP Response",
            IcapErrorCode::InvalidEncapsulated => "Invalid Encapsulated Data",
            IcapErrorCode::InvalidPreview => "Invalid Preview",
            IcapErrorCode::PreviewRequired => "Preview Required",
            IcapErrorCode::Continue => "Continue",
            IcapErrorCode::NoContent => "No Content",
        }
    }

    /// The long description of this code.
    pub fn description(&self) -> (r: &'static str)
        ensures
            r@ == error_description(*self),
    {
        match self {
            IcapErrorCode::BadRequest => "The request could not be understood by the server due to malformed syntax.",
            IcapErrorCode::Unauthorized => "The request requires user authentication.",
            IcapErrorCode::PaymentRequired => "The request requires payment.",
            IcapErrorCode::Forbidden => "The server understood the request, but is refusing to fulfill it.",
            IcapErrorCode::NotFound => "The server has not found anything matching the Request-URI.",
            IcapErrorCode::MethodNotAllowed => "The method specified in the Request-Line is not allowed for the resource identified by the Request-URI.",
            IcapErrorCode::NotAcceptable => "The resource identified by the request is only capable of generating response entities which have content characteristics not acceptable according to the accept headers sent in the request.",
            IcapErrorCode::ProxyAuthenticationRequired => "The client must first authenticate itself with the proxy.",
            IcapErrorCode::RequestTimeout => "The client did not produce a request within the time that the server was prepared to wait.",
            IcapErrorCode::Conflict => "The request could not be completed due to a conflict with the current state of the resource.",
            IcapErrorCode::Gone => "The requested resource is no longer available at the server and no forwarding address is known.",
            IcapErrorCode::LengthRequired => "The server refuses to accept the request without a defined Content-Length.",
            IcapErrorCode::PreconditionFailed => "The precondition given in one or more of the request-header fields evaluated to false when it was tested on the server.",
            IcapErrorCode::RequestEntityTooLarge => "The server is refusing to process a request because the request entity is larger than the server is willing or able to process.",
            IcapErrorCode::RequestUriTooLarge => "The server is refusing to service the request because the Request-URI is longer than the server is willing to interpret.",
            IcapErrorCode::UnsupportedMediaType => "The server is refusing to service the request because the entity of the request is in a format not supported by the requested resource for the requested method.",
            IcapErrorCode::RequestedRangeNotSatisfiable => "The server cannot fulfill the request because the requested range is not satisfiable.",
            IcapErrorCode::ExpectationFailed => "The expectation given in an Expect request-header field could not be met by this server.",
            IcapErrorCode::InternalServerError => "The server encountered an unexpected condition which prevented it from fulfilling the request.",
            IcapErrorCode::NotImplemented => "The server does not support the functionality required to fulfill the request.",
            IcapErrorCode::BadGateway => "The server, while acting as a gateway or proxy, received an invalid response from the upstream server it accessed in attempting to fulfill the request.",
            IcapErrorCode::ServiceUnavailable => "The server is currently unable to handle the request due to a temporary overloading or maintenance of the server.",
            IcapErrorCode::GatewayTimeout => "The server, while acting as a gateway or proxy, did not receive a timely response from the upstream server.",
            IcapErrorCode::HttpVersionNotSupported => "The server does not support, or refuses to support, the HTTP protocol version that was used in the request message.",
            IcapErrorCode::InvalidRequest => "The ICAP request is malformed or invalid.",
            IcapErrorCode::InvalidResponse => "The ICAP response is malformed or invalid.",
            IcapErrorCode::InvalidEncapsulated => "The encapsulated data in the ICAP request is malformed or invalid.",
            IcapErrorCode::InvalidPreview => "The preview data in the ICAP request is malformed or invalid.",
            IcapErrorCode::PreviewRequired => "The request requires preview mode processing.",
            IcapErrorCode::Continue => "The server has received the request headers and the client should proceed to send the request body.",
            IcapErrorCode::NoContent => "The server successfully processed the request and is not returning any content.",
        }
    }

    /// True for the 4xx codes.
    pub fn is_client_error(&self) -> (r: bool)
        ensures
            r == (400 <= error_status(*self) < 500),
    {
        match self {
            IcapErrorCode::BadRequest
            | IcapErrorCode::Unauthorized
            | IcapErrorCode::PaymentRequired
            | IcapErrorCode::Forbidden
            | IcapErrorCode::NotFound
            | IcapErrorCode::MethodNotAllowed
            | IcapErrorCode::NotAcceptable
            | IcapErrorCode::ProxyAuthenticationRequired
            | IcapErrorCode::RequestTimeout
            | IcapErrorCode::Conflict
            | IcapErrorCode::Gone
            | IcapErrorCode::LengthRequired
            | IcapErrorCode::PreconditionFailed
            | IcapErrorCode::RequestEntityTooLarge
            | IcapErrorCode::RequestUriTooLarge
            | IcapErrorCode::UnsupportedMediaType
            | IcapErrorCode::RequestedRangeNotSatisfiable
            | IcapErrorCode::ExpectationFailed
            | IcapErrorCode::InvalidRequest
            | IcapErrorCode::InvalidResponse
            | IcapErrorCode::InvalidEncapsulated
            | IcapErrorCode::InvalidPreview => true,
            _ => false,
        }
    }

    /// True for the 5xx codes.
    pub fn is_server_error(&self) -> (r: bool)
        ensures
            r == (500 <= error_status(*self) < 600),
    {
        match self {
            IcapErrorCode::InternalServerError
            | IcapErrorCode::NotImplemented
            | IcapErrorCode::BadGateway
            | IcapErrorCode::ServiceUnavailable
            | IcapErrorCode::GatewayTimeout
            | IcapErrorCode::HttpVersionNotSupported => true,
            _ => false,
        }
    }

    /// True for the 1xx codes.
    pub fn is_informational(&self) -> (r: bool)
        ensures
            r == (100 <= error_status(*self) < 200),
    {
        match self {
            IcapErrorCode::PreviewRequired
            | IcapErrorCode::Continue => true,
            _ => false,
        }
    }

    /// True for the 2xx codes.
    pub fn is_success(&self) -> (r: bool)
        ensures
            r == (200 <= error_status(*self) < 300),
    {
        match self {
            IcapErrorCode::NoContent => true,
            _ => false,
        }
    }

    /// The code as text: its number and its message, as in `400 Bad Request`.
    pub fn to_string(&self) -> (r: String)
        ensures
            r@ == dec_chars(error_code_number(*self) as nat) + " "@ + error_message(*self),
    {
        let mut s = decimal_string(self.code() as u64);
        s.append(" ");
        s.append(self.message());
        s
    }
}

impl From<u16> for IcapErrorCode {
    fn from(n: u16) -> (r: IcapErrorCode) {
        if n == 400 {
            IcapErrorCode::BadRequest
        } else if n == 401 {
            IcapErrorCode::Unauthorized
        } else if n == 402 {
            IcapErrorCode::PaymentRequired
        } else if n == 403 {
            IcapErrorCode::Forbidden
        } else if n == 404 {
            IcapErrorCode::NotFound
        } else if n == 405 {
            IcapErrorCode::MethodNotAllowed
        } else if n == 406 {
            IcapErrorCode::NotAcceptable
        } else if n == 407 {
            IcapErrorCode::ProxyAuthenticationRequired
        } else if n == 408 {
            IcapErrorCode::RequestTimeout
        } else if n == 409 {
            IcapErrorCode::Conflict
        } else if n == 410 {
            IcapErrorCode::Gone
        } else if n == 411 {
            IcapErrorCode::LengthRequired
        } else if n == 412 {
            IcapErrorCode::PreconditionFailed
        } else if n == 413 {
            IcapErrorCode::RequestEntityTooLarge
        } else if n == 414 {
            IcapErrorCode::RequestUriTooLarge
        } else if n == 415 {
            IcapErrorCode::UnsupportedMediaType
        } else if n == 416 {
            IcapErrorCode::RequestedRangeNotSatisfiable
        } else if n == 417 {
            IcapErrorCode::ExpectationFailed
        } else if n == 500 {
            IcapErrorCode::InternalServerError
        } else if n == 501 {
            IcapErrorCode::NotImplemented
        } else if n == 502 {
            IcapErrorCode::BadGateway
        } else if n == 503 {
            IcapErrorCode::ServiceUnavailable
        } else if n == 504 {
            IcapErrorCode::GatewayTimeout
        } else if n == 505 {
            IcapErrorCode::HttpVersionNotSupported
        } else if n == 100 {
            IcapErrorCode::Continue
        } else if n == 204 {
            IcapErrorCode::NoContent
        } else {
            IcapErrorCode::InternalServerError
        }
    }
}

impl vstd::std_specs::convert::FromSpecImpl<u16> for IcapErrorCode {
    open spec fn obeys_from_spec() -> bool {
        true
    }

    open spec fn from_spec(n: u16) -> IcapErrorCode {
        error_code_from(n)
    }
}

/// Every code falls in exactly one class of its status, and is answered with
/// a status of that class.
pub proof fn lemma_code_classes(c: IcapErrorCode)
    ensures
        100 <= error_status(c) < 300 || 400 <= error_status(c) < 600,
        error_status(c) < 200 ==> (c == IcapErrorCode::PreviewRequired || c == IcapErrorCode::Continue),
{
}

/// A number that names a code gives a code answered with that status (and,
/// for the 4xx and 5xx numbers, whose own number it is); any other number
/// gives Internal Server Error.
pub proof fn lemma_code_from_number(n: u16)
    ensures
        is_named_code(n) ==> error_status(error_code_from(n)) == n,
        is_named_code(n) && n >= 400 ==> error_code_number(error_code_from(n)) == n,
        !is_named_code(n) ==> error_code_from(n) == IcapErrorCode::InternalServerError,
{
}

/// Reading back the status of a code gives the code, for every code that is
/// not one of the ICAP-specific extensions answered with a shared status.
pub proof fn lemma_code_status_roundtrip(c: IcapErrorCode)
    ensures
        error_code_number(c) <= 505 || c == IcapErrorCode::Continue || c == IcapErrorCode::NoContent
            ==> error_code_from(error_status(c)) == c,
{
}
/// Builds an `IcapErrorResponse` step by step.
pub struct IcapErrorResponseBuilder {
    error_code: IcapErrorCode,
    message: Option<String>,
    details: Option<String>,
}

impl IcapErrorResponseBuilder {
    /// A builder for `error_code`, with no message and no details yet.
    pub fn new(error_code: IcapErrorCode) -> (r: Self)
        ensures
            r.error_code() == error_code,
            r.message_set() is None,
            r.details_set() is None,
    {
        IcapErrorResponseBuilder { error_code, message: None, details: None }
    }

    pub closed spec fn error_code(&self) -> IcapErrorCode {
        self.error_code
    }

    pub closed spec fn message_set(&self) -> Option<Seq<char>> {
        match self.message {
            Some(m) => Some(m@),
            None => None,
        }
    }

    pub closed spec fn details_set(&self) -> Option<Seq<char>> {
        match self.details {
            Some(d) => Some(d@),
            None => None,
        }
    }

    /// Sets the message.
    pub fn message(self, message: String) -> (r: Self)
        ensures
            r.error_code() == self.error_code(),
            r.message_set() == Some(message@),
            r.details_set() == self.details_set(),
    {
        IcapErrorResponseBuilder { error_code: self.error_code, message: Some(message), details: self.details }
    }

    /// Sets the details.
    pub fn details(self, details: String) -> (r: Self)
        ensures
            r.error_code() == self.error_code(),
            r.message_set() == self.message_set(),
            r.details_set() == Some(details@),
    {
        IcapErrorResponseBuilder { error_code: self.error_code, message: self.message, details: Some(details) }
    }

    /// The response: the message set, or else the code's own message.
    pub fn build(self) -> (r: IcapErrorResponse)
        ensures
            r.error_code == self.error_code(),
            r.message@ == match self.message_set() {
                Some(m) => m,
                None => error_message(self.error_code()),
            },
            option_view(r.details) == self.details_set(),
    {
        let message = match self.message {
            Some(m) => m,
            None => String::from_str(self.error_code.message()),
        };
        IcapErrorResponse { error_code: self.error_code, message, details: self.details }
    }
}

/// The text of an optional string.
pub open spec fn option_view(o: Option<String>) -> Option<Seq<char>> {
    match o {
        Some(s) => Some(s@),
        None => None,
    }
}

/// An ICAP error: its code, a message and optional details.
#[derive(Clone, Debug)]
pub struct IcapErrorResponse {
    pub error_code: IcapErrorCode,
    pub message: String,
    pub details: Option<String>,
}

impl IcapErrorResponse {
    /// The error `error_code` with the code's own message and no details.
    pub fn new(error_code: IcapErrorCode) -> (r: Self)
        ensures
            r.error_code == error_code,
            r.message@ == error_message(error_code),
            r.details is None,
    {
        IcapErrorResponse { error_code, message: String::from_str(error_code.message()), details: None }
    }

    /// The error `error_code` with `message` and no details.
    pub fn with_message(error_code: IcapErrorCode, message: String) -> (r: Self)
        ensures
            r.error_code == error_code,
            r.message == message,
            r.details is None,
    {
        IcapErrorResponse { error_code, message, details: None }
    }

    /// The error `error_code` with `message` and `details`.
    pub fn with_details(error_code: IcapErrorCode, message: String, details: String) -> (r: Self)
        ensures
            r.error_code == error_code,
            r.message == message,
            r.details == Some(details),
    {
        IcapErrorResponse { error_code, message, details: Some(details) }
    }

    /// The HTTP status that answers this error.
    pub fn status_code(&self) -> (r: u16)
        ensures
            r == error_status(self.error_code),
    {
        self.error_code.status_code()
    }

    pub fn message(&self) -> (r: &str)
        ensures
            r@ == self.message@,
    {
        self.message.as_str()
    }

    pub fn details(&self) -> (r: Option<&str>)
        ensures
            match self.details {
                Some(d) => r matches Some(s) && s@ == d@,
                None => r is None,
            },
    {
        match &self.details {
            Some(d) => Some(d.as_str()),
            None => None,
        }
    }

    pub fn is_client_error(&self) -> (r: bool)
        ensures
            r == (400 <= error_status(self.error_code) < 500),
    {
        self.error_code.is_client_error()
    }

    pub fn is_server_error(&self) -> (r: bool)
        ensures
            r == (500 <= error_status(self.error_code) < 600),
    {
        self.error_code.is_server_error()
    }

    pub fn is_informational(&self) -> (r: bool)
        ensures
            r == (100 <= error_status(self.error_code) < 200),
    {
        self.error_code.is_informational()
    }

    pub fn is_success(&self) -> (r: bool)
        ensures
            r == (200 <= error_status(self.error_code) < 300),
    {
        self.error_code.is_success()
    }

    /// The error as text: the code as text, then `: ` and the details, if any.
    pub fn to_string(&self) -> (r: String)
        ensures
            r@ == dec_chars(error_code_number(self.error_code) as nat) + " "@ + error_message(
                self.error_code,
            ) + match self.details {
                Some(d) => ": "@ + d@,
                None => Seq::<char>::empty(),
            },
    {
        let mut s = self.error_code.to_string();
        match &self.details {
            Some(d) => {
                s.append(": ");
                s.append(d.as_str());
                proof {
                    assert(s@ =~= dec_chars(error_code_number(self.error_code) as nat) + " "@
                        + error_message(self.error_code) + (": "@ + d@));
                }
            },
            None => {
                proof {
                    assert(s@ =~= s@ + Seq::<char>::empty());
                }
            },
        }
        s
    }
}

} // verus!
