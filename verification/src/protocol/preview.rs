//! ICAP preview (RFC 3507 §4.5): whether a request asks for one, and the
//! responses that go with it.

use vstd::prelude::*;
use crate::error::IcapError;
use crate::protocol::common::{IcapRequest, IcapResponse, HttpVersion, EncapsulatedData, is_visible_text, is_visible_exec};
use crate::protocol::fields::{HeaderMap, FieldView, set_field};
use crate::protocol::headers::{field_of, parse_dec_usize, parse_usize_text};
use crate::text::{IntErrorKind, int_error_message, int_error_text, dec_chars, decimal_string};

verus! {

/// What a preview handler decides for a request.
#[derive(Clone, Copy, Debug, PartialEq, Eq, Structural)]
pub enum PreviewResponse {
    /// No preview requested
    NoPreview,
    /// Process content immediately (small enough)
    ProcessImmediately,
    /// Use preview mode
    UsePreview {
        /// Size of preview to request
        preview_size: usize,
        /// Total content size
        content_size: usize,
    },
}

/// The message of a header value that is not visible text.
pub open spec fn to_str_error() -> Seq<char> {
    "failed to convert header to a str"@
}

/// A size field read as `usize`: missing gives `None`; a value that is not
/// visible text, or does not read as a number, gives the message of the
/// error, after `header_msg` or `number_msg`.
pub open spec fn size_field(
    fields: Seq<FieldView>,
    name: Seq<char>,
    header_msg: Seq<char>,
    number_msg: Seq<char>,
) -> Option<Result<int, Seq<char>>> {
    match field_of(fields, name) {
        None => None,
        Some(v) => if !is_visible_text(v) {
            Some(Err(header_msg + to_str_error()))
        } else {
            match parse_dec_usize(v) {
                Ok(n) => Some(Ok(n)),
                Err(k) => Some(Err(number_msg + int_error_message(k))),
            }
        },
    }
}

/// The preview size that a request asks for: its Preview field, 0 without one.
pub open spec fn preview_size_of(fields: Seq<FieldView>) -> Result<int, Seq<char>> {
    match size_field(fields, "preview"@, "Invalid preview header: "@, "Invalid preview size: "@) {
        None => Ok(0),
        Some(r) => r,
    }
}

/// The total length of the bodies that the encapsulated data holds.
pub open spec fn body_total(e: EncapsulatedData) -> int {
    (match e.req_body {
        Some(b) => b@.len() as int,
        None => 0,
    }) + (match e.res_body {
        Some(b) => b@.len() as int,
        None => 0,
    })
}

/// The content size of a request: its Content-Length field, else the length
/// of its encapsulated bodies, else 0.
pub open spec fn content_size_of(r: IcapRequest) -> Result<int, Seq<char>> {
    match size_field(r.headers@, "content-length"@, "Invalid content-length header: "@, "Invalid content length: "@) {
        Some(x) => x,
        None => match r.encapsulated {
            Some(e) => Ok(body_total(e)),
            None => Ok(0),
        },
    }
}

/// The decision for a request: no preview when it asks for none, at once
/// when its content fits in the preview, else a preview of that size.
pub open spec fn preview_decision(r: IcapRequest) -> Result<PreviewResponse, Seq<char>> {
    match preview_size_of(r.headers@) {
        Err(m) => Err(m),
        Ok(p) => if p == 0 {
            Ok(PreviewResponse::NoPreview)
        } else {
            match content_size_of(r) {
                Err(m) => Err(m),
                Ok(c) => if c <= p {
                    Ok(PreviewResponse::ProcessImmediately)
                } else {
                    Ok(PreviewResponse::UsePreview { preview_size: p as usize, content_size: c as usize })
                },
            }
        },
    }
}

/// The sum of the encapsulated body lengths fits in a `usize`.
pub open spec fn bodies_fit(r: IcapRequest) -> bool {
    match r.encapsulated {
        Some(e) => body_total(e) <= usize::MAX,
        None => true,
    }
}

/// The error that carries a protocol message.
pub open spec fn protocol_message(e: IcapError) -> Option<Seq<char>> {
    match e {
        IcapError::Protocol(m) => Some(m@),
        _ => None,
    }
}

/// Decides on preview mode for requests, with a largest preview size.
#[derive(Debug)]
pub struct PreviewHandler {
    max_preview_size: usize,
}

fn size_field_exec(
    headers: &HeaderMap,
    name: &str,
    header_msg: &str,
    number_msg: &str,
) -> (r: Option<Result<usize, IcapError>>)
    ensures
        match size_field(headers@, name@, header_msg@, number_msg@) {
            None => r is None,
            Some(Ok(n)) => r == Some(Ok::<usize, IcapError>(n as usize)) && 0 <= n <= usize::MAX,
            Some(Err(m)) => r matches Some(Err(e)) && protocol_message(e) == Some(m),
        },
{
    match headers.get(name) {
        None => None,
        Some(v) => if !is_visible_exec(v.as_str()) {
            let mut m = String::from_str(header_msg);
            m.append("failed to convert header to a str");
            Some(Err(IcapError::protocol_simple(m)))
        } else {
            match parse_usize_text(v.as_str()) {
                Ok(n) => Some(Ok(n)),
                Err(k) => {
                    let mut m = String::from_str(number_msg);
                    let t = int_error_text(k);
                    m.append(t.as_str());
                    Some(Err(IcapError::protocol_simple(m)))
                },
            }
        },
    }
}

impl PreviewHandler {
    /// A handler whose previews are at most `max_preview_size` bytes.
    pub fn new(max_preview_size: usize) -> (r: Self)
        ensures
            r.max_preview_size() == max_preview_size,
    {
        PreviewHandler { max_preview_size }
    }

    /// The largest preview size.
    pub closed spec fn max_preview_size(&self) -> usize {
        self.max_preview_size
    }

    /// Decides on preview mode for `request`; a Preview or Content-Length
    /// field that does not read as a number is a protocol error.
    pub fn handle_preview(&self, request: &IcapRequest) -> (r: Result<PreviewResponse, IcapError>)
        requires
            bodies_fit(*request),
        ensures
            match preview_decision(*request) {
                Ok(d) => r == Ok::<PreviewResponse, IcapError>(d),
                Err(m) => r matches Err(e) && protocol_message(e) == Some(m),
            },
    {
        let preview_size = match self.get_preview_size(request) {
            Ok(p) => p,
            Err(e) => return Err(e),
        };
        if preview_size == 0 {
            return Ok(PreviewResponse::NoPreview);
        }
        let content_size = match self.get_content_size(request) {
            Ok(c) => c,
            Err(e) => return Err(e),
        };
        if content_size <= preview_size {
            Ok(PreviewResponse::ProcessImmediately)
        } else {
            Ok(PreviewResponse::UsePreview { preview_size, content_size })
        }
    }

    fn get_preview_size(&self, request: &IcapRequest) -> (r: Result<usize, IcapError>)
        ensures
            match preview_size_of(request.headers@) {
                Ok(n) => r == Ok::<usize, IcapError>(n as usize) && 0 <= n <= usize::MAX,
                Err(m) => r matches Err(e) && protocol_message(e) == Some(m),
            },
    {
        match size_field_exec(&request.headers, "preview", "Invalid preview header: ", "Invalid preview size: ") {
            None => Ok(0),
            Some(r) => r,
        }
    }

    fn get_content_size(&self, request: &IcapRequest) -> (r: Result<usize, IcapError>)
        requires
            bodies_fit(*request),
        ensures
            match content_size_of(*request) {
                Ok(n) => r == Ok::<usize, IcapError>(n as usize) && 0 <= n <= usize::MAX,
                Err(m) => r matches Err(e) && protocol_message(e) == Some(m),
            },
    {
        match size_field_exec(
            &request.headers,
            "content-length",
            "Invalid content-length header: ",
            "Invalid content length: ",
        ) {
            Some(r) => r,
            None => match &request.encapsulated {
                Some(e) => {
                    let mut total: usize = 0;
                    if let Some(b) = &e.req_body {
                        total = b.len();
                    }
                    if let Some(b) = &e.res_body {
                        total = total + b.len();
                    }
                    Ok(total)
                },
                None => Ok(0),
            },
        }
    }

    /// The 100 Continue that asks for a preview of `preview_size` bytes.
    pub fn create_preview_response(&self, preview_size: usize) -> (r: IcapResponse)
        ensures
            r.status == 100,
            r.version == HttpVersion::Http11,
            r.headers@ == set_field(
                set_field(
                    set_field(Seq::empty(), "ISTag"@, "\"g3icap-preview\""@),
                    "Preview"@,
                    dec_chars(preview_size as nat),
                ),
                "Connection"@,
                "close"@,
            ),
            r.body@.len() == 0,
            r.encapsulated is None,
    {
        let mut headers = HeaderMap::new();
        headers.insert("ISTag", "\"g3icap-preview\"");
        let n = decimal_string(preview_size as u64);
        headers.insert("Preview", n.as_str());
        headers.insert("Connection", "close");
        IcapResponse {
            status: 100,
            version: HttpVersion::Http11,
            headers,
            body: Vec::new(),
            encapsulated: None,
        }
    }

    /// The response after a preview: `status`, with `body` or none.
    pub fn create_final_response(&self, status: u16, body: Option<Vec<u8>>) -> (r: IcapResponse)
        ensures
            r.status == status,
            r.version == HttpVersion::Http11,
            r.headers@ == set_field(Seq::empty(), "ISTag"@, "\"g3icap-final\""@),
            r.body@ == match body {
                Some(b) => b@,
                None => Seq::<u8>::empty(),
            },
            r.encapsulated is None,
    {
        let mut headers = HeaderMap::new();
        headers.insert("ISTag", "\"g3icap-final\"");
        let body = match body {
            Some(b) => b,
            None => Vec::new(),
        };
        IcapResponse { status, version: HttpVersion::Http11, headers, body, encapsulated: None }
    }
}

} // verus!
