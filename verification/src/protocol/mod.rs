//! The ICAP protocol: REQMOD, RESPMOD and OPTIONS messages, their parsing and
//! serialization, chunked transfer coding, preview, streaming, workflows,
//! error codes and response generation.

pub mod chunked;
pub mod fields;
pub mod ip;
pub mod ip_roundtrip;
pub mod headers;
pub mod errors;
pub mod common;
pub mod parser;
pub mod response_generator;
pub mod error;
pub mod preview;
pub mod streaming;
pub mod options;
pub mod reqmod;
pub mod respmod;
pub mod workflows;
pub mod roundtrip;

pub use chunked::{ChunkedParser, ChunkedParseError, ChunkState, encode_chunked};
pub use common::{
    IcapMethod, HttpVersion, EncapsulatedData, IcapRequest, IcapResponse, IcapService, IcapParser, IcapSerializer,
};
pub use error::{ErrorResponseBuilder, IcapStatusCodes, error_to_response};
pub use errors::{IcapErrorCode, IcapErrorResponse, IcapErrorResponseBuilder};
pub use fields::HeaderMap;
pub use headers::{IcapHeaders, IcapHeaderError};
pub use ip::IpAddr;
pub use options::{OptionsHandler, DefaultOptionsHandler, OptionsService};
pub use parser::{parse_icap_request, parse_icap_response, parse_encapsulated_header};
pub use preview::{PreviewHandler, PreviewResponse};
pub use reqmod::{ReqmodHandler, DefaultReqmodHandler, ReqmodService};
pub use respmod::{RespmodHandler, DefaultRespmodHandler, RespmodService};
pub use response_generator::IcapResponseGenerator;
pub use streaming::{
    StreamingProcessor, ContentFilter, PassThroughFilter, KeywordFilter, StreamingRequestProcessor,
    StreamingResponseProcessor, StreamingConnectionHandler,
};
pub use workflows::{ReqmodWorkflow, RespmodWorkflow, HttpRequest, HttpResponse};
