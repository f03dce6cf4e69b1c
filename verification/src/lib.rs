//! ICAP (RFC 3507) protocol library: message model, parsing, serialization,
//! chunked transfer coding, response generation and content-filtering rules.

pub mod text;
pub mod keyed;
pub(crate) mod bridge;
pub mod protocol;
pub mod error;
pub mod server;
pub mod service;
pub mod services;
pub mod stats;

use vstd::prelude::*;

verus! {
} // verus!
