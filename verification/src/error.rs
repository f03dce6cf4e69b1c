//! The library's error type.

use vstd::prelude::*;

verus! {

/// Errors of the ICAP library, each with a message.
#[derive(Clone, Debug)]
pub enum IcapError {
    Config(String),
    Protocol(String),
    Network(String),
    Service(String),
    Io(String),
    Http(String),
    Url(String),
    Json(String),
    Yaml(String),
    Anyhow(String),
}

impl IcapError {
    /// A protocol error found by `context` (such as `PARSER`): the message
    /// reads `context: message`.
    pub fn protocol_error(message: &str, context: &str) -> (r: IcapError)
        ensures
            r matches IcapError::Protocol(m) && m@ == context@ + ": "@ + message@,
    {
        let mut m = String::from_str(context);
        m.append(": ");
        m.append(message);
        IcapError::Protocol(m)
    }

    /// A protocol error with `message`.
    pub fn protocol_simple(message: String) -> (r: IcapError)
        ensures
            r == IcapError::Protocol(message),
    {
        IcapError::Protocol(message)
    }

    /// A content filter that failed: a service error with `message`.
    pub fn content_filter_error(message: &str) -> (r: IcapError)
        ensures
            r matches IcapError::Service(m) && m@ == message@,
    {
        IcapError::Service(String::from_str(message))
    }

    /// A resource that ran out: a service error with `message`.
    pub fn resource_exhausted_simple(message: &str) -> (r: IcapError)
        ensures
            r matches IcapError::Service(m) && m@ == message@,
    {
        IcapError::Service(String::from_str(message))
    }

    /// A network error with `message`.
    pub fn network_simple(message: String) -> (r: IcapError)
        ensures
            r == IcapError::Network(message),
    {
        IcapError::Network(message)
    }
}

} // verus!
