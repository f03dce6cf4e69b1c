//! The address an ICAP server listens on.

use vstd::prelude::*;
use std::sync::Arc;
use crate::error::IcapError;
use crate::protocol::ip::{IpAddr, ip_parse, parse_ip};
use crate::stats::IcapStats;
use crate::text::str_chars;
use crate::bridge::chars_string;

verus! {

/// The message of the error for a host that is no IP address.
pub open spec fn invalid_address_message() -> Seq<char> {
    "Invalid address: invalid socket address syntax"@
}

/// The address a listener host names: an IP address as it stands, or an
/// IPv6 address in square brackets.
pub open spec fn listener_host(h: Seq<char>) -> Option<IpAddr> {
    match ip_parse(h) {
        Some(a) => Some(a),
        None => if h.len() >= 2 && h[0] == '[' && h[h.len() - 1] == ']' {
            match ip_parse(h.subrange(1, h.len() - 1)) {
                Some(IpAddr::V6(a, b, c, d, e, f, g, k)) => Some(IpAddr::V6(a, b, c, d, e, f, g, k)),
                _ => None,
            }
        } else {
            None
        },
    }
}

/// A listener: the IP address and port it binds to, and the counters that
/// its connections report to.
pub struct IcapListener {
    ip: IpAddr,
    port: u16,
    stats: Arc<IcapStats>,
}

impl IcapListener {
    /// The address bound to.
    pub closed spec fn bind_ip(&self) -> IpAddr {
        self.ip
    }

    /// The port bound to.
    pub closed spec fn bind_port(&self) -> u16 {
        self.port
    }

    /// The counters handed to the listener.
    pub closed spec fn stats_handle(&self) -> Arc<IcapStats> {
        self.stats
    }

    /// A listener on `host` and `port`. The host is an IP address, dotted
    /// IPv4 or IPv6, or an IPv6 address in square brackets; anything else is
    /// a network error. The port is taken as it is, 0 too: binding is what
    /// checks it.
    pub fn new(host: String, port: u16, stats: Arc<IcapStats>) -> (r: Result<IcapListener, IcapError>)
        ensures
            r is Ok <==> listener_host(host@) is Some,
            r matches Ok(l) ==> Some(l.bind_ip()) == listener_host(host@) && l.bind_port() == port
                && l.stats_handle() == stats,
            r matches Err(e) ==> (e matches IcapError::Network(m) && m@ == invalid_address_message()),
    {
        let mut found = parse_ip(host.as_str());
        if found.is_none() {
            let cs = str_chars(host.as_str());
            let n = cs.len();
            if n >= 2 && cs[0] == '[' && cs[n - 1] == ']' {
                let inner = chars_string(&cs.as_slice()[1..n - 1]);
                proof {
                    assert(inner@ == host@.subrange(1, host@.len() - 1));
                }
                match parse_ip(inner.as_str()) {
                    Some(IpAddr::V6(a, b, c, d, e, f, g, k)) => {
                        found = Some(IpAddr::V6(a, b, c, d, e, f, g, k));
                    },
                    _ => {},
                }
            }
        }
        match found {
            Some(ip) => Ok(IcapListener { ip, port, stats }),
            None => {
                let m = String::from_str("Invalid address: invalid socket address syntax");
                proof {
                    reveal_strlit("Invalid address: invalid socket address syntax");
                }
                Err(IcapError::network_simple(m))
            },
        }
    }

    /// The address bound to.
    pub fn ip(&self) -> (r: IpAddr)
        ensures
            r == self.bind_ip(),
    {
        self.ip
    }

    /// The port bound to.
    pub fn port(&self) -> (r: u16)
        ensures
            r == self.bind_port(),
    {
        self.port
    }

    /// The counters handed to the listener.
    pub fn stats(&self) -> (r: Arc<IcapStats>)
        ensures
            r == self.stats_handle(),
    {
        self.stats.clone()
    }
}

} // verus!
