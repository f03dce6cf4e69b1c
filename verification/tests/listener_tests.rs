use g3icap::protocol::IpAddr;
use g3icap::server::listener::IcapListener;
use g3icap::stats::IcapStats;
use g3icap::error::IcapError;
use std::sync::Arc;
use std::time::Instant;

#[test]
fn test_listener_creation() {
    let stats = Arc::new(IcapStats::new());
    let listener = IcapListener::new("127.0.0.1".to_string(), 1344, stats);
    assert!(listener.is_ok());
}

#[test]
fn test_listener_invalid_address() {
    let stats = Arc::new(IcapStats::new());
    let listener = IcapListener::new("invalid-address".to_string(), 1344, stats);
    assert!(listener.is_err());
}

#[test]
fn test_listener_invalid_port() {
    let stats = Arc::new(IcapStats::new());
    // The port is checked when binding, not here.
    let listener = IcapListener::new("127.0.0.1".to_string(), 0, stats);
    assert!(listener.is_ok());
}

#[test]
fn test_listener_different_hosts() {
    let stats = Arc::new(IcapStats::new());
    let listener1 = IcapListener::new("127.0.0.1".to_string(), 1344, Arc::clone(&stats));
    assert!(listener1.is_ok());
    let listener2 = IcapListener::new("0.0.0.0".to_string(), 1345, Arc::clone(&stats));
    assert!(listener2.is_ok());
    let listener3 = IcapListener::new("::1".to_string(), 1346, Arc::clone(&stats));
    assert!(listener3.is_ok());
}

#[test]
fn test_listener_creation_with_invalid_address() {
    let stats = Arc::new(IcapStats::new());
    let listener = IcapListener::new("not-a-valid-ip-address".to_string(), 1344, stats);
    assert!(listener.is_err());
}

#[test]
fn test_listener_creation_with_invalid_port_range() {
    let stats = Arc::new(IcapStats::new());
    let listener = IcapListener::new("127.0.0.1".to_string(), 0, stats);
    assert!(listener.is_ok());
}

#[test]
fn test_listener_creation_performance() {
    let stats = Arc::new(IcapStats::new());
    let start = Instant::now();
    for i in 0..1000 {
        let _listener = IcapListener::new(
            "127.0.0.1".to_string(),
            1344 + (i as u16 % 1000),
            Arc::clone(&stats),
        )
        .unwrap();
    }
    let duration = start.elapsed();
    assert!(duration.as_millis() < 100, "Listener creation took {}ms, expected < 100ms", duration.as_millis());
}

#[test]
fn listener_keeps_address_and_port() {
    let stats = Arc::new(IcapStats::new());
    let l = IcapListener::new("192.168.1.20".to_string(), 1344, stats).unwrap();
    assert_eq!(l.ip(), IpAddr::V4(192, 168, 1, 20));
    assert_eq!(l.port(), 1344);
    let l6 = IcapListener::new("::1".to_string(), 8080, Arc::new(IcapStats::new())).unwrap();
    assert_eq!(l6.ip(), IpAddr::V6(0, 0, 0, 0, 0, 0, 0, 1));
    assert_eq!(l6.ip().to_string(), "::1");
}

#[test]
fn listener_rejects_host_with_port_or_bad_brackets() {
    for host in ["127.0.0.1:80", "[127.0.0.1]", "[::1]:80", "[]", "localhost", "", "256.0.0.1"] {
        let r = IcapListener::new(host.to_string(), 1344, Arc::new(IcapStats::new()));
        match r {
            Err(IcapError::Network(m)) => assert_eq!(m, "Invalid address: invalid socket address syntax"),
            _ => panic!("expected a network error for {:?}", host),
        }
    }
}

#[test]
fn listener_takes_bracketed_ipv6_hosts() {
    let stats = Arc::new(IcapStats::new());
    let l = IcapListener::new("[::1]".to_string(), 1344, Arc::clone(&stats)).unwrap();
    assert_eq!(l.ip(), IpAddr::V6(0, 0, 0, 0, 0, 0, 0, 1));
    assert_eq!(l.port(), 1344);
    assert!(IcapListener::new("[127.0.0.1]".to_string(), 1344, Arc::clone(&stats)).is_err());
    assert!(IcapListener::new("[::1".to_string(), 1344, Arc::clone(&stats)).is_err());
    assert!(IcapListener::new("::1".to_string(), 1344, stats).is_ok());
}
