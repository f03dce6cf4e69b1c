use std::collections::HashMap;
use std::time::Duration;

use g3icap::protocol::common::{IcapMethod, IcapService};
use g3icap::service::{ServiceManager, ServiceRegistry};
use g3icap::protocol::common::{HttpVersion, IcapRequest, IcapResponse};
use g3icap::protocol::fields::HeaderMap;
use g3icap::services::ServiceManager as ServicesManager;
use g3icap::services::{
    check_service_request, HealthChecker, IcapModule, LoadBalancer, LoadBalancingStrategy, ServiceConfig, ServiceError,
};
use g3icap::stats::{IcapStats, MetricKind};

fn service(name: &str, methods: Vec<IcapMethod>) -> IcapService {
    IcapService { name: name.to_string(), description: format!("{} service", name), methods, options: HashMap::new() }
}

#[test]
fn registry_registers_replaces_and_removes() {
    let mut reg = ServiceRegistry::new();
    reg.register_service("a".to_string(), service("a", vec![IcapMethod::Reqmod])).unwrap();
    reg.register_service("b".to_string(), service("b", vec![IcapMethod::Respmod])).unwrap();
    assert_eq!(reg.get_service("a").unwrap().methods, vec![IcapMethod::Reqmod]);
    reg.register_service("a".to_string(), service("a2", vec![IcapMethod::Options])).unwrap();
    assert_eq!(reg.get_service("a").unwrap().name, "a2");
    let names: Vec<String> = reg.list_services().into_iter().map(|s| s.name).collect();
    assert_eq!(names, vec!["b".to_string(), "a2".to_string()]);
    let removed = reg.unregister_service("b").unwrap();
    assert_eq!(removed.name, "b");
    assert!(reg.get_service("b").is_none());
    assert!(reg.unregister_service("b").is_none());
    assert_eq!(reg.list_services().len(), 1);
}

#[test]
fn manager_registers_default_services() {
    let mut m = ServiceManager::new();
    m.initialize_default_services().unwrap();
    let reg = m.registry();
    let opts = reg.get_service("options").unwrap();
    assert_eq!(opts.description, "ICAP OPTIONS service");
    assert_eq!(opts.methods, vec![IcapMethod::Options]);
    assert_eq!(reg.get_service("reqmod").unwrap().methods, vec![IcapMethod::Reqmod]);
    assert_eq!(reg.get_service("respmod").unwrap().description, "ICAP RESPMOD service");
    assert_eq!(reg.list_services().len(), 3);
}

#[test]
fn health_checks_start_and_stop() {
    let mut h = HealthChecker::new();
    assert!(!h.is_healthy("av"));
    h.start_health_check("av", Duration::from_secs(5)).unwrap();
    h.start_health_check("filter", Duration::from_secs(5)).unwrap();
    assert!(h.is_healthy("av"));
    h.stop_health_check("av");
    assert!(!h.is_healthy("av"));
    assert!(h.is_healthy("filter"));
}

#[test]
fn round_robin_cycles_through_services() {
    let mut lb = LoadBalancer::new();
    let services = vec!["a".to_string(), "b".to_string(), "c".to_string()];
    let picks: Vec<String> =
        (0..4).map(|_| lb.select_service(&services, &LoadBalancingStrategy::RoundRobin).unwrap()).collect();
    assert_eq!(picks, vec!["a", "b", "c", "a"]);
    assert_eq!(lb.select_service(&[], &LoadBalancingStrategy::RoundRobin), None);
    assert_eq!(lb.select_service(&services, &LoadBalancingStrategy::LeastConnections).unwrap(), "a");
    assert_eq!(lb.select_service(&services, &LoadBalancingStrategy::WeightedRoundRobin(vec![1, 2, 3])).unwrap(), "a");
    for _ in 0..20 {
        let s = lb.select_service(&services, &LoadBalancingStrategy::Random).unwrap();
        assert!(services.contains(&s));
    }
}

fn config(methods: Vec<IcapMethod>, max_connections: usize) -> ServiceConfig {
    ServiceConfig {
        name: "av".to_string(),
        path: "/av".to_string(),
        methods,
        preview_size: 1024,
        timeout: Duration::from_secs(30),
        max_connections,
        health_check_enabled: true,
        health_check_interval: Duration::from_secs(10),
        load_balancing: LoadBalancingStrategy::RoundRobin,
    }
}

#[test]
fn service_requests_are_checked() {
    let c = config(vec![IcapMethod::Reqmod, IcapMethod::Respmod], 2);
    assert!(check_service_request(&c, 1, IcapMethod::Reqmod).is_ok());
    match check_service_request(&c, 0, IcapMethod::Options).unwrap_err() {
        ServiceError::MethodNotSupported(m) => assert_eq!(m, "OPTIONS"),
        e => panic!("unexpected {:?}", e),
    }
    assert!(matches!(check_service_request(&c, 2, IcapMethod::Respmod), Err(ServiceError::TooManyConnections)));
    assert_eq!(ServiceError::ServiceNotFound("x".to_string()).to_string(), "Service not found: x");
    assert_eq!(ServiceError::TooManyConnections.to_string(), "Too many connections");
}

#[test]
fn test_statsd_without_client() {
    let mut stats = IcapStats::new();

    stats.emit_stats();

    stats.increment_requests();
    assert_eq!(stats.total_requests(), 1);
}

#[test]
fn stats_report_lists_counters_and_average() {
    let mut stats = IcapStats::new();
    let before = stats.emit_stats();
    assert_eq!(before.len(), 12);
    assert_eq!(before[0].name, "icap.requests.total");
    assert_eq!(before[11].name, "icap.connections.active");
    assert_eq!(before[11].kind, MetricKind::Gauge);
    stats.increment_requests();
    stats.increment_requests();
    stats.add_processing_time(301);
    stats.add_bytes(10);
    let after = stats.emit_stats();
    assert_eq!(after.len(), 13);
    assert_eq!(after[12].name, "icap.processing_time.avg");
    assert_eq!(after[12].value, 150);
    assert!(!after[12].tagged);
    assert_eq!(after[7].name, "icap.bytes.total");
    assert_eq!(after[7].value, 10);
    assert_eq!(stats.get_avg_processing_time(), 150);
}

struct EchoModule {
    fail_respmod: bool,
}

fn answer(status: u16) -> IcapResponse {
    IcapResponse { status, version: HttpVersion::Http10, headers: HeaderMap::new(), body: Vec::new(), encapsulated: None }
}

impl IcapModule for EchoModule {
    fn handle_reqmod(&self, _request: &IcapRequest) -> Result<IcapResponse, String> {
        Ok(answer(204))
    }
    fn handle_respmod(&self, _request: &IcapRequest) -> Result<IcapResponse, String> {
        if self.fail_respmod {
            Err("scan failed".to_string())
        } else {
            Ok(answer(200))
        }
    }
    fn handle_options(&self, _request: &IcapRequest) -> Result<IcapResponse, String> {
        Ok(answer(200))
    }
}

fn named_config(name: &str, path: &str, methods: Vec<IcapMethod>, max_connections: usize, health: bool) -> ServiceConfig {
    ServiceConfig {
        name: name.to_string(),
        path: path.to_string(),
        methods,
        preview_size: 1024,
        timeout: Duration::from_secs(30),
        max_connections,
        health_check_enabled: health,
        health_check_interval: Duration::from_secs(10),
        load_balancing: LoadBalancingStrategy::RoundRobin,
    }
}

fn routed_request(method: IcapMethod, uri: &str) -> IcapRequest {
    IcapRequest { method, uri: uri.to_string(), version: HttpVersion::Http10, headers: HeaderMap::new(), body: Vec::new(), encapsulated: None }
}

#[test]
fn service_manager_registers_with_uuid_ids() {
    let mut m: ServicesManager<EchoModule> = ServicesManager::new();
    assert!(m.list_services().is_empty());
    m.register_service(named_config("av", "/av", vec![IcapMethod::Respmod], 10, true), EchoModule { fail_respmod: false }).unwrap();
    m.register_service(named_config("filter", "/filter", vec![IcapMethod::Reqmod], 10, false), EchoModule { fail_respmod: false }).unwrap();
    assert_eq!(m.list_services(), vec!["av".to_string(), "filter".to_string()]);
    let s = m.get_service("av").unwrap();
    assert_eq!(s.config.path, "/av");
    assert_eq!(s.connection_count, 0);
    assert_eq!(s.id.len(), "av".len() + 37);
    assert!(s.id.starts_with("av-"));
    let uuid_part = &s.id[3..];
    assert_eq!(uuid_part.as_bytes()[14], b'4');
    for (i, c) in uuid_part.chars().enumerate() {
        if i == 8 || i == 13 || i == 18 || i == 23 {
            assert_eq!(c, '-');
        } else {
            assert!(c.is_ascii_hexdigit() && !c.is_ascii_uppercase());
        }
    }
    // Two registrations draw two ids.
    let first_id = s.id.clone();
    m.register_service(named_config("av", "/av2", vec![IcapMethod::Respmod], 10, true), EchoModule { fail_respmod: false }).unwrap();
    assert_ne!(m.get_service("av").unwrap().id, first_id);
    assert_eq!(m.get_service("av").unwrap().config.path, "/av2");
    assert_eq!(m.list_services(), vec!["filter".to_string(), "av".to_string()]);
    assert!(m.is_service_healthy("av"));
    assert!(!m.is_service_healthy("filter"));
    assert!(m.get_service("nope").is_none());
}

#[test]
fn service_manager_unregisters() {
    let mut m: ServicesManager<EchoModule> = ServicesManager::new();
    m.register_service(named_config("av", "/av", vec![IcapMethod::Respmod], 10, true), EchoModule { fail_respmod: false }).unwrap();
    assert!(m.unregister_service("av").is_ok());
    assert!(m.get_service("av").is_none());
    assert!(!m.is_service_healthy("av"));
    match m.unregister_service("av") {
        Err(ServiceError::ServiceNotFound(n)) => assert_eq!(n, "av"),
        other => panic!("unexpected {:?}", other.err()),
    }
}

#[test]
fn service_manager_routes_by_path_and_counts() {
    let mut m: ServicesManager<EchoModule> = ServicesManager::new();
    m.register_service(named_config("av", "/av", vec![IcapMethod::Respmod, IcapMethod::Options], 10, true), EchoModule { fail_respmod: true }).unwrap();
    m.register_service(named_config("filter", "/filter", vec![IcapMethod::Reqmod], 0, false), EchoModule { fail_respmod: false }).unwrap();

    let ok = m.handle_request(&routed_request(IcapMethod::Options, "icap://localhost/av")).unwrap();
    assert_eq!(ok.status, 200);
    match m.handle_request(&routed_request(IcapMethod::Respmod, "icap://localhost/av")) {
        Err(ServiceError::ModuleError(msg)) => assert_eq!(msg, "scan failed"),
        other => panic!("unexpected {:?}", other.err()),
    }
    let metrics = m.get_service_metrics("av").unwrap();
    assert_eq!(metrics.requests_total, 2);
    assert_eq!(metrics.connection_errors, 1);

    match m.handle_request(&routed_request(IcapMethod::Reqmod, "icap://localhost/av")) {
        Err(ServiceError::MethodNotSupported(name)) => assert_eq!(name, "REQMOD"),
        other => panic!("unexpected {:?}", other.err()),
    }
    assert!(matches!(
        m.handle_request(&routed_request(IcapMethod::Reqmod, "icap://localhost/filter")),
        Err(ServiceError::TooManyConnections)
    ));
    match m.handle_request(&routed_request(IcapMethod::Reqmod, "icap://localhost/missing")) {
        Err(ServiceError::ServiceNotFound(p)) => assert_eq!(p, "/missing"),
        other => panic!("unexpected {:?}", other.err()),
    }
    // Refused requests are not counted.
    assert_eq!(m.get_service_metrics("av").unwrap().requests_total, 2);
    let all = m.get_all_metrics();
    assert_eq!(all.len(), 2);
    assert_eq!(all[0].0, "av");
    assert_eq!(all[1].0, "filter");
    assert_eq!(all[1].1.requests_total, 0);
    assert!(m.get_service_metrics("missing").is_none());
}

#[test]
fn test_service_manager() {
    let mut service_manager: ServicesManager<EchoModule> = ServicesManager::new();
    let services = service_manager.list_services();
    assert!(services.is_empty());
    let config = ServiceConfig {
        name: "test_echo".to_string(),
        path: "/test_echo".to_string(),
        methods: vec![IcapMethod::Reqmod, IcapMethod::Respmod],
        preview_size: 1024,
        timeout: Duration::from_secs(30),
        max_connections: 10,
        health_check_enabled: true,
        health_check_interval: Duration::from_secs(10),
        load_balancing: LoadBalancingStrategy::RoundRobin,
    };
    service_manager.register_service(config, EchoModule { fail_respmod: false }).unwrap();
    let services = service_manager.list_services();
    assert_eq!(services.len(), 1);
    assert!(services.contains(&"test_echo".to_string()));
    let metrics = service_manager.get_service_metrics("test_echo");
    assert!(metrics.is_some());
    service_manager.unregister_service("test_echo").unwrap();
    let services = service_manager.list_services();
    assert!(services.is_empty());
}

#[test]
fn health_follows_the_last_call_naming_a_service() {
    let mut h = HealthChecker::new();
    let calls = [("a", true), ("b", true), ("a", false), ("b", false), ("a", true), ("c", false)];
    for (name, start) in calls {
        if start {
            h.start_health_check(name, Duration::from_secs(1)).unwrap();
        } else {
            h.stop_health_check(name);
        }
    }
    assert!(h.is_healthy("a"));
    assert!(!h.is_healthy("b"));
    assert!(!h.is_healthy("c"));
    assert!(!h.is_healthy("d"));
}
