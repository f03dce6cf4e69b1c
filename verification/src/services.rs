//! Services: their configuration, health tracking, load balancing, and the
//! checks a request passes before a service handles it.

use vstd::prelude::*;
use core::time::Duration;
use crate::protocol::common::{IcapMethod, IcapRequest, IcapResponse, method_name};
use crate::text::str_eq;
use crate::keyed::{last_value, without_key, lemma_without_key, lemma_put_key, lemma_last_value_some};
use crate::bridge::{uri_path, uri_path_of};
use crate::stats::wrap_add;
use rand::Rng;

verus! {

/// How a service instance is picked among several.
#[derive(Debug, Clone)]
pub enum LoadBalancingStrategy {
    /// Round-robin
    RoundRobin,
    /// Least connections
    LeastConnections,
    /// Weighted round-robin
    WeightedRoundRobin(Vec<u32>),
    /// Random
    Random,
}

/// The configuration of a service.
#[derive(Debug)]
pub struct ServiceConfig {
    /// Service name
    pub name: String,
    /// Service path
    pub path: String,
    /// Supported ICAP methods
    pub methods: Vec<IcapMethod>,
    /// Preview size limit
    pub preview_size: usize,
    /// Request timeout
    pub timeout: Duration,
    /// Maximum connections
    pub max_connections: usize,
    /// Enable health checks
    pub health_check_enabled: bool,
    /// Health check interval
    pub health_check_interval: Duration,
    /// Load balancing strategy
    pub load_balancing: LoadBalancingStrategy,
}

/// Errors of the service layer.
#[derive(Debug, Clone)]
pub enum ServiceError {
    ServiceNotFound(String),
    MethodNotSupported(String),
    TooManyConnections,
    ServiceUnhealthy,
    /// The message of the module's error.
    ModuleError(String),
    HealthCheckFailed(String),
    LoadBalancingError(String),
}

/// The message of a service error.
pub open spec fn service_error_message(e: ServiceError) -> Seq<char> {
    match e {
        ServiceError::ServiceNotFound(s) => "Service not found: "@ + s@,
        ServiceError::MethodNotSupported(s) => "Method not supported: "@ + s@,
        ServiceError::TooManyConnections => "Too many connections"@,
        ServiceError::ServiceUnhealthy => "Service unhealthy"@,
        ServiceError::ModuleError(s) => "Module error: "@ + s@,
        ServiceError::HealthCheckFailed(s) => "Health check failed: "@ + s@,
        ServiceError::LoadBalancingError(s) => "Load balancing error: "@ + s@,
    }
}

fn prefixed(prefix: &str, s: &String) -> (r: String)
    ensures
        r@ == prefix@ + s@,
{
    let mut m = String::from_str(prefix);
    m.append(s.as_str());
    m
}

impl ServiceError {
    /// The message of the error.
    pub fn to_string(&self) -> (r: String)
        ensures
            r@ == service_error_message(*self),
    {
        match self {
            ServiceError::ServiceNotFound(s) => prefixed("Service not found: ", s),
            ServiceError::MethodNotSupported(s) => prefixed("Method not supported: ", s),
            ServiceError::TooManyConnections => String::from_str("Too many connections"),
            ServiceError::ServiceUnhealthy => String::from_str("Service unhealthy"),
            ServiceError::ModuleError(s) => prefixed("Module error: ", s),
            ServiceError::HealthCheckFailed(s) => prefixed("Health check failed: ", s),
            ServiceError::LoadBalancingError(s) => prefixed("Load balancing error: ", s),
        }
    }
}

/// Checks a request for `method` against the service `config` with
/// `connection_count` connections open: an unsupported method, then a full
/// service, is refused.
pub fn check_service_request(config: &ServiceConfig, connection_count: usize, method: IcapMethod) -> (r: Result<(), ServiceError>)
    ensures
        !config.methods@.contains(method) ==> (r matches Err(ServiceError::MethodNotSupported(m)) && m@ == method_name(method)),
        config.methods@.contains(method) && connection_count >= config.max_connections ==> r matches Err(ServiceError::TooManyConnections),
        config.methods@.contains(method) && connection_count < config.max_connections ==> r is Ok,
{
    let mut i: usize = 0;
    let mut found = false;
    while i < config.methods.len()
        invariant
            i <= config.methods@.len(),
            found == exists|j: int| 0 <= j < i && config.methods@[j] == method,
        decreases config.methods@.len() - i,
    {
        if config.methods[i] == method {
            found = true;
        }
        i = i + 1;
    }
    if !found {
        proof {
            assert forall|j: int| 0 <= j < config.methods@.len() implies config.methods@[j] != method by {}
        }
        return Err(ServiceError::MethodNotSupported(method.to_string()));
    }
    if connection_count >= config.max_connections {
        return Err(ServiceError::TooManyConnections);
    }
    Ok(())
}

/// Tracks which services are healthy.
#[derive(Debug)]
pub struct HealthChecker {
    health_checks: Vec<(String, bool)>,
}

impl HealthChecker {
    /// The recorded health of each service.
    pub closed spec fn entries(&self) -> Seq<(Seq<char>, bool)> {
        self.health_checks@.map_values(|e: (String, bool)| (e.0@, e.1))
    }

    /// The health recorded for `name`, if any.
    pub open spec fn health(&self, name: Seq<char>) -> Option<bool> {
        last_value(self.entries(), name)
    }

    /// A checker that knows no service.
    pub fn new() -> (r: Self)
        ensures
            forall|n: Seq<char>| r.health(n) is None,
    {
        let r = HealthChecker { health_checks: Vec::new() };
        proof {
            assert(r.entries() =~= Seq::<(Seq<char>, bool)>::empty());
        }
        r
    }

    fn drop_name(&mut self, name: &str)
        ensures
            final(self).entries() == without_key(old(self).entries(), name@),
    {
        let mut kept: Vec<(String, bool)> = Vec::new();
        let mut i: usize = 0;
        let ghost all = old(self).entries();
        while i < self.health_checks.len()
            invariant
                i <= self.health_checks@.len(),
                self.entries() == all,
                kept@.map_values(|e: (String, bool)| (e.0@, e.1)) == without_key(all.subrange(0, i as int), name@),
            decreases self.health_checks@.len() - i,
        {
            let ghost pre = all.subrange(0, i as int);
            proof {
                assert(all.subrange(0, i + 1).drop_last() =~= pre);
                assert(all[i as int] == (self.health_checks@[i as int].0@, self.health_checks@[i as int].1));
            }
            let e = &self.health_checks[i];
            if !str_eq(e.0.as_str(), name) {
                let ghost k0 = kept@;
                kept.push((e.0.clone(), e.1));
                proof {
                    assert(kept@.map_values(|e: (String, bool)| (e.0@, e.1)) =~= k0.map_values(|e: (String, bool)| (e.0@, e.1)).push(all[i as int]));
                }
            }
            i = i + 1;
        }
        proof {
            assert(all.subrange(0, all.len() as int) =~= all);
        }
        self.health_checks = kept;
    }

    /// Starts checking `service_name`: it counts as healthy from now on.
    pub fn start_health_check(&mut self, service_name: &str, _interval: Duration) -> (r: Result<(), ServiceError>)
        ensures
            r is Ok,
            final(self).health(service_name@) == Some(true),
            forall|n: Seq<char>| n != service_name@ ==> final(self).health(n) == old(self).health(n),
    {
        self.drop_name(service_name);
        let ghost mid = self.entries();
        self.health_checks.push((String::from_str(service_name), true));
        proof {
            assert(self.entries() =~= mid.push((service_name@, true)));
            assert(self.entries().drop_last() =~= mid);
            assert forall|n: Seq<char>| n != service_name@ implies final(self).health(n) == old(self).health(n) by {
                lemma_without_key(old(self).entries(), service_name@, n);
            }
        }
        Ok(())
    }

    /// Stops checking `service_name`: nothing is recorded for it any more.
    pub fn stop_health_check(&mut self, service_name: &str)
        ensures
            final(self).health(service_name@) is None,
            forall|n: Seq<char>| n != service_name@ ==> final(self).health(n) == old(self).health(n),
    {
        self.drop_name(service_name);
        proof {
            lemma_without_key(old(self).entries(), service_name@, service_name@);
            assert forall|n: Seq<char>| n != service_name@ implies final(self).health(n) == old(self).health(n) by {
                lemma_without_key(old(self).entries(), service_name@, n);
            }
        }
    }

    /// True when `service_name` is recorded as healthy.
    pub fn is_healthy(&self, service_name: &str) -> (r: bool)
        ensures
            r == (self.health(service_name@) == Some(true)),
    {
        let mut i = self.health_checks.len();
        let ghost all = self.entries();
        proof {
            assert(all.subrange(0, i as int) =~= all);
        }
        while i > 0
            invariant
                i <= self.health_checks@.len(),
                all == self.entries(),
                last_value(all, service_name@) == last_value(all.subrange(0, i as int), service_name@),
            decreases i,
        {
            let ghost pre = all.subrange(0, i as int);
            proof {
                assert(pre.drop_last() =~= all.subrange(0, i - 1));
                assert(pre.last() == (self.health_checks@[i - 1].0@, self.health_checks@[i - 1].1));
            }
            let e = &self.health_checks[i - 1];
            if str_eq(e.0.as_str(), service_name) {
                return e.1;
            }
            i = i - 1;
        }
        false
    }
}

/// What a new health checker records for `name` after `calls`, each a name
/// and whether checking it started (`true`) or stopped (`false`): healthy
/// when the last call naming it started checking, nothing otherwise.
pub open spec fn health_after(calls: Seq<(Seq<char>, bool)>, name: Seq<char>) -> Option<bool>
    decreases calls.len(),
{
    if calls.len() == 0 {
        None
    } else if calls.last().0 == name {
        if calls.last().1 {
            Some(true)
        } else {
            None
        }
    } else {
        health_after(calls.drop_last(), name)
    }
}

/// Over any run of calls on a checker, the health it records for a name is
/// given by the last call that named it: a new checker records nothing
/// (`health_after` of no calls), and a start or stop of `name`, as
/// `start_health_check` and `stop_health_check` state it, takes a checker
/// that agrees with `health_after(calls, ..)` to one that agrees with it for
/// the calls with that one added; calls naming `name` leave every other
/// name as it was.
pub proof fn lemma_health_calls(
    before: HealthChecker,
    after: HealthChecker,
    calls: Seq<(Seq<char>, bool)>,
    name: Seq<char>,
    start: bool,
)
    requires
        forall|n: Seq<char>| before.health(n) == health_after(calls, n),
        start ==> after.health(name) == Some(true),
        !start ==> after.health(name) is None,
        forall|n: Seq<char>| n != name ==> after.health(n) == before.health(n),
    ensures
        forall|n: Seq<char>| health_after(Seq::<(Seq<char>, bool)>::empty(), n) is None,
        forall|n: Seq<char>| after.health(n) == health_after(calls.push((name, start)), n),
        forall|n: Seq<char>| n != name ==> health_after(calls.push((name, start)), n) == health_after(calls, n),
{
    assert(calls.push((name, start)).drop_last() =~= calls);
}

/// Draws an index below `n` with `rand::rng().random_range(0..n)`.
/// Claimed: the index is below `n`, as `random_range` promises for a
/// non-empty range; which one comes out is left open.
#[verifier::external_body]
fn random_index(n: usize) -> (r: usize)
    requires
        n > 0,
    ensures
        r < n,
{
    rand::rng().random_range(0..n)
}

/// Picks service instances by a strategy, keeping a round-robin position.
#[derive(Debug)]
pub struct LoadBalancer {
    round_robin_index: usize,
}

/// The pick of `strategy` among `services` at round-robin position `index`,
/// for the strategies that do not draw at random: none when there is no
/// service; round-robin takes the one at the position; the others take the
/// first.
pub open spec fn pick_index(strategy: LoadBalancingStrategy, n: int, index: int) -> int {
    match strategy {
        LoadBalancingStrategy::RoundRobin => index % n,
        _ => 0,
    }
}

impl LoadBalancer {
    /// The round-robin position.
    pub closed spec fn index(&self) -> int {
        self.round_robin_index as int
    }

    /// A balancer at round-robin position 0.
    pub fn new() -> (r: Self)
        ensures
            r.index() == 0,
    {
        LoadBalancer { round_robin_index: 0 }
    }

    /// Picks one of `services` by `strategy`: none when there is none;
    /// round-robin takes the one at its position and moves on by one, round
    /// the list; random takes any; the others take the first.
    pub fn select_service(&mut self, services: &[String], strategy: &LoadBalancingStrategy) -> (r: Option<String>)
        ensures
            services@.len() == 0 ==> r is None && final(self).index() == old(self).index(),
            services@.len() > 0 ==> r is Some,
            services@.len() > 0 && !(strategy is Random) ==> (r matches Some(s) && s@ == services@[pick_index(
                *strategy,
                services@.len() as int,
                old(self).index(),
            )]@),
            services@.len() > 0 && strategy is Random ==> (r matches Some(s) && exists|i: int|
                0 <= i < services@.len() && s@ == #[trigger] services@[i]@),
            services@.len() > 0 && strategy is RoundRobin ==> final(self).index() == (old(self).index() + 1)
                % (services@.len() as int),
            !(strategy is RoundRobin) ==> final(self).index() == old(self).index(),
    {
        if services.len() == 0 {
            return None;
        }
        let n = services.len();
        match strategy {
            LoadBalancingStrategy::RoundRobin => {
                let ghost k: int = self.round_robin_index as int;
                let i = self.round_robin_index % n;
                let selected = services[i].clone();
                self.round_robin_index = (self.round_robin_index % n + 1) % n;
                proof {
                    assert((k % (n as int) + 1) % (n as int) == (k + 1) % (n as int))
                        by (nonlinear_arith)
                        requires
                            n > 0,
                            k >= 0,
                    ;
                }
                Some(selected)
            },
            LoadBalancingStrategy::Random => {
                let i = random_index(n);
                let s = services[i].clone();
                proof {
                    assert(s@ == services@[i as int]@);
                }
                Some(s)
            },
            _ => Some(services[0].clone()),
        }
    }
}

/// A lower-case hexadecimal digit.
pub open spec fn is_lower_hex(c: char) -> bool {
    ('0' <= c && c <= '9') || ('a' <= c && c <= 'f')
}

/// A UUID written in its hyphenated lower-case form.
pub open spec fn is_uuid_text(s: Seq<char>) -> bool {
    &&& s.len() == 36
    &&& forall|i: int|
        0 <= i < 36 ==> if i == 8 || i == 13 || i == 18 || i == 23 {
            #[trigger] s[i] == '-'
        } else {
            is_lower_hex(s[i])
        }
}

/// Draws `uuid::Uuid::new_v4()` and writes it with `Display`.
/// Claimed: the text is the hyphenated lower-case form, with the version
/// digit 4; which UUID comes out is left open, as it is drawn at random.
#[verifier::external_body]
fn new_v4_text() -> (r: String)
    ensures
        is_uuid_text(r@),
        r@[14] == '4',
{
    uuid::Uuid::new_v4().to_string()
}

/// What a service's module does with the requests routed to it. A module
/// reports its failure as a message.
pub trait IcapModule {
    fn handle_reqmod(&self, request: &IcapRequest) -> Result<IcapResponse, String>;

    fn handle_respmod(&self, request: &IcapRequest) -> Result<IcapResponse, String>;

    fn handle_options(&self, request: &IcapRequest) -> Result<IcapResponse, String>;
}

/// The counters of a service.
#[derive(Clone, Copy, Debug)]
pub struct ServiceMetrics {
    /// Requests routed to the service
    pub requests_total: u64,
    /// Active connections
    pub active_connections: usize,
    /// Total connections
    pub total_connections: u64,
    /// Requests that the module failed
    pub connection_errors: u64,
    /// Memory usage
    pub memory_usage: usize,
    /// Health status
    pub is_healthy: bool,
}

/// All counters at zero, not marked healthy.
pub open spec fn zero_metrics() -> ServiceMetrics {
    ServiceMetrics {
        requests_total: 0,
        active_connections: 0,
        total_connections: 0,
        connection_errors: 0,
        memory_usage: 0,
        is_healthy: false,
    }
}

/// The counters after one more request, which the module failed or not.
pub open spec fn metrics_after(m: ServiceMetrics, failed: bool) -> ServiceMetrics {
    ServiceMetrics {
        requests_total: wrap_add(m.requests_total, 1),
        connection_errors: if failed { wrap_add(m.connection_errors, 1) } else { m.connection_errors },
        ..m
    }
}

impl ServiceMetrics {
    /// All counters at zero.
    pub fn new() -> (r: Self)
        ensures
            r == zero_metrics(),
    {
        ServiceMetrics {
            requests_total: 0,
            active_connections: 0,
            total_connections: 0,
            connection_errors: 0,
            memory_usage: 0,
            is_healthy: false,
        }
    }
}

/// Counts a request that the module answered with `result` into `metrics`,
/// and turns the module's failure into a service error.
pub fn record_module_result(metrics: &mut ServiceMetrics, result: Result<IcapResponse, String>) -> (r: Result<IcapResponse, ServiceError>)
    ensures
        *final(metrics) == metrics_after(*old(metrics), result is Err),
        match result {
            Ok(x) => r == Ok::<IcapResponse, ServiceError>(x),
            Err(m) => r == Err::<IcapResponse, ServiceError>(ServiceError::ModuleError(m)),
        },
{
    metrics.requests_total = metrics.requests_total.wrapping_add(1);
    match result {
        Ok(x) => Ok(x),
        Err(m) => {
            metrics.connection_errors = metrics.connection_errors.wrapping_add(1);
            Err(ServiceError::ModuleError(m))
        },
    }
}

/// A registered service: its id, configuration, module and counters.
pub struct ServiceInstance<M> {
    /// Service ID
    pub id: String,
    /// Service configuration
    pub config: ServiceConfig,
    /// Service module
    pub module: M,
    /// Service metrics
    pub metrics: ServiceMetrics,
    /// Connection count
    pub connection_count: usize,
}

/// Services as named entries, under their configured names.
pub open spec fn entries_of<M>(s: Seq<ServiceInstance<M>>) -> Seq<(Seq<char>, ServiceInstance<M>)> {
    s.map_values(|x: ServiceInstance<M>| (x.config.name@, x))
}

/// The position of the first service whose path is `path`, if any.
pub open spec fn first_with_path<M>(s: Seq<ServiceInstance<M>>, path: Seq<char>) -> Option<int>
    decreases s.len(),
{
    if s.len() == 0 {
        None
    } else {
        match first_with_path(s.drop_last(), path) {
            Some(i) => Some(i),
            None => if s.last().config.path@ == path {
                Some(s.len() - 1)
            } else {
                None
            },
        }
    }
}

proof fn lemma_first_with_path_range<M>(s: Seq<ServiceInstance<M>>, path: Seq<char>)
    ensures
        first_with_path(s, path) matches Some(i) ==> 0 <= i < s.len() && s[i].config.path@ == path,
    decreases s.len(),
{
    if s.len() > 0 {
        lemma_first_with_path_range(s.drop_last(), path);
    }
}

proof fn lemma_first_with_path_prefix<M>(s: Seq<ServiceInstance<M>>, path: Seq<char>, k: int)
    requires
        0 <= k <= s.len(),
        first_with_path(s.subrange(0, k), path) is Some,
    ensures
        first_with_path(s, path) == first_with_path(s.subrange(0, k), path),
    decreases s.len() - k,
{
    if k < s.len() {
        assert(s.subrange(0, k + 1).drop_last() =~= s.subrange(0, k));
        lemma_first_with_path_prefix(s, path, k + 1);
    } else {
        assert(s.subrange(0, k) =~= s);
    }
}

/// The path of a request URI, as `http::Uri::path` reads it.
pub open spec fn request_path(uri: Seq<char>) -> Seq<char> {
    match uri_path_of(uri) {
        Some(p) => p,
        None => Seq::empty(),
    }
}

/// The services, their health, and the balancer among them.
pub struct ServiceManager<M> {
    services: Vec<ServiceInstance<M>>,
    health_checker: HealthChecker,
    load_balancer: LoadBalancer,
}

impl<M: IcapModule> ServiceManager<M> {
    /// The registered services, in the order they were registered.
    pub closed spec fn instances(&self) -> Seq<ServiceInstance<M>> {
        self.services@
    }

    /// The service registered under `name`, if any.
    pub open spec fn service(&self, name: Seq<char>) -> Option<ServiceInstance<M>> {
        last_value(entries_of(self.instances()), name)
    }

    /// The health recorded for `name`, if any.
    pub closed spec fn health(&self, name: Seq<char>) -> Option<bool> {
        self.health_checker.health(name)
    }

    /// A manager with no service.
    pub fn new() -> (r: Self)
        ensures
            r.instances().len() == 0,
            forall|n: Seq<char>| r.service(n) is None && r.health(n) is None,
    {
        ServiceManager { services: Vec::new(), health_checker: HealthChecker::new(), load_balancer: LoadBalancer::new() }
    }

    fn drop_name(&mut self, name: &str)
        ensures
            entries_of(final(self).instances()) == without_key(entries_of(old(self).instances()), name@),
            forall|n: Seq<char>| final(self).health(n) == old(self).health(n),
    {
        let mut rest: Vec<ServiceInstance<M>> = Vec::new();
        std::mem::swap(&mut rest, &mut self.services);
        let ghost all = rest@;
        let mut kept: Vec<ServiceInstance<M>> = Vec::new();
        let ghost mut k: int = 0;
        while rest.len() > 0
            invariant
                0 <= k <= all.len(),
                rest@ == all.subrange(k, all.len() as int),
                entries_of(kept@) == without_key(entries_of(all.subrange(0, k)), name@),
            decreases rest.len(),
        {
            let e = rest.remove(0);
            proof {
                assert(entries_of(all.subrange(0, k + 1)).drop_last() =~= entries_of(all.subrange(0, k)));
                assert(e == all[k]);
                assert(rest@ =~= all.subrange(k + 1, all.len() as int));
            }
            if !str_eq(e.config.name.as_str(), name) {
                let ghost k0 = kept@;
                kept.push(e);
                proof {
                    assert(entries_of(kept@) =~= entries_of(k0).push(entries_of(all.subrange(0, k + 1)).last()));
                }
            }
            proof {
                k = k + 1;
            }
        }
        proof {
            assert(all.subrange(0, k) =~= all);
        }
        self.services = kept;
    }

    /// Registers a service under its configured name, in place of any
    /// service of that name, with a fresh id (the name, `-`, and a random
    /// UUID) and zero counters; a service with health checks enabled counts
    /// as healthy from now on.
    pub fn register_service(&mut self, config: ServiceConfig, module: M) -> (r: Result<(), ServiceError>)
        ensures
            r is Ok,
            final(self).service(config.name@) matches Some(s) && s.config == config && s.module == module
                && s.metrics == zero_metrics() && s.connection_count == 0
                && s.id@.len() == config.name@.len() + 37
                && s.id@.subrange(0, config.name@.len() as int) == config.name@
                && s.id@[config.name@.len() as int] == '-'
                && is_uuid_text(s.id@.subrange(config.name@.len() as int + 1, s.id@.len() as int)),
            forall|n: Seq<char>| n != config.name@ ==> final(self).service(n) == old(self).service(n),
            config.health_check_enabled ==> final(self).health(config.name@) == Some(true),
            forall|n: Seq<char>| n != config.name@ || !config.health_check_enabled ==> final(self).health(n)
                == old(self).health(n),
    {
        let name = config.name.clone();
        let suffix = new_v4_text();
        let mut id = config.name.clone();
        id.append("-");
        id.append(suffix.as_str());
        proof {
            reveal_strlit("-");
            assert(id@ =~= name@ + seq!['-'] + suffix@);
        }
        let enabled = config.health_check_enabled;
        let interval = config.health_check_interval;
        self.drop_name(name.as_str());
        let ghost mid = self.instances();
        let inst = ServiceInstance { id, config, module, metrics: ServiceMetrics::new(), connection_count: 0 };
        let ghost iv = inst;
        self.services.push(inst);
        proof {
            assert(entries_of(self.instances()) =~= without_key(entries_of(old(self).instances()), name@).push((name@, iv)));
            assert forall|n: Seq<char>| #![trigger last_value(entries_of(self.instances()), n)] true implies
                last_value(entries_of(self.instances()), n) == if n == name@ { Some(iv) } else { last_value(entries_of(old(self).instances()), n) } by {
                lemma_put_key(entries_of(old(self).instances()), name@, iv, n);
            }
            assert(iv.id@.subrange(0, name@.len() as int) =~= name@);
            assert(iv.id@.subrange(name@.len() as int + 1, iv.id@.len() as int) =~= suffix@);
        }
        if enabled {
            let _ = self.health_checker.start_health_check(name.as_str(), interval);
        }
        Ok(())
    }

    /// The position of the service registered under `name`, if any.
    fn position(&self, name: &str) -> (r: Option<usize>)
        ensures
            r is None <==> self.service(name@) is None,
            r matches Some(i) ==> i < self.instances().len() && self.service(name@) == Some(self.instances()[i as int]),
    {
        let ghost all = entries_of(self.instances());
        let mut i = self.services.len();
        proof {
            assert(all.subrange(0, i as int) =~= all);
        }
        while i > 0
            invariant
                i <= self.services@.len(),
                all == entries_of(self.instances()),
                last_value(all, name@) == last_value(all.subrange(0, i as int), name@),
            decreases i,
        {
            proof {
                assert(all.subrange(0, i as int).drop_last() =~= all.subrange(0, i - 1));
            }
            if str_eq(self.services[i - 1].config.name.as_str(), name) {
                return Some(i - 1);
            }
            i = i - 1;
        }
        None
    }

    /// Removes the service registered under `name` and stops checking its
    /// health; an unknown name is an error and changes nothing.
    pub fn unregister_service(&mut self, name: &str) -> (r: Result<(), ServiceError>)
        ensures
            old(self).service(name@) is None ==> (r matches Err(ServiceError::ServiceNotFound(m)) && m@ == name@)
                && final(self).instances() == old(self).instances()
                && forall|n: Seq<char>| final(self).health(n) == old(self).health(n),
            old(self).service(name@) is Some ==> r is Ok && final(self).service(name@) is None
                && final(self).health(name@) is None
                && forall|n: Seq<char>| n != name@ ==> final(self).service(n) == old(self).service(n)
                    && final(self).health(n) == old(self).health(n),
    {
        match self.position(name) {
            None => Err(ServiceError::ServiceNotFound(String::from_str(name))),
            Some(_) => {
                self.drop_name(name);
                self.health_checker.stop_health_check(name);
                proof {
                    lemma_without_key(entries_of(old(self).instances()), name@, name@);
                    assert forall|n: Seq<char>| n != name@ implies final(self).service(n) == old(self).service(n) by {
                        lemma_without_key(entries_of(old(self).instances()), name@, n);
                    }
                }
                Ok(())
            },
        }
    }

    /// The service registered under `name`, if any.
    pub fn get_service(&self, name: &str) -> (r: Option<&ServiceInstance<M>>)
        ensures
            r is None <==> self.service(name@) is None,
            r matches Some(s) ==> self.service(name@) == Some(*s),
    {
        match self.position(name) {
            Some(i) => Some(&self.services[i]),
            None => None,
        }
    }

    /// The names of the registered services, in the order they were
    /// registered.
    pub fn list_services(&self) -> (r: Vec<String>)
        ensures
            r@.len() == self.instances().len(),
            forall|i: int| 0 <= i < r@.len() ==> #[trigger] r@[i]@ == self.instances()[i].config.name@,
            forall|n: Seq<char>| (exists|i: int| 0 <= i < r@.len() && #[trigger] r@[i]@ == n) <==> self.service(n) is Some,
    {
        let mut r: Vec<String> = Vec::new();
        let mut i: usize = 0;
        while i < self.services.len()
            invariant
                i <= self.services@.len(),
                r@.len() == i,
                forall|j: int| 0 <= j < i ==> #[trigger] r@[j]@ == self.instances()[j].config.name@,
            decreases self.services@.len() - i,
        {
            r.push(self.services[i].config.name.clone());
            i = i + 1;
        }
        proof {
            let e = entries_of(self.instances());
            assert forall|n: Seq<char>| (exists|i: int| 0 <= i < r@.len() && #[trigger] r@[i]@ == n) <==> self.service(n) is Some by {
                lemma_last_value_some(e, n);
                if exists|i: int| 0 <= i < r@.len() && #[trigger] r@[i]@ == n {
                    let i = choose|i: int| 0 <= i < r@.len() && #[trigger] r@[i]@ == n;
                    assert(e[i].0 == n);
                }
                if exists|i: int| 0 <= i < e.len() && #[trigger] e[i].0 == n {
                    let i = choose|i: int| 0 <= i < e.len() && #[trigger] e[i].0 == n;
                    assert(r@[i]@ == n);
                }
            }
        }
        r
    }

    /// The position of the first service whose path is `path`, if any.
    fn find_path(&self, path: &str) -> (r: Option<usize>)
        ensures
            match first_with_path(self.instances(), path@) {
                Some(i) => r matches Some(j) && j as int == i,
                None => r is None,
            },
            r matches Some(i) ==> i < self.instances().len(),
    {
        let ghost all = self.instances();
        proof {
            lemma_first_with_path_range(all, path@);
        }
        let mut i: usize = 0;
        while i < self.services.len()
            invariant
                i <= self.services@.len(),
                all == self.instances(),
                first_with_path(all.subrange(0, i as int), path@) is None,
            decreases self.services@.len() - i,
        {
            proof {
                assert(all.subrange(0, i + 1).drop_last() =~= all.subrange(0, i as int));
            }
            if str_eq(self.services[i].config.path.as_str(), path) {
                proof {
                    lemma_first_with_path_prefix(all, path@, i + 1);
                }
                return Some(i);
            }
            i = i + 1;
        }
        proof {
            assert(all.subrange(0, i as int) =~= all);
        }
        None
    }

    /// Routes `request` to the first service whose path is the request's
    /// path: none is an error; a method the service does not take, then a
    /// full service, is refused and changes nothing; else the service's
    /// module answers by the request's method, its failure becomes a module
    /// error, and the service counts the request (and the failure).
    pub fn handle_request(&mut self, request: &IcapRequest) -> (r: Result<IcapResponse, ServiceError>)
        ensures
            ({
                let path = request_path(request.uri@);
                let old_s = old(self).instances();
                match first_with_path(old_s, path) {
                    None => (r matches Err(ServiceError::ServiceNotFound(m)) && m@ == path)
                        && final(self).instances() == old_s,
                    Some(i) => {
                        let s = old_s[i];
                        if !s.config.methods@.contains(request.method) {
                            (r matches Err(ServiceError::MethodNotSupported(m)) && m@ == method_name(request.method))
                                && final(self).instances() == old_s
                        } else if s.connection_count >= s.config.max_connections {
                            r matches Err(ServiceError::TooManyConnections) && final(self).instances() == old_s
                        } else {
                            &&& (r is Ok || r matches Err(ServiceError::ModuleError(_)))
                            &&& final(self).instances() == old_s.update(
                                i,
                                ServiceInstance { metrics: metrics_after(s.metrics, r is Err), ..s },
                            )
                        }
                    },
                }
            }),
            forall|n: Seq<char>| final(self).health(n) == old(self).health(n),
    {
        let path = match uri_path(request.uri.as_str()) {
            Some(p) => p,
            None => String::new(),
        };
        let ghost all = self.instances();
        proof {
            assert(path@ == request_path(request.uri@));
            lemma_first_with_path_range(all, path@);
        }
        let i = match self.find_path(path.as_str()) {
            Some(i) => i,
            None => {
                return Err(ServiceError::ServiceNotFound(path));
            },
        };
        proof {
            assert(first_with_path(all, path@) == Some(i as int));
        }
        let checked = check_service_request(&self.services[i].config, self.services[i].connection_count, request.method);
        if let Err(e) = checked {
            return Err(e);
        }
        let mut inst = self.services.remove(i);
        let result = match request.method {
            IcapMethod::Reqmod => inst.module.handle_reqmod(request),
            IcapMethod::Respmod => inst.module.handle_respmod(request),
            IcapMethod::Options => inst.module.handle_options(request),
        };
        let r = record_module_result(&mut inst.metrics, result);
        self.services.insert(i, inst);
        proof {
            assert(self.instances() =~= all.update(i as int, ServiceInstance { metrics: metrics_after(all[i as int].metrics, r is Err), ..all[i as int] }));
        }
        r
    }

    /// The counters of the service registered under `name`, if any.
    pub fn get_service_metrics(&self, name: &str) -> (r: Option<ServiceMetrics>)
        ensures
            match self.service(name@) {
                Some(s) => r == Some(s.metrics),
                None => r is None,
            },
    {
        match self.position(name) {
            Some(i) => Some(self.services[i].metrics),
            None => None,
        }
    }

    /// The counters of every registered service, by name, in the order the
    /// services were registered.
    pub fn get_all_metrics(&self) -> (r: Vec<(String, ServiceMetrics)>)
        ensures
            r@.len() == self.instances().len(),
            forall|i: int| 0 <= i < r@.len() ==> (#[trigger] r@[i]).0@ == self.instances()[i].config.name@
                && r@[i].1 == self.instances()[i].metrics,
    {
        let mut r: Vec<(String, ServiceMetrics)> = Vec::new();
        let mut i: usize = 0;
        while i < self.services.len()
            invariant
                i <= self.services@.len(),
                r@.len() == i,
                forall|j: int| 0 <= j < i ==> (#[trigger] r@[j]).0@ == self.instances()[j].config.name@
                    && r@[j].1 == self.instances()[j].metrics,
            decreases self.services@.len() - i,
        {
            r.push((self.services[i].config.name.clone(), self.services[i].metrics));
            i = i + 1;
        }
        r
    }

    /// True when `name` is recorded as healthy.
    pub fn is_service_healthy(&self, name: &str) -> (r: bool)
        ensures
            r == (self.health(name@) == Some(true)),
    {
        self.health_checker.is_healthy(name)
    }
}

} // verus!
