//! Counters of the server's work, and the metrics they are reported as.
//!
//! Every counter wraps around at 2^64, as an atomic `fetch_add` or
//! `fetch_sub` does.

use vstd::prelude::*;

verus! {

/// `a + b` wrapped around at 2^64.
pub open spec fn wrap_add(a: u64, b: u64) -> u64 {
    ((a + b) % 0x1_0000_0000_0000_0000) as u64
}

/// `a - b` wrapped around at 2^64.
pub open spec fn wrap_sub(a: u64, b: u64) -> u64 {
    ((a - b + 0x1_0000_0000_0000_0000) % 0x1_0000_0000_0000_0000) as u64
}

/// The values of the counters.
pub ghost struct StatsCounts {
    pub total_requests: u64,
    pub reqmod_requests: u64,
    pub respmod_requests: u64,
    pub options_requests: u64,
    pub successful_responses: u64,
    pub error_responses: u64,
    pub blocked_requests: u64,
    pub total_bytes: u64,
    pub active_connections: u64,
    pub total_connections: u64,
    pub connection_errors: u64,
    pub total_processing_time: u64,
}

/// All counters at zero.
pub open spec fn zero_counts() -> StatsCounts {
    StatsCounts {
        total_requests: 0,
        reqmod_requests: 0,
        respmod_requests: 0,
        options_requests: 0,
        successful_responses: 0,
        error_responses: 0,
        blocked_requests: 0,
        total_bytes: 0,
        active_connections: 0,
        total_connections: 0,
        connection_errors: 0,
        total_processing_time: 0,
    }
}

/// The average processing time per request in microseconds (0 before the
/// first request).
pub open spec fn avg_processing_time(c: StatsCounts) -> u64 {
    if c.total_requests > 0 {
        (c.total_processing_time / c.total_requests) as u64
    } else {
        0
    }
}

/// How a metric is reported.
#[derive(PartialEq, Eq, Structural, Clone, Copy, Debug)]
pub enum MetricKind {
    Counter,
    Gauge,
}

/// One metric to report: its name, value and kind, and whether it carries
/// the daemon group tag.
#[derive(Clone, Debug)]
pub struct StatsMetric {
    pub name: &'static str,
    pub value: u64,
    pub kind: MetricKind,
    pub tagged: bool,
}

/// A metric as a value of the model.
pub type MetricView = (Seq<char>, u64, MetricKind, bool);

pub open spec fn metric_view(m: StatsMetric) -> MetricView {
    (m.name@, m.value, m.kind, m.tagged)
}

/// What a report of the counters holds, in order: the counters, tagged;
/// the active connections as a tagged gauge; and, once there was a request,
/// the average processing time as a gauge without tags.
pub open spec fn stats_report(c: StatsCounts) -> Seq<MetricView> {
    let base = seq![
        ("icap.requests.total"@, c.total_requests, MetricKind::Counter, true),
        ("icap.requests.reqmod"@, c.reqmod_requests, MetricKind::Counter, true),
        ("icap.requests.respmod"@, c.respmod_requests, MetricKind::Counter, true),
        ("icap.requests.options"@, c.options_requests, MetricKind::Counter, true),
        ("icap.responses.successful"@, c.successful_responses, MetricKind::Counter, true),
        ("icap.responses.error"@, c.error_responses, MetricKind::Counter, true),
        ("icap.requests.blocked"@, c.blocked_requests, MetricKind::Counter, true),
        ("icap.bytes.total"@, c.total_bytes, MetricKind::Counter, true),
        ("icap.connections.total"@, c.total_connections, MetricKind::Counter, true),
        ("icap.connections.error"@, c.connection_errors, MetricKind::Counter, true),
        ("icap.processing_time.total"@, c.total_processing_time, MetricKind::Counter, true),
        ("icap.connections.active"@, c.active_connections, MetricKind::Gauge, true),
    ];
    if c.total_requests > 0 {
        base.push(("icap.processing_time.avg"@, avg_processing_time(c), MetricKind::Gauge, false))
    } else {
        base
    }
}

/// Removing a connection undoes adding one for the active count, and
/// leaves the count of all connections one up.
pub proof fn lemma_remove_undoes_add(c: StatsCounts)
    ensures
        ({
            let added = StatsCounts {
                total_connections: wrap_add(c.total_connections, 1),
                active_connections: wrap_add(c.active_connections, 1),
                ..c
            };
            let removed = StatsCounts { active_connections: wrap_sub(added.active_connections, 1), ..added };
            &&& removed.active_connections == c.active_connections
            &&& removed.total_connections == wrap_add(c.total_connections, 1)
        }),
{
}

/// The server's counters.
#[derive(Debug)]
pub struct IcapStats {
    total_requests: u64,
    reqmod_requests: u64,
    respmod_requests: u64,
    options_requests: u64,
    successful_responses: u64,
    error_responses: u64,
    blocked_requests: u64,
    total_bytes: u64,
    active_connections: u64,
    total_connections: u64,
    connection_errors: u64,
    total_processing_time: u64,
}

impl View for IcapStats {
    type V = StatsCounts;

    closed spec fn view(&self) -> StatsCounts {
        StatsCounts {
            total_requests: self.total_requests,
            reqmod_requests: self.reqmod_requests,
            respmod_requests: self.respmod_requests,
            options_requests: self.options_requests,
            successful_responses: self.successful_responses,
            error_responses: self.error_responses,
            blocked_requests: self.blocked_requests,
            total_bytes: self.total_bytes,
            active_connections: self.active_connections,
            total_connections: self.total_connections,
            connection_errors: self.connection_errors,
            total_processing_time: self.total_processing_time,
        }
    }
}

impl IcapStats {
    /// All counters at zero.
    pub fn new() -> (r: Self)
        ensures
            r@ == zero_counts(),
    {
        IcapStats {
            total_requests: 0,
            reqmod_requests: 0,
            respmod_requests: 0,
            options_requests: 0,
            successful_responses: 0,
            error_responses: 0,
            blocked_requests: 0,
            total_bytes: 0,
            active_connections: 0,
            total_connections: 0,
            connection_errors: 0,
            total_processing_time: 0,
        }
    }

    /// Counts a request.
    pub fn increment_requests(&mut self)
        ensures
            final(self)@ == (StatsCounts { total_requests: wrap_add(old(self)@.total_requests, 1), ..old(self)@ }),
    {
        self.total_requests = self.total_requests.wrapping_add(1);
    }

    /// Counts a REQMOD request.
    pub fn increment_reqmod_requests(&mut self)
        ensures
            final(self)@ == (StatsCounts { reqmod_requests: wrap_add(old(self)@.reqmod_requests, 1), ..old(self)@ }),
    {
        self.reqmod_requests = self.reqmod_requests.wrapping_add(1);
    }

    /// Counts a RESPMOD request.
    pub fn increment_respmod_requests(&mut self)
        ensures
            final(self)@ == (StatsCounts { respmod_requests: wrap_add(old(self)@.respmod_requests, 1), ..old(self)@ }),
    {
        self.respmod_requests = self.respmod_requests.wrapping_add(1);
    }

    /// Counts an OPTIONS request.
    pub fn increment_options_requests(&mut self)
        ensures
            final(self)@ == (StatsCounts { options_requests: wrap_add(old(self)@.options_requests, 1), ..old(self)@ }),
    {
        self.options_requests = self.options_requests.wrapping_add(1);
    }

    /// Counts a successful response.
    pub fn increment_successful_responses(&mut self)
        ensures
            final(self)@ == (StatsCounts {
                successful_responses: wrap_add(old(self)@.successful_responses, 1),
                ..old(self)@
            }),
    {
        self.successful_responses = self.successful_responses.wrapping_add(1);
    }

    /// Counts an error response.
    pub fn increment_error_responses(&mut self)
        ensures
            final(self)@ == (StatsCounts { error_responses: wrap_add(old(self)@.error_responses, 1), ..old(self)@ }),
    {
        self.error_responses = self.error_responses.wrapping_add(1);
    }

    /// Counts an answer that was sent: a success when its status is 2xx,
    /// else an error.
    pub fn record_response(&mut self, status: u16)
        ensures
            200 <= status < 300 ==> final(self)@ == (StatsCounts {
                successful_responses: wrap_add(old(self)@.successful_responses, 1),
                ..old(self)@
            }),
            !(200 <= status < 300) ==> final(self)@ == (StatsCounts {
                error_responses: wrap_add(old(self)@.error_responses, 1),
                ..old(self)@
            }),
    {
        if 200 <= status && status < 300 {
            self.increment_successful_responses();
        } else {
            self.increment_error_responses();
        }
    }

    /// Counts a connection, which is active from now on.
    pub fn increment_connections(&mut self)
        ensures
            final(self)@ == (StatsCounts {
                total_connections: wrap_add(old(self)@.total_connections, 1),
                active_connections: wrap_add(old(self)@.active_connections, 1),
                ..old(self)@
            }),
    {
        self.total_connections = self.total_connections.wrapping_add(1);
        self.active_connections = self.active_connections.wrapping_add(1);
    }

    /// One active connection fewer.
    pub fn decrement_active_connections(&mut self)
        ensures
            final(self)@ == (StatsCounts {
                active_connections: wrap_sub(old(self)@.active_connections, 1),
                ..old(self)@
            }),
    {
        self.active_connections = self.active_connections.wrapping_sub(1);
    }

    /// Counts a connection error.
    pub fn increment_errors(&mut self)
        ensures
            final(self)@ == (StatsCounts { connection_errors: wrap_add(old(self)@.connection_errors, 1), ..old(self)@ }),
    {
        self.connection_errors = self.connection_errors.wrapping_add(1);
    }

    /// Counts a blocked request.
    pub fn increment_blocked_requests(&mut self)
        ensures
            final(self)@ == (StatsCounts { blocked_requests: wrap_add(old(self)@.blocked_requests, 1), ..old(self)@ }),
    {
        self.blocked_requests = self.blocked_requests.wrapping_add(1);
    }

    /// Adds `bytes` processed bytes.
    pub fn add_bytes(&mut self, bytes: u64)
        ensures
            final(self)@ == (StatsCounts { total_bytes: wrap_add(old(self)@.total_bytes, bytes), ..old(self)@ }),
    {
        self.total_bytes = self.total_bytes.wrapping_add(bytes);
    }

    /// Adds `time_us` microseconds of processing.
    pub fn add_processing_time(&mut self, time_us: u64)
        ensures
            final(self)@ == (StatsCounts {
                total_processing_time: wrap_add(old(self)@.total_processing_time, time_us),
                ..old(self)@
            }),
    {
        self.total_processing_time = self.total_processing_time.wrapping_add(time_us);
    }

    /// Counts a connection, which is active from now on.
    pub fn add_connection(&mut self)
        ensures
            final(self)@ == (StatsCounts {
                total_connections: wrap_add(old(self)@.total_connections, 1),
                active_connections: wrap_add(old(self)@.active_connections, 1),
                ..old(self)@
            }),
    {
        self.total_connections = self.total_connections.wrapping_add(1);
        self.active_connections = self.active_connections.wrapping_add(1);
    }

    /// One active connection fewer.
    pub fn remove_connection(&mut self)
        ensures
            final(self)@ == (StatsCounts {
                active_connections: wrap_sub(old(self)@.active_connections, 1),
                ..old(self)@
            }),
    {
        self.active_connections = self.active_connections.wrapping_sub(1);
    }

    /// Counts a connection error.
    pub fn add_connection_error(&mut self)
        ensures
            final(self)@ == (StatsCounts { connection_errors: wrap_add(old(self)@.connection_errors, 1), ..old(self)@ }),
    {
        self.connection_errors = self.connection_errors.wrapping_add(1);
    }

    /// The metrics that report the counters, in the order they are sent.
    pub fn emit_stats(&self) -> (r: Vec<StatsMetric>)
        ensures
            r@.map_values(|m: StatsMetric| metric_view(m)) == stats_report(self@),
    {
        let mut v: Vec<StatsMetric> = Vec::new();
        v.push(StatsMetric { name: "icap.requests.total", value: self.total_requests, kind: MetricKind::Counter, tagged: true });
        v.push(StatsMetric { name: "icap.requests.reqmod", value: self.reqmod_requests, kind: MetricKind::Counter, tagged: true });
        v.push(StatsMetric { name: "icap.requests.respmod", value: self.respmod_requests, kind: MetricKind::Counter, tagged: true });
        v.push(StatsMetric { name: "icap.requests.options", value: self.options_requests, kind: MetricKind::Counter, tagged: true });
        v.push(StatsMetric { name: "icap.responses.successful", value: self.successful_responses, kind: MetricKind::Counter, tagged: true });
        v.push(StatsMetric { name: "icap.responses.error", value: self.error_responses, kind: MetricKind::Counter, tagged: true });
        v.push(StatsMetric { name: "icap.requests.blocked", value: self.blocked_requests, kind: MetricKind::Counter, tagged: true });
        v.push(StatsMetric { name: "icap.bytes.total", value: self.total_bytes, kind: MetricKind::Counter, tagged: true });
        v.push(StatsMetric { name: "icap.connections.total", value: self.total_connections, kind: MetricKind::Counter, tagged: true });
        v.push(StatsMetric { name: "icap.connections.error", value: self.connection_errors, kind: MetricKind::Counter, tagged: true });
        v.push(StatsMetric { name: "icap.processing_time.total", value: self.total_processing_time, kind: MetricKind::Counter, tagged: true });
        v.push(StatsMetric { name: "icap.connections.active", value: self.active_connections, kind: MetricKind::Gauge, tagged: true });
        if self.total_requests > 0 {
            let avg = self.total_processing_time / self.total_requests;
            v.push(StatsMetric { name: "icap.processing_time.avg", value: avg, kind: MetricKind::Gauge, tagged: false });
        }
        proof {
            assert(v@.map_values(|m: StatsMetric| metric_view(m)) =~= stats_report(self@));
        }
        v
    }

    /// Requests counted.
    pub fn total_requests(&self) -> (r: u64)
        ensures
            r == self@.total_requests,
    {
        self.total_requests
    }

    /// REQMOD requests counted.
    pub fn reqmod_requests(&self) -> (r: u64)
        ensures
            r == self@.reqmod_requests,
    {
        self.reqmod_requests
    }

    /// RESPMOD requests counted.
    pub fn respmod_requests(&self) -> (r: u64)
        ensures
            r == self@.respmod_requests,
    {
        self.respmod_requests
    }

    /// OPTIONS requests counted.
    pub fn options_requests(&self) -> (r: u64)
        ensures
            r == self@.options_requests,
    {
        self.options_requests
    }

    /// Successful responses counted.
    pub fn successful_responses(&self) -> (r: u64)
        ensures
            r == self@.successful_responses,
    {
        self.successful_responses
    }

    /// Error responses counted.
    pub fn error_responses(&self) -> (r: u64)
        ensures
            r == self@.error_responses,
    {
        self.error_responses
    }

    /// Blocked requests counted.
    pub fn blocked_requests(&self) -> (r: u64)
        ensures
            r == self@.blocked_requests,
    {
        self.blocked_requests
    }

    /// Bytes processed.
    pub fn total_bytes(&self) -> (r: u64)
        ensures
            r == self@.total_bytes,
    {
        self.total_bytes
    }

    /// Connections active.
    pub fn active_connections(&self) -> (r: u64)
        ensures
            r == self@.active_connections,
    {
        self.active_connections
    }

    /// Connections counted.
    pub fn get_total_connections(&self) -> (r: u64)
        ensures
            r == self@.total_connections,
    {
        self.total_connections
    }

    /// Connection errors counted.
    pub fn get_connection_errors(&self) -> (r: u64)
        ensures
            r == self@.connection_errors,
    {
        self.connection_errors
    }

    /// Processing time in microseconds.
    pub fn get_total_processing_time(&self) -> (r: u64)
        ensures
            r == self@.total_processing_time,
    {
        self.total_processing_time
    }

    /// Average processing time per request in microseconds.
    pub fn get_avg_processing_time(&self) -> (r: u64)
        ensures
            r == avg_processing_time(self@),
    {
        if self.total_requests > 0 {
            self.total_processing_time / self.total_requests
        } else {
            0
        }
    }
}

impl Default for IcapStats {
    fn default() -> (r: Self)
        ensures
            r@ == zero_counts(),
    {
        Self::new()
    }
}

} // verus!
