//! Health checks for the coordinator: liveness, readiness, startup and the
//! detailed report, built from what the server measured.
use vstd::prelude::*;
use std::time::Instant;
use crate::clock::{instant_now, elapsed_secs};
use crate::coordinator::registry::RegistryStats;
use crate::text::{decimal, push_decimal, push_str, string_of};

verus! {

/// Health status for components.
#[derive(Debug, Clone, Copy, PartialEq, Eq, Structural)]
pub enum HealthStatus {
    /// Component is healthy
    Healthy,
    /// Component is degraded but functional
    Degraded,
    /// Component is unhealthy
    Unhealthy,
}

impl HealthStatus {
    /// The lower-case name of a status.
    pub open spec fn spec_name(self) -> Seq<char> {
        match self {
            HealthStatus::Healthy => "healthy"@,
            HealthStatus::Degraded => "degraded"@,
            HealthStatus::Unhealthy => "unhealthy"@,
        }
    }

    /// Get string representation.
    pub fn as_str(&self) -> (r: &'static str)
        ensures
            r@ == self.spec_name(),
    {
        match self {
            HealthStatus::Healthy => "healthy",
            HealthStatus::Degraded => "degraded",
            HealthStatus::Unhealthy => "unhealthy",
        }
    }

    /// The HTTP status code to answer with: 200, so that a degraded
    /// coordinator keeps running, and 503 when unhealthy.
    pub fn status_code(&self) -> (r: u16)
        ensures
            r == if *self == HealthStatus::Unhealthy { 503u16 } else { 200u16 },
    {
        match self {
            HealthStatus::Healthy => 200,
            HealthStatus::Degraded => 200,
            HealthStatus::Unhealthy => 503,
        }
    }
}

/// Individual component health check result.
#[derive(Debug)]
pub struct ComponentHealth {
    /// Component name
    pub name: String,
    /// Health status
    pub status: HealthStatus,
    /// Optional message
    pub message: Option<String>,
    /// Check latency in milliseconds
    pub latency_ms: Option<u64>,
}

/// Liveness probe response.
#[derive(Debug)]
pub struct LivenessResponse {
    pub status: HealthStatus,
    pub timestamp: String,
}

/// Readiness probe response.
#[derive(Debug)]
pub struct ReadinessResponse {
    pub status: HealthStatus,
    pub timestamp: String,
    pub checks: Vec<ComponentHealth>,
}

/// Startup probe response.
#[derive(Debug)]
pub struct StartupResponse {
    pub ready: bool,
    pub status: HealthStatus,
    pub timestamp: String,
    pub message: Option<String>,
}

/// Detailed health response.
#[derive(Debug)]
pub struct HealthResponse {
    pub status: HealthStatus,
    pub version: String,
    pub uptime_secs: u64,
    pub timestamp: String,
    pub checks: Vec<ComponentHealth>,
}

/// Health checker state: whether startup finished and whether the
/// application takes traffic.
#[derive(Debug)]
pub struct HealthChecker {
    startup_complete: bool,
    ready: bool,
    start_time: Instant,
}

impl HealthChecker {
    pub closed spec fn spec_startup_complete(&self) -> bool {
        self.startup_complete
    }

    pub closed spec fn spec_ready(&self) -> bool {
        self.ready
    }

    /// Create a new health checker, started now.
    pub fn new() -> (r: Self)
        ensures
            !r.spec_startup_complete(),
            !r.spec_ready(),
    {
        HealthChecker { startup_complete: false, ready: false, start_time: instant_now() }
    }

    /// Mark startup as complete.
    pub fn mark_startup_complete(&mut self)
        ensures
            final(self).spec_startup_complete(),
            final(self).spec_ready() == old(self).spec_ready(),
    {
        self.startup_complete = true;
    }

    /// Mark application as ready to receive traffic.
    pub fn mark_ready(&mut self)
        ensures
            final(self).spec_ready(),
            final(self).spec_startup_complete() == old(self).spec_startup_complete(),
    {
        self.ready = true;
    }

    /// Mark application as not ready (e.g., during shutdown).
    pub fn mark_not_ready(&mut self)
        ensures
            !final(self).spec_ready(),
            final(self).spec_startup_complete() == old(self).spec_startup_complete(),
    {
        self.ready = false;
    }

    /// Check if startup is complete.
    pub fn is_startup_complete(&self) -> (r: bool)
        ensures
            r == self.spec_startup_complete(),
    {
        self.startup_complete
    }

    /// Check if application is ready.
    pub fn is_ready(&self) -> (r: bool)
        ensures
            r == self.spec_ready(),
    {
        self.ready
    }

    /// Get uptime in seconds. It depends on the time of the call, so nothing
    /// more is stated of it.
    pub fn uptime_secs(&self) -> (r: u64) {
        elapsed_secs(&self.start_time)
    }
}

impl Default for HealthChecker {
    fn default() -> (r: Self)
        ensures
            !r.spec_startup_complete(),
            !r.spec_ready(),
    {
        HealthChecker::new()
    }
}

/// `"true"` or `"false"`.
pub open spec fn bool_text(b: bool) -> Seq<char> {
    if b { "true"@ } else { "false"@ }
}

fn push_bool(out: &mut Vec<char>, b: bool)
    ensures
        final(out)@ == old(out)@ + bool_text(b),
{
    if b {
        push_str(out, "true");
    } else {
        push_str(out, "false");
    }
}

fn text(s: &str) -> (r: String)
    ensures
        r@ == s@,
{
    s.to_owned()
}

/// A component check with a message and, when measured, a latency.
pub open spec fn is_check(c: ComponentHealth, name: Seq<char>, status: HealthStatus, message: Seq<char>, latency: Option<u64>) -> bool {
    &&& c.name@ == name
    &&& c.status == status
    &&& c.message matches Some(m) && m@ == message
    &&& c.latency_ms == latency
}

/// Liveness: the process answers, so it is healthy.
pub fn liveness_report(timestamp: String) -> (r: LivenessResponse)
    ensures
        r.status == HealthStatus::Healthy,
        r.timestamp == timestamp,
{
    LivenessResponse { status: HealthStatus::Healthy, timestamp }
}

/// Readiness: the registry and the schedule cache, plus a warm-up check for
/// the first ten seconds. An invalid cache or the warm-up degrade it.
pub fn readiness_report(
    registered: usize,
    registry_latency_ms: u64,
    cache_valid: bool,
    cache_has_schedule: bool,
    cache_latency_ms: u64,
    uptime_secs: u64,
    timestamp: String,
) -> (r: ReadinessResponse)
    ensures
        r.timestamp == timestamp,
        r.status == if cache_valid && uptime_secs >= 10 { HealthStatus::Healthy } else { HealthStatus::Degraded },
        r.checks@.len() == if uptime_secs < 10 { 3int } else { 2int },
        is_check(
            r.checks@[0],
            "registry"@,
            HealthStatus::Healthy,
            decimal(registered as nat) + " instances registered"@,
            Some(registry_latency_ms),
        ),
        is_check(
            r.checks@[1],
            "schedule_cache"@,
            if cache_valid { HealthStatus::Healthy } else { HealthStatus::Degraded },
            if cache_has_schedule { "schedule loaded"@ } else { "no schedule cached"@ },
            Some(cache_latency_ms),
        ),
        uptime_secs < 10 ==> is_check(
            r.checks@[2],
            "startup"@,
            HealthStatus::Degraded,
            "warming up ("@ + decimal(uptime_secs as nat) + "s uptime)"@,
            None,
        ),
{
    let mut checks: Vec<ComponentHealth> = Vec::new();
    let mut overall = HealthStatus::Healthy;
    let mut m: Vec<char> = Vec::new();
    push_decimal(&mut m, registered as u64);
    push_str(&mut m, " instances registered");
    checks.push(ComponentHealth {
        name: text("registry"),
        status: HealthStatus::Healthy,
        message: Some(string_of(m.as_slice())),
        latency_ms: Some(registry_latency_ms),
    });
    let cache_health = if cache_valid {
        HealthStatus::Healthy
    } else {
        overall = HealthStatus::Degraded;
        HealthStatus::Degraded
    };
    checks.push(ComponentHealth {
        name: text("schedule_cache"),
        status: cache_health,
        message: Some(if cache_has_schedule { text("schedule loaded") } else { text("no schedule cached") }),
        latency_ms: Some(cache_latency_ms),
    });
    if uptime_secs < 10 {
        overall = HealthStatus::Degraded;
        let mut w: Vec<char> = Vec::new();
        push_str(&mut w, "warming up (");
        push_decimal(&mut w, uptime_secs);
        push_str(&mut w, "s uptime)");
        checks.push(ComponentHealth {
            name: text("startup"),
            status: HealthStatus::Degraded,
            message: Some(string_of(w.as_slice())),
            latency_ms: None,
        });
    }
    ReadinessResponse { status: overall, timestamp, checks }
}

/// Startup: ready after five seconds of uptime.
pub fn startup_report(uptime_secs: u64, timestamp: String) -> (r: StartupResponse)
    ensures
        r.ready == (uptime_secs >= 5),
        r.status == if uptime_secs >= 5 { HealthStatus::Healthy } else { HealthStatus::Unhealthy },
        r.timestamp == timestamp,
        uptime_secs >= 5 ==> r.message is None,
        uptime_secs < 5 ==> (r.message matches Some(m) && m@ == "starting up... ("@ + decimal(uptime_secs as nat)
            + "s elapsed)"@),
{
    let ready = uptime_secs >= 5;
    if ready {
        StartupResponse { ready, status: HealthStatus::Healthy, timestamp, message: None }
    } else {
        let mut m: Vec<char> = Vec::new();
        push_str(&mut m, "starting up... (");
        push_decimal(&mut m, uptime_secs);
        push_str(&mut m, "s elapsed)");
        StartupResponse {
            ready,
            status: HealthStatus::Unhealthy,
            timestamp,
            message: Some(string_of(m.as_slice())),
        }
    }
}

/// The detailed report: the registry is degraded when instances are
/// registered and none is online; the cache is degraded when invalid; the
/// rotation scheduler is operational. Only the registry sets the overall
/// status.
pub fn health_report(
    stats: RegistryStats,
    registry_latency_ms: u64,
    cache_valid: bool,
    cache_has_schedule: bool,
    cache_latency_ms: u64,
    uptime_secs: u64,
    version: String,
    timestamp: String,
) -> (r: HealthResponse)
    ensures
        r.status == if stats.online > 0 || stats.total_instances == 0 {
            HealthStatus::Healthy
        } else {
            HealthStatus::Degraded
        },
        r.version == version,
        r.uptime_secs == uptime_secs,
        r.timestamp == timestamp,
        r.checks@.len() == 3,
        is_check(
            r.checks@[0],
            "instance_registry"@,
            r.status,
            decimal(stats.total_instances as nat) + " total, "@ + decimal(stats.online as nat) + " online, "@
                + decimal(stats.offline as nat) + " offline"@,
            Some(registry_latency_ms),
        ),
        is_check(
            r.checks@[1],
            "schedule_cache"@,
            if cache_valid { HealthStatus::Healthy } else { HealthStatus::Degraded },
            "valid: "@ + bool_text(cache_valid) + ", has_schedule: "@ + bool_text(cache_has_schedule),
            Some(cache_latency_ms),
        ),
        is_check(r.checks@[2], "rotation_scheduler"@, HealthStatus::Healthy, "operational"@, None),
{
    let mut checks: Vec<ComponentHealth> = Vec::new();
    let registry_status = if stats.online > 0 || stats.total_instances == 0 {
        HealthStatus::Healthy
    } else {
        HealthStatus::Degraded
    };
    let mut m: Vec<char> = Vec::new();
    push_decimal(&mut m, stats.total_instances as u64);
    push_str(&mut m, " total, ");
    push_decimal(&mut m, stats.online as u64);
    push_str(&mut m, " online, ");
    push_decimal(&mut m, stats.offline as u64);
    push_str(&mut m, " offline");
    checks.push(ComponentHealth {
        name: text("instance_registry"),
        status: registry_status,
        message: Some(string_of(m.as_slice())),
        latency_ms: Some(registry_latency_ms),
    });
    let mut c: Vec<char> = Vec::new();
    push_str(&mut c, "valid: ");
    push_bool(&mut c, cache_valid);
    push_str(&mut c, ", has_schedule: ");
    push_bool(&mut c, cache_has_schedule);
    checks.push(ComponentHealth {
        name: text("schedule_cache"),
        status: if cache_valid { HealthStatus::Healthy } else { HealthStatus::Degraded },
        message: Some(string_of(c.as_slice())),
        latency_ms: Some(cache_latency_ms),
    });
    checks.push(ComponentHealth {
        name: text("rotation_scheduler"),
        status: HealthStatus::Healthy,
        message: Some(text("operational")),
        latency_ms: None,
    });
    HealthResponse { status: registry_status, version, uptime_secs, timestamp, checks }
}

} // verus!
