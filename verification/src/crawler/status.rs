//! Status reporting and error recovery for distributed crawlers.
//!
//! The reporter keeps the crawler's health, counters and a bounded history of
//! errors; it decides when a recovery is attempted and how long to back off.
use vstd::prelude::*;
use std::time::{Duration, Instant};
use crate::clock::{now_unix_secs, instant_now, elapsed_secs, duration_of_secs, duration_from_secs};
use crate::scheduler::CrawlerInstance;
use crate::text::{
    chars_of, contains_lit, contains_seq, lowercase, to_lowercase, copy_string, copy_opt_string,
};

verus! {

/// Overall health status of the crawler.
#[derive(Debug, Clone, Copy, PartialEq, Eq, Structural)]
pub enum HealthStatus {
    /// All systems operational
    Healthy,
    /// Some issues detected but operational
    Degraded,
    /// Critical issues, may need intervention
    Unhealthy,
    /// Recovery in progress
    Recovering,
    /// Starting up
    Starting,
}

impl HealthStatus {
    /// The lower-case name of a status.
    pub open spec fn spec_name(self) -> Seq<char> {
        match self {
            HealthStatus::Healthy => "healthy"@,
            HealthStatus::Degraded => "degraded"@,
            HealthStatus::Unhealthy => "unhealthy"@,
            HealthStatus::Recovering => "recovering"@,
            HealthStatus::Starting => "starting"@,
        }
    }

    /// Lower-case name of the status, as it is displayed.
    pub fn as_str(&self) -> (r: &'static str)
        ensures
            r@ == self.spec_name(),
    {
        match self {
            HealthStatus::Healthy => "healthy",
            HealthStatus::Degraded => "degraded",
            HealthStatus::Unhealthy => "unhealthy",
            HealthStatus::Recovering => "recovering",
            HealthStatus::Starting => "starting",
        }
    }
}

impl Default for HealthStatus {
    fn default() -> (r: Self)
        ensures
            r == HealthStatus::Starting,
    {
        HealthStatus::Starting
    }
}

/// Detailed crawler status. Time stamps are Unix seconds.
#[derive(Debug)]
pub struct CrawlerStatus {
    /// Instance identifier
    pub instance_id: String,
    /// Current health status
    pub health: HealthStatus,
    /// Whether currently crawling
    pub is_crawling: bool,
    /// Current category being crawled
    pub current_category: Option<String>,
    /// Total articles crawled this session
    pub articles_crawled: u64,
    /// Total errors this session
    pub error_count: u64,
    /// Uptime in seconds
    pub uptime_secs: u64,
    /// Last successful crawl time
    pub last_success: Option<i64>,
    /// Last error time
    pub last_error: Option<i64>,
    /// Last error message
    pub last_error_message: Option<String>,
    /// Number of consecutive failures
    pub consecutive_failures: u32,
    /// Memory usage (if available)
    pub memory_mb: Option<u64>,
    /// Coordinator connection status
    pub coordinator_connected: bool,
    /// Database connection status
    pub database_connected: bool,
}

impl CrawlerStatus {
    /// A fresh status for an instance.
    pub fn starting(instance_id: String) -> (r: CrawlerStatus)
        ensures
            r.instance_id == instance_id,
            r.health == HealthStatus::Starting,
            !r.is_crawling,
            r.current_category is None,
            r.articles_crawled == 0,
            r.error_count == 0,
            r.uptime_secs == 0,
            r.last_success is None,
            r.last_error is None,
            r.last_error_message is None,
            r.consecutive_failures == 0,
            r.memory_mb is None,
            !r.coordinator_connected,
            !r.database_connected,
    {
        CrawlerStatus {
            instance_id,
            health: HealthStatus::Starting,
            is_crawling: false,
            current_category: None,
            articles_crawled: 0,
            error_count: 0,
            uptime_secs: 0,
            last_success: None,
            last_error: None,
            last_error_message: None,
            consecutive_failures: 0,
            memory_mb: None,
            coordinator_connected: false,
            database_connected: false,
        }
    }

    /// A field-by-field copy.
    pub fn copy(&self) -> (r: CrawlerStatus)
        ensures
            r == *self,
    {
        CrawlerStatus {
            instance_id: copy_string(&self.instance_id),
            health: self.health,
            is_crawling: self.is_crawling,
            current_category: copy_opt_string(&self.current_category),
            articles_crawled: self.articles_crawled,
            error_count: self.error_count,
            uptime_secs: self.uptime_secs,
            last_success: self.last_success,
            last_error: self.last_error,
            last_error_message: copy_opt_string(&self.last_error_message),
            consecutive_failures: self.consecutive_failures,
            memory_mb: self.memory_mb,
            coordinator_connected: self.coordinator_connected,
            database_connected: self.database_connected,
        }
    }
}

/// Categories of errors for recovery handling.
#[derive(Debug, Clone, Copy, PartialEq, Eq, Structural)]
pub enum ErrorCategory {
    /// Network-related errors (retryable)
    Network,
    /// Rate limiting or ban detected
    RateLimited,
    /// Database connection error
    Database,
    /// Coordinator communication error
    Coordinator,
    /// Parse error (usually not retryable)
    Parse,
    /// Unknown/other error
    Unknown,
}

/// The category of an error message, decided on its lower-case form with the
/// more specific patterns first.
pub open spec fn spec_classify(message: Seq<char>) -> ErrorCategory {
    let l = lowercase(message);
    if contains_seq(l, "database"@) || contains_seq(l, "postgres"@) || contains_seq(l, "sql"@)
        || contains_seq(l, "pool"@) {
        ErrorCategory::Database
    } else if contains_seq(l, "coordinator"@) || contains_seq(l, "heartbeat"@) {
        ErrorCategory::Coordinator
    } else if contains_seq(l, "rate limit"@) || contains_seq(l, "429"@) || contains_seq(
        l,
        "too many requests"@,
    ) || contains_seq(l, "blocked"@) {
        ErrorCategory::RateLimited
    } else if contains_seq(l, "timeout"@) || contains_seq(l, "connection"@) || contains_seq(
        l,
        "network"@,
    ) || contains_seq(l, "dns"@) {
        ErrorCategory::Network
    } else if contains_seq(l, "parse"@) || contains_seq(l, "invalid"@) || contains_seq(
        l,
        "malformed"@,
    ) {
        ErrorCategory::Parse
    } else {
        ErrorCategory::Unknown
    }
}

impl ErrorCategory {
    /// Errors that are worth retrying.
    pub open spec fn spec_is_retryable(self) -> bool {
        matches!(self, ErrorCategory::Network | ErrorCategory::RateLimited | ErrorCategory::Database | ErrorCategory::Coordinator)
    }

    /// Recommended backoff, in seconds.
    pub open spec fn spec_backoff_secs(self) -> u64 {
        match self {
            ErrorCategory::Network => 5,
            ErrorCategory::RateLimited => 60,
            ErrorCategory::Database => 10,
            ErrorCategory::Coordinator => 30,
            ErrorCategory::Parse => 1,
            ErrorCategory::Unknown => 5,
        }
    }

    /// Check if this error category is retryable.
    pub fn is_retryable(&self) -> (r: bool)
        ensures
            r == self.spec_is_retryable(),
    {
        match self {
            ErrorCategory::Network | ErrorCategory::RateLimited | ErrorCategory::Database
            | ErrorCategory::Coordinator => true,
            _ => false,
        }
    }

    /// Recommended backoff for this error type, in seconds.
    pub fn recommended_backoff_secs(&self) -> (r: u64)
        ensures
            r == self.spec_backoff_secs(),
    {
        match self {
            ErrorCategory::Network => 5,
            ErrorCategory::RateLimited => 60,
            ErrorCategory::Database => 10,
            ErrorCategory::Coordinator => 30,
            ErrorCategory::Parse => 1,
            ErrorCategory::Unknown => 5,
        }
    }

    /// Get recommended backoff for this error type.
    pub fn recommended_backoff(&self) -> (r: Duration)
        ensures
            r == duration_of_secs(self.spec_backoff_secs()),
    {
        duration_from_secs(self.recommended_backoff_secs())
    }

    /// Classify an error message.
    pub fn classify(error_message: &str) -> (r: ErrorCategory)
        ensures
            r == spec_classify(error_message@),
    {
        let lower = to_lowercase(error_message);
        let l = chars_of(lower.as_str());
        let h = l.as_slice();
        if contains_lit(h, "database") || contains_lit(h, "postgres") || contains_lit(h, "sql")
            || contains_lit(h, "pool") {
            ErrorCategory::Database
        } else if contains_lit(h, "coordinator") || contains_lit(h, "heartbeat") {
            ErrorCategory::Coordinator
        } else if contains_lit(h, "rate limit") || contains_lit(h, "429") || contains_lit(
            h,
            "too many requests",
        ) || contains_lit(h, "blocked") {
            ErrorCategory::RateLimited
        } else if contains_lit(h, "timeout") || contains_lit(h, "connection") || contains_lit(
            h,
            "network",
        ) || contains_lit(h, "dns") {
            ErrorCategory::Network
        } else if contains_lit(h, "parse") || contains_lit(h, "invalid") || contains_lit(
            h,
            "malformed",
        ) {
            ErrorCategory::Parse
        } else {
            ErrorCategory::Unknown
        }
    }
}

/// Error record for tracking. The time stamp is in Unix seconds.
#[derive(Debug)]
pub struct ErrorRecord {
    /// When the error occurred
    pub timestamp: i64,
    /// Error category
    pub category: ErrorCategory,
    /// Error message
    pub message: String,
    /// Context (e.g., URL, category)
    pub context: Option<String>,
    /// Whether recovery was attempted
    pub recovery_attempted: bool,
    /// Whether recovery succeeded
    pub recovered: bool,
}

impl ErrorRecord {
    /// A field-by-field copy.
    pub fn copy(&self) -> (r: ErrorRecord)
        ensures
            r == *self,
    {
        ErrorRecord {
            timestamp: self.timestamp,
            category: self.category,
            message: copy_string(&self.message),
            context: copy_opt_string(&self.context),
            recovery_attempted: self.recovery_attempted,
            recovered: self.recovered,
        }
    }
}

/// Recovery actions that can be taken.
///
/// A throttle factor is given in hundredths: `50` halves the rate.
#[derive(Debug)]
pub enum RecoveryAction {
    /// Wait and retry
    Backoff { duration: Duration },
    /// Reconnect to service
    Reconnect { service: String },
    /// Skip current item and continue
    Skip { reason: String },
    /// Reduce rate/concurrency to `factor_percent` hundredths
    Throttle { factor_percent: u32 },
    /// Restart component
    Restart { component: String },
    /// Alert operator
    Alert { message: String },
}

/// A back-off of `secs` seconds.
pub open spec fn is_backoff(a: RecoveryAction, secs: u64) -> bool {
    a matches RecoveryAction::Backoff { duration } && duration == duration_of_secs(secs)
}

/// A reconnection to `service`.
pub open spec fn is_reconnect(a: RecoveryAction, service: Seq<char>) -> bool {
    a matches RecoveryAction::Reconnect { service: s } && s@ == service
}

/// An alert with `message`.
pub open spec fn is_alert(a: RecoveryAction, message: Seq<char>) -> bool {
    a matches RecoveryAction::Alert { message: m } && m@ == message
}

/// The actions recommended after `failures` consecutive failures of a kind.
pub open spec fn recommended_actions(category: ErrorCategory, failures: u32, r: Seq<RecoveryAction>) -> bool {
    match category {
        ErrorCategory::Network => {
            &&& r.len() == if failures > 3 { 2int } else { 1int }
            &&& is_backoff(r[0], (5 * failures) as u64)
            &&& failures > 3 ==> is_reconnect(r[1], "network"@)
        },
        ErrorCategory::RateLimited => {
            &&& r.len() == if failures > 2 { 3int } else { 2int }
            &&& is_backoff(r[0], 60)
            &&& r[1] matches RecoveryAction::Throttle { factor_percent } && factor_percent == 50
            &&& failures > 2 ==> is_alert(r[2], "Rate limiting detected"@)
        },
        ErrorCategory::Database => {
            &&& r.len() == 2
            &&& is_backoff(r[0], 10)
            &&& is_reconnect(r[1], "database"@)
        },
        ErrorCategory::Coordinator => {
            &&& r.len() == 2
            &&& is_backoff(r[0], 30)
            &&& is_reconnect(r[1], "coordinator"@)
        },
        ErrorCategory::Parse => {
            &&& r.len() == 1
            &&& r[0] matches RecoveryAction::Skip { reason } && reason@ == "Parse error"@
        },
        ErrorCategory::Unknown => {
            &&& r.len() == if failures > 5 { 2int } else { 1int }
            &&& is_backoff(r[0], 5)
            &&& failures > 5 ==> is_alert(r[1], "Multiple unknown errors"@)
        },
    }
}

fn text(s: &str) -> (r: String)
    ensures
        r@ == s@,
{
    s.to_owned()
}

impl RecoveryAction {
    /// Get recommended actions for an error category, in the order to take them.
    pub fn recommend(category: ErrorCategory, consecutive_failures: u32) -> (r: Vec<RecoveryAction>)
        ensures
            recommended_actions(category, consecutive_failures, r@),
    {
        let mut actions: Vec<RecoveryAction> = Vec::new();
        match category {
            ErrorCategory::Network => {
                actions.push(RecoveryAction::Backoff { duration: duration_from_secs(5 * consecutive_failures as u64) });
                if consecutive_failures > 3 {
                    actions.push(RecoveryAction::Reconnect { service: text("network") });
                }
            },
            ErrorCategory::RateLimited => {
                actions.push(RecoveryAction::Backoff { duration: duration_from_secs(60) });
                actions.push(RecoveryAction::Throttle { factor_percent: 50 });
                if consecutive_failures > 2 {
                    actions.push(RecoveryAction::Alert { message: text("Rate limiting detected") });
                }
            },
            ErrorCategory::Database => {
                actions.push(RecoveryAction::Backoff { duration: duration_from_secs(10) });
                actions.push(RecoveryAction::Reconnect { service: text("database") });
            },
            ErrorCategory::Coordinator => {
                actions.push(RecoveryAction::Backoff { duration: duration_from_secs(30) });
                actions.push(RecoveryAction::Reconnect { service: text("coordinator") });
            },
            ErrorCategory::Parse => {
                actions.push(RecoveryAction::Skip { reason: text("Parse error") });
            },
            ErrorCategory::Unknown => {
                actions.push(RecoveryAction::Backoff { duration: duration_from_secs(5) });
                if consecutive_failures > 5 {
                    actions.push(RecoveryAction::Alert { message: text("Multiple unknown errors") });
                }
            },
        }
        actions
    }
}

/// Configuration for status reporting.
#[derive(Debug, Clone, Copy, PartialEq, Eq)]
pub struct StatusReporterConfig {
    /// Instance ID
    pub instance_id: CrawlerInstance,
    /// How often to send status updates (seconds)
    pub report_interval_secs: u64,
    /// Maximum errors to keep in history
    pub max_error_history: usize,
    /// Consecutive failures before marking unhealthy
    pub unhealthy_threshold: u32,
    /// Enable automatic recovery
    pub enable_auto_recovery: bool,
    /// Maximum recovery attempts
    pub max_recovery_attempts: u32,
}

impl StatusReporterConfig {
    /// The default configuration for an instance.
    pub open spec fn spec_default_for(instance: CrawlerInstance) -> StatusReporterConfig {
        StatusReporterConfig {
            instance_id: instance,
            report_interval_secs: 30,
            max_error_history: 100,
            unhealthy_threshold: 5,
            enable_auto_recovery: true,
            max_recovery_attempts: 3,
        }
    }

    /// Create config for a specific instance.
    pub fn for_instance(instance: CrawlerInstance) -> (r: Self)
        ensures
            r == Self::spec_default_for(instance),
    {
        StatusReporterConfig {
            instance_id: instance,
            report_interval_secs: 30,
            max_error_history: 100,
            unhealthy_threshold: 5,
            enable_auto_recovery: true,
            max_recovery_attempts: 3,
        }
    }

    /// Set report interval.
    pub fn with_report_interval(self, secs: u64) -> (r: Self)
        ensures
            r == (StatusReporterConfig { report_interval_secs: secs, ..self }),
    {
        StatusReporterConfig { report_interval_secs: secs, ..self }
    }

    /// Set unhealthy threshold.
    pub fn with_unhealthy_threshold(self, threshold: u32) -> (r: Self)
        ensures
            r == (StatusReporterConfig { unhealthy_threshold: threshold, ..self }),
    {
        StatusReporterConfig { unhealthy_threshold: threshold, ..self }
    }
}

impl Default for StatusReporterConfig {
    fn default() -> (r: Self)
        ensures
            r == Self::spec_default_for(CrawlerInstance::Main),
    {
        Self::for_instance(CrawlerInstance::Main)
    }
}

/// Manages recovery attempts: a bounded number of attempts, spaced by a
/// cooldown of at least `cooldown_secs` seconds.
pub struct RecoveryManager {
    pub config: StatusReporterConfig,
    pub attempts: u32,
    pub last_attempt: Option<Instant>,
    pub cooldown_secs: u64,
}

impl RecoveryManager {
    pub fn new(config: StatusReporterConfig) -> (r: Self)
        ensures
            r.config == config,
            r.attempts == 0,
            r.last_attempt is None,
            r.cooldown_secs == 60,
    {
        RecoveryManager { config, attempts: 0, last_attempt: None, cooldown_secs: 60 }
    }

    /// Whether another attempt may start, given the whole seconds since the
    /// last attempt (`None` when none was made): the budget of attempts is
    /// not spent and, after an earlier attempt, at least the cooldown has
    /// passed.
    pub open spec fn spec_may_attempt(&self, elapsed: Option<u64>) -> bool {
        &&& self.attempts < self.config.max_recovery_attempts
        &&& (self.last_attempt is None || (elapsed matches Some(e) && e >= self.cooldown_secs))
    }

    /// Whether another attempt may start, given the whole seconds since the
    /// last attempt (`None` when none was made).
    pub fn can_attempt_recovery_after(&self, elapsed: Option<u64>) -> (r: bool)
        ensures
            r == self.spec_may_attempt(elapsed),
    {
        if self.attempts >= self.config.max_recovery_attempts {
            return false;
        }
        match &self.last_attempt {
            Some(_) => match elapsed {
                Some(e) => e >= self.cooldown_secs,
                None => false,
            },
            None => true,
        }
    }

    /// Whether another attempt may start now: `can_attempt_recovery_after`
    /// with the seconds since the last attempt read from the monotonic clock.
    pub fn can_attempt_recovery(&self) -> (r: bool)
        ensures
            exists|elapsed: Option<u64>|
                (self.last_attempt is None <==> elapsed is None) && r == #[trigger] self.spec_may_attempt(elapsed),
    {
        let elapsed: Option<u64> = match &self.last_attempt {
            Some(last) => Some(elapsed_secs(last)),
            None => None,
        };
        let r = self.can_attempt_recovery_after(elapsed);
        assert(r == self.spec_may_attempt(elapsed));
        r
    }

    pub fn record_attempt(&mut self)
        requires
            old(self).attempts < u32::MAX,
        ensures
            final(self).attempts == old(self).attempts + 1,
            final(self).last_attempt is Some,
            final(self).config == old(self).config,
            final(self).cooldown_secs == old(self).cooldown_secs,
    {
        self.attempts = self.attempts + 1;
        self.last_attempt = Some(instant_now());
    }

    pub fn reset(&mut self)
        ensures
            final(self).attempts == 0,
            final(self).last_attempt is None,
            final(self).config == old(self).config,
            final(self).cooldown_secs == old(self).cooldown_secs,
    {
        self.attempts = 0;
        self.last_attempt = None;
    }
}

/// Status reporter for crawler instances.
pub struct StatusReporter {
    config: StatusReporterConfig,
    status: CrawlerStatus,
    error_history: Vec<ErrorRecord>,
    start_time: Instant,
    recovery: RecoveryManager,
}

/// The most records the history may hold under a configuration.
pub open spec fn history_bound(config: StatusReporterConfig) -> nat {
    if config.max_error_history == 0 { 1 } else { config.max_error_history as nat }
}

/// Health after one more failure in a row.
pub open spec fn health_after_failure(failures: u32, threshold: u32, current: HealthStatus) -> HealthStatus {
    if failures >= threshold {
        HealthStatus::Unhealthy
    } else if failures > 0 {
        HealthStatus::Degraded
    } else {
        current
    }
}

impl StatusReporter {
    pub closed spec fn spec_config(&self) -> StatusReporterConfig {
        self.config
    }

    pub closed spec fn spec_status(&self) -> CrawlerStatus {
        self.status
    }

    pub closed spec fn spec_history(&self) -> Seq<ErrorRecord> {
        self.error_history@
    }

    pub closed spec fn spec_attempts(&self) -> u32 {
        self.recovery.attempts
    }

    /// A recovery was attempted since the manager was last reset.
    pub closed spec fn spec_recovery_started(&self) -> bool {
        self.recovery.last_attempt is Some
    }

    /// Whether a recovery may start, given the whole seconds since the last
    /// attempt (`None` when none was made).
    pub closed spec fn spec_may_recover(&self, elapsed: Option<u64>) -> bool {
        self.recovery.spec_may_attempt(elapsed)
    }

    /// The history never holds more records than the configuration allows,
    /// and the recovery manager shares the reporter's configuration.
    pub closed spec fn wf(&self) -> bool {
        &&& self.error_history@.len() <= history_bound(self.config)
        &&& self.recovery.config == self.config
    }

    /// Create a new status reporter.
    pub fn new(config: StatusReporterConfig) -> (r: Self)
        ensures
            r.wf(),
            r.spec_config() == config,
            r.spec_status().instance_id@ == config.instance_id.spec_id(),
            r.spec_status().health == HealthStatus::Starting,
            !r.spec_status().is_crawling,
            r.spec_status().current_category is None,
            r.spec_status().articles_crawled == 0,
            r.spec_status().error_count == 0,
            r.spec_status().consecutive_failures == 0,
            r.spec_history().len() == 0,
            r.spec_attempts() == 0,
    {
        let id = crate::text::string_of(chars_of(config.instance_id.id()).as_slice());
        StatusReporter {
            config,
            status: CrawlerStatus::starting(id),
            error_history: Vec::new(),
            start_time: instant_now(),
            recovery: RecoveryManager::new(config),
        }
    }

    /// Get current status, with the uptime read from the monotonic clock.
    pub fn get_status(&self) -> (r: CrawlerStatus)
        ensures
            r == (CrawlerStatus { uptime_secs: r.uptime_secs, ..self.spec_status() }),
    {
        let mut s = self.status.copy();
        s.uptime_secs = elapsed_secs(&self.start_time);
        s
    }

    /// Mark as healthy.
    pub fn mark_healthy(&mut self)
        requires
            old(self).wf(),
        ensures
            final(self).wf(),
            final(self).spec_status() == (CrawlerStatus {
                health: HealthStatus::Healthy,
                consecutive_failures: 0,
                ..old(self).spec_status()
            }),
            final(self).spec_history() == old(self).spec_history(),
            final(self).spec_config() == old(self).spec_config(),
            final(self).spec_attempts() == old(self).spec_attempts(),
    {
        self.status.health = HealthStatus::Healthy;
        self.status.consecutive_failures = 0;
    }

    /// Start crawling.
    pub fn start_crawling(&mut self, category: Option<String>)
        requires
            old(self).wf(),
        ensures
            final(self).wf(),
            final(self).spec_status() == (CrawlerStatus {
                is_crawling: true,
                current_category: category,
                ..old(self).spec_status()
            }),
            final(self).spec_history() == old(self).spec_history(),
            final(self).spec_config() == old(self).spec_config(),
            final(self).spec_attempts() == old(self).spec_attempts(),
    {
        self.status.is_crawling = true;
        self.status.current_category = category;
    }

    /// Stop crawling.
    pub fn stop_crawling(&mut self)
        requires
            old(self).wf(),
        ensures
            final(self).wf(),
            final(self).spec_status() == (CrawlerStatus {
                is_crawling: false,
                current_category: None,
                ..old(self).spec_status()
            }),
            final(self).spec_history() == old(self).spec_history(),
            final(self).spec_config() == old(self).spec_config(),
            final(self).spec_attempts() == old(self).spec_attempts(),
    {
        self.status.is_crawling = false;
        self.status.current_category = None;
    }

    /// Record a successful operation: adds to the crawled count, resets the
    /// run of failures, stamps the success time and leaves `Recovering`.
    pub fn record_success(&mut self, articles_count: u64)
        requires
            old(self).wf(),
            old(self).spec_status().articles_crawled + articles_count <= u64::MAX,
        ensures
            final(self).wf(),
            final(self).spec_status() == (CrawlerStatus {
                articles_crawled: (old(self).spec_status().articles_crawled + articles_count) as u64,
                last_success: final(self).spec_status().last_success,
                consecutive_failures: 0,
                health: if old(self).spec_status().health == HealthStatus::Recovering {
                    HealthStatus::Healthy
                } else {
                    old(self).spec_status().health
                },
                ..old(self).spec_status()
            }),
            final(self).spec_status().last_success is Some,
            final(self).spec_history() == old(self).spec_history(),
            final(self).spec_config() == old(self).spec_config(),
            final(self).spec_attempts() == old(self).spec_attempts(),
    {
        self.status.articles_crawled = self.status.articles_crawled + articles_count;
        self.status.last_success = Some(now_unix_secs());
        self.status.consecutive_failures = 0;
        if self.status.health == HealthStatus::Recovering {
            self.status.health = HealthStatus::Healthy;
        }
    }

    /// Record an error: counts it, updates the health from the run of
    /// failures, appends it to the bounded history (dropping the oldest
    /// record when full) and, for a retryable error with auto recovery on,
    /// starts a recovery when one may start. Returns the backoff that the
    /// caller is to wait when a recovery was started.
    pub fn record_error(&mut self, message: &str, context: Option<&str>) -> (r: Option<Duration>)
        requires
            old(self).wf(),
            old(self).spec_status().error_count < u64::MAX,
            old(self).spec_status().consecutive_failures < u32::MAX,
            old(self).spec_attempts() < u32::MAX,
        ensures
            final(self).wf(),
            final(self).spec_status().error_count == old(self).spec_status().error_count + 1,
            final(self).spec_status().consecutive_failures == old(self).spec_status().consecutive_failures + 1,
            final(self).spec_status().last_error is Some,
            final(self).spec_status().last_error_message is Some,
            final(self).spec_status().last_error_message->0@ == message@,
            final(self).spec_status().articles_crawled == old(self).spec_status().articles_crawled,
            final(self).spec_status().is_crawling == old(self).spec_status().is_crawling,
            final(self).spec_status().current_category == old(self).spec_status().current_category,
            r is None ==> final(self).spec_status().health == health_after_failure(
                final(self).spec_status().consecutive_failures,
                old(self).spec_config().unhealthy_threshold,
                old(self).spec_status().health,
            ),
            r is Some ==> final(self).spec_status().health == HealthStatus::Recovering,
            r is Some ==> {
                &&& old(self).spec_config().enable_auto_recovery
                &&& spec_classify(message@).spec_is_retryable()
                &&& old(self).spec_attempts() < old(self).spec_config().max_recovery_attempts
                &&& r == Some(duration_of_secs(spec_classify(message@).spec_backoff_secs()))
                &&& final(self).spec_attempts() == old(self).spec_attempts() + 1
            },
            r is None ==> final(self).spec_attempts() == old(self).spec_attempts(),
            exists|elapsed: Option<u64>|
                (old(self).spec_recovery_started() <==> elapsed is Some) && (r is Some) == (
                old(self).spec_config().enable_auto_recovery && spec_classify(message@).spec_is_retryable()
                    && #[trigger] old(self).spec_may_recover(elapsed)),
            ({
                let old_h = old(self).spec_history();
                let new_h = final(self).spec_history();
                let kept = if old_h.len() >= old(self).spec_config().max_error_history && old_h.len() > 0 {
                    old_h.drop_first()
                } else {
                    old_h
                };
                &&& new_h.len() == kept.len() + 1
                &&& new_h.take(kept.len() as int) == kept
                &&& new_h.last().category == spec_classify(message@)
                &&& new_h.last().message@ == message@
                &&& match (new_h.last().context, context) {
                    (Some(a), Some(b)) => a@ == b@,
                    (None, None) => true,
                    _ => false,
                }
                &&& !new_h.last().recovery_attempted
                &&& !new_h.last().recovered
            }),
            final(self).spec_config() == old(self).spec_config(),
    {
        let category = ErrorCategory::classify(message);
        self.status.error_count = self.status.error_count + 1;
        self.status.last_error = Some(now_unix_secs());
        self.status.last_error_message = Some(crate::text::string_of(chars_of(message).as_slice()));
        self.status.consecutive_failures = self.status.consecutive_failures + 1;
        if self.status.consecutive_failures >= self.config.unhealthy_threshold {
            self.status.health = HealthStatus::Unhealthy;
        } else if self.status.consecutive_failures > 0 {
            self.status.health = HealthStatus::Degraded;
        }
        if self.error_history.len() >= self.config.max_error_history && self.error_history.len() > 0 {
            self.error_history.remove(0);
        }
        let ctx = match context {
            Some(c) => Some(crate::text::string_of(chars_of(c).as_slice())),
            None => None,
        };
        self.error_history.push(ErrorRecord {
            timestamp: now_unix_secs(),
            category,
            message: crate::text::string_of(chars_of(message).as_slice()),
            context: ctx,
            recovery_attempted: false,
            recovered: false,
        });
        let may_recover = self.recovery.can_attempt_recovery();
        let ghost e = choose|e: Option<u64>|
            (self.recovery.last_attempt is None <==> e is None) && may_recover == #[trigger] self.recovery.spec_may_attempt(e);
        assert(self.recovery == old(self).recovery);
        assert(old(self).spec_may_recover(e) == may_recover);
        assert(old(self).spec_recovery_started() <==> e is Some);
        if self.config.enable_auto_recovery && category.is_retryable() && may_recover {
            self.status.health = HealthStatus::Recovering;
            self.recovery.record_attempt();
            return Some(category.recommended_backoff());
        }
        None
    }

    /// Update connection status.
    pub fn update_connections(&mut self, coordinator: bool, database: bool)
        requires
            old(self).wf(),
        ensures
            final(self).wf(),
            final(self).spec_status() == (CrawlerStatus {
                coordinator_connected: coordinator,
                database_connected: database,
                ..old(self).spec_status()
            }),
            final(self).spec_history() == old(self).spec_history(),
            final(self).spec_config() == old(self).spec_config(),
            final(self).spec_attempts() == old(self).spec_attempts(),
    {
        self.status.coordinator_connected = coordinator;
        self.status.database_connected = database;
    }

    /// The error history, oldest first.
    pub fn get_error_history(&self) -> (r: Vec<ErrorRecord>)
        ensures
            r@ == self.spec_history(),
    {
        let mut out: Vec<ErrorRecord> = Vec::new();
        let mut i: usize = 0;
        while i < self.error_history.len()
            invariant
                i <= self.error_history@.len(),
                out@ == self.error_history@.take(i as int),
            decreases self.error_history@.len() - i,
        {
            out.push(self.error_history[i].copy());
            proof {
                assert(self.error_history@.take(i + 1) =~= self.error_history@.take(i as int).push(self.error_history@[i as int]));
            }
            i = i + 1;
        }
        proof {
            assert(self.error_history@.take(self.error_history@.len() as int) =~= self.error_history@);
        }
        out
    }

    /// The last `count` errors, newest first.
    pub fn get_recent_errors(&self, count: usize) -> (r: Vec<ErrorRecord>)
        ensures
            r@.len() == if count < self.spec_history().len() { count as nat } else { self.spec_history().len() },
            forall|k: int| 0 <= k < r@.len() ==> r@[k] == self.spec_history()[self.spec_history().len() - 1 - k],
    {
        let mut out: Vec<ErrorRecord> = Vec::new();
        let n = self.error_history.len();
        let mut k: usize = 0;
        while k < count && k < n
            invariant
                n == self.error_history@.len(),
                k <= n,
                k <= count,
                out@.len() == k,
                forall|j: int| 0 <= j < k ==> out@[j] == self.error_history@[n - 1 - j],
            decreases n - k,
        {
            out.push(self.error_history[n - 1 - k].copy());
            k = k + 1;
        }
        out
    }

    /// Reset error counts (e.g., on new day).
    pub fn reset_daily(&mut self)
        requires
            old(self).wf(),
        ensures
            final(self).wf(),
            final(self).spec_status() == (CrawlerStatus {
                articles_crawled: 0,
                error_count: 0,
                consecutive_failures: 0,
                ..old(self).spec_status()
            }),
            final(self).spec_history() == old(self).spec_history(),
            final(self).spec_config() == old(self).spec_config(),
            final(self).spec_attempts() == old(self).spec_attempts(),
    {
        self.status.articles_crawled = 0;
        self.status.error_count = 0;
        self.status.consecutive_failures = 0;
    }
}

/// Individual component check.
#[derive(Debug)]
pub struct ComponentCheck {
    pub name: String,
    pub healthy: bool,
    pub message: Option<String>,
    pub latency_ms: Option<u64>,
}

/// Health check result. The time stamp is in Unix seconds.
#[derive(Debug)]
pub struct HealthCheck {
    pub status: HealthStatus,
    pub checks: Vec<ComponentCheck>,
    pub timestamp: i64,
}

/// Number of unhealthy component checks.
pub open spec fn unhealthy_count(checks: Seq<ComponentCheck>) -> nat
    decreases checks.len(),
{
    if checks.len() == 0 {
        0
    } else {
        unhealthy_count(checks.drop_last()) + if checks.last().healthy { 0nat } else { 1nat }
    }
}

/// Overall status of a set of component checks: starting with none, healthy
/// with no failure, degraded with fewer than half failing, else unhealthy.
pub open spec fn overall_status(checks: Seq<ComponentCheck>) -> HealthStatus {
    let total = checks.len();
    let bad = unhealthy_count(checks);
    if total == 0 {
        HealthStatus::Starting
    } else if bad == 0 {
        HealthStatus::Healthy
    } else if bad * 2 < total {
        HealthStatus::Degraded
    } else {
        HealthStatus::Unhealthy
    }
}

proof fn lemma_unhealthy_count_zero(checks: Seq<ComponentCheck>)
    ensures
        unhealthy_count(checks) == 0 <==> forall|i: int| 0 <= i < checks.len() ==> (#[trigger] checks[i]).healthy,
        unhealthy_count(checks) <= checks.len(),
    decreases checks.len(),
{
    if checks.len() > 0 {
        lemma_unhealthy_count_zero(checks.drop_last());
        if unhealthy_count(checks) == 0 {
            assert forall|i: int| 0 <= i < checks.len() implies (#[trigger] checks[i]).healthy by {
                if i < checks.len() - 1 {
                    assert(checks.drop_last()[i] == checks[i]);
                }
            }
        }
        if forall|i: int| 0 <= i < checks.len() ==> (#[trigger] checks[i]).healthy {
            assert forall|i: int| 0 <= i < checks.drop_last().len() implies (#[trigger] checks.drop_last()[i]).healthy by {
                assert(checks.drop_last()[i] == checks[i]);
            }
            assert(checks[checks.len() - 1].healthy);
        }
    }
}

impl HealthCheck {
    /// Create a new health check, stamped with the current time.
    pub fn new() -> (r: Self)
        ensures
            r.status == HealthStatus::Starting,
            r.checks@.len() == 0,
    {
        HealthCheck { status: HealthStatus::Starting, checks: Vec::new(), timestamp: now_unix_secs() }
    }

    /// Add a component check.
    pub fn add_check(&mut self, name: &str, healthy: bool, message: Option<&str>, latency_ms: Option<u64>)
        ensures
            final(self).checks@.len() == old(self).checks@.len() + 1,
            final(self).checks@.drop_last() == old(self).checks@,
            final(self).checks@.last().name@ == name@,
            final(self).checks@.last().healthy == healthy,
            final(self).checks@.last().latency_ms == latency_ms,
            final(self).checks@.last().message is Some <==> message is Some,
            final(self).status == old(self).status,
            final(self).timestamp == old(self).timestamp,
    {
        let msg = match message {
            Some(m) => Some(crate::text::string_of(chars_of(m).as_slice())),
            None => None,
        };
        self.checks.push(ComponentCheck {
            name: crate::text::string_of(chars_of(name).as_slice()),
            healthy,
            message: msg,
            latency_ms,
        });
        proof {
            assert(self.checks@.drop_last() =~= old(self).checks@);
        }
    }

    /// Calculate overall status.
    pub fn calculate_status(&mut self)
        ensures
            final(self).status == overall_status(old(self).checks@),
            final(self).checks@ == old(self).checks@,
            final(self).timestamp == old(self).timestamp,
    {
        let total = self.checks.len();
        if total == 0 {
            self.status = HealthStatus::Starting;
            return;
        }
        let mut bad: usize = 0;
        let mut i: usize = 0;
        while i < total
            invariant
                total == self.checks@.len(),
                i <= total,
                bad == unhealthy_count(self.checks@.take(i as int)),
                bad <= i,
            decreases total - i,
        {
            proof {
                assert(self.checks@.take(i + 1).drop_last() =~= self.checks@.take(i as int));
            }
            if !self.checks[i].healthy {
                bad = bad + 1;
            }
            i = i + 1;
        }
        proof {
            assert(self.checks@.take(total as int) =~= self.checks@);
        }
        self.status = if bad == 0 {
            HealthStatus::Healthy
        } else if bad < total - bad {
            HealthStatus::Degraded
        } else {
            HealthStatus::Unhealthy
        };
    }

    /// Check if all components are healthy.
    pub fn is_healthy(&self) -> (r: bool)
        ensures
            r == (forall|i: int| 0 <= i < self.checks@.len() ==> (#[trigger] self.checks@[i]).healthy),
    {
        let mut i: usize = 0;
        while i < self.checks.len()
            invariant
                i <= self.checks@.len(),
                forall|k: int| 0 <= k < i ==> (#[trigger] self.checks@[k]).healthy,
            decreases self.checks@.len() - i,
        {
            if !self.checks[i].healthy {
                return false;
            }
            i = i + 1;
        }
        true
    }
}

/// A recovery may start only while the budget of attempts is not spent:
/// at once when none was made yet, and otherwise only once at least the
/// cooldown has passed since the last one; waiting longer never takes the
/// permission back.
pub proof fn recovery_waits_for_budget_and_cooldown(m: RecoveryManager, elapsed: Option<u64>, later: u64)
    ensures
        m.attempts >= m.config.max_recovery_attempts ==> !m.spec_may_attempt(elapsed),
        m.attempts < m.config.max_recovery_attempts && m.last_attempt is None ==> m.spec_may_attempt(elapsed),
        m.last_attempt is Some && (elapsed matches Some(e) && e < m.cooldown_secs) ==> !m.spec_may_attempt(elapsed),
        m.last_attempt is Some && elapsed is None ==> !m.spec_may_attempt(elapsed),
        m.attempts < m.config.max_recovery_attempts && (elapsed matches Some(e) && e >= m.cooldown_secs)
            ==> m.spec_may_attempt(elapsed),
        (elapsed matches Some(e) && e <= later && m.spec_may_attempt(elapsed)) ==> m.spec_may_attempt(Some(later)),
{
}

/// Network, rate-limit, database and coordinator errors are worth
/// retrying, parse and unknown errors are not; a rate limit backs off the
/// longest (60 s), then coordinator (30 s), database (10 s), network and
/// unknown errors (5 s) and parse errors (1 s).
pub proof fn retry_policy_by_category(c: ErrorCategory)
    ensures
        c.spec_is_retryable() == !(c is Parse || c is Unknown),
        c is RateLimited ==> c.spec_backoff_secs() == 60,
        c is Coordinator ==> c.spec_backoff_secs() == 30,
        c is Database ==> c.spec_backoff_secs() == 10,
        c is Network || c is Unknown ==> c.spec_backoff_secs() == 5,
        c is Parse ==> c.spec_backoff_secs() == 1,
        c.spec_backoff_secs() <= ErrorCategory::RateLimited.spec_backoff_secs(),
{
}

/// An error message is classified by the patterns its lower-case form
/// contains, the more specific families first: database (`database`,
/// `postgres`, `sql`, `pool`), then coordinator (`coordinator`, `heartbeat`),
/// then rate limiting (`rate limit`, `429`, `too many requests`, `blocked`),
/// then network (`timeout`, `connection`, `network`, `dns`), then parse
/// (`parse`, `invalid`, `malformed`); a message with none of them is unknown.
pub proof fn error_patterns_pick_their_category(message: Seq<char>)
    ensures
        ({
            let l = lowercase(message);
            let database = contains_seq(l, "database"@) || contains_seq(l, "postgres"@) || contains_seq(l, "sql"@)
                || contains_seq(l, "pool"@);
            let coordinator = contains_seq(l, "coordinator"@) || contains_seq(l, "heartbeat"@);
            let rate_limited = contains_seq(l, "rate limit"@) || contains_seq(l, "429"@) || contains_seq(
                l,
                "too many requests"@,
            ) || contains_seq(l, "blocked"@);
            let network = contains_seq(l, "timeout"@) || contains_seq(l, "connection"@) || contains_seq(
                l,
                "network"@,
            ) || contains_seq(l, "dns"@);
            let parse = contains_seq(l, "parse"@) || contains_seq(l, "invalid"@) || contains_seq(l, "malformed"@);
            &&& (spec_classify(message) is Database) == database
            &&& (spec_classify(message) is Coordinator) == (!database && coordinator)
            &&& (spec_classify(message) is RateLimited) == (!database && !coordinator && rate_limited)
            &&& (spec_classify(message) is Network) == (!database && !coordinator && !rate_limited && network)
            &&& (spec_classify(message) is Parse) == (!database && !coordinator && !rate_limited && !network && parse)
            &&& (spec_classify(message) is Unknown) == !(database || coordinator || rate_limited || network || parse)
        }),
{
}

/// After `calculate_status`, the check reports healthy exactly when every
/// component is healthy and there is at least one component.
pub proof fn healthy_status_iff_all_components_healthy(checks: Seq<ComponentCheck>)
    ensures
        overall_status(checks) == HealthStatus::Healthy <==> (checks.len() > 0 && forall|i: int|
            0 <= i < checks.len() ==> (#[trigger] checks[i]).healthy),
        overall_status(checks) == HealthStatus::Unhealthy ==> unhealthy_count(checks) * 2 >= checks.len(),
{
    lemma_unhealthy_count_zero(checks);
}

/// The error history never holds more records than the configuration
/// allows (one, when the limit is zero).
pub proof fn error_history_is_bounded(r: &StatusReporter)
    requires
        r.wf(),
    ensures
        r.spec_history().len() <= history_bound(r.spec_config()),
{
}

} // verus!
