//! Client side of the coordinator API: configuration, request building,
//! retry decisions and reading the answers. The HTTP transport is the
//! caller's.
use vstd::prelude::*;
use std::time::Duration;
use crate::clock::{duration_of_secs, duration_from_secs};
use crate::scheduler::CrawlerInstance;
use crate::coordinator::registry::{HeartbeatRequest, RegisterRequest};
use crate::text::{chars_of, decimal, push_decimal, push_str, string_of, copy_string};

verus! {

/// Client configuration.
#[derive(Debug)]
pub struct ClientConfig {
    /// Coordinator server URL
    pub coordinator_url: String,
    /// Request timeout
    pub timeout: Duration,
    /// Number of retry attempts
    pub retry_count: u32,
    /// Delay between retries
    pub retry_delay: Duration,
    /// This instance's ID
    pub instance_id: CrawlerInstance,
}

impl ClientConfig {
    /// Create new config: 10 s timeout, 3 retries, 1 s between them.
    pub fn new(coordinator_url: &str, instance_id: CrawlerInstance) -> (r: Self)
        ensures
            r.coordinator_url@ == coordinator_url@,
            r.instance_id == instance_id,
            r.timeout == duration_of_secs(10),
            r.retry_count == 3,
            r.retry_delay == duration_of_secs(1),
    {
        ClientConfig {
            coordinator_url: coordinator_url.to_owned(),
            instance_id,
            timeout: duration_from_secs(10),
            retry_count: 3,
            retry_delay: duration_from_secs(1),
        }
    }

    /// Set timeout.
    pub fn with_timeout(self, timeout: Duration) -> (r: Self)
        ensures
            r == (ClientConfig { timeout, ..self }),
    {
        ClientConfig { timeout, ..self }
    }

    /// Set retry count.
    pub fn with_retry_count(self, count: u32) -> (r: Self)
        ensures
            r == (ClientConfig { retry_count: count, ..self }),
    {
        ClientConfig { retry_count: count, ..self }
    }

    /// The URL of an API path on the coordinator.
    pub fn endpoint(&self, path: &str) -> (r: String)
        ensures
            r@ == self.coordinator_url@ + path@,
    {
        let mut out = chars_of(self.coordinator_url.as_str());
        push_str(&mut out, path);
        string_of(out.as_slice())
    }

    /// The URL of the schedule of a date (`YYYY-MM-DD`).
    pub fn schedule_url(&self, date: &str) -> (r: String)
        ensures
            r@ == self.coordinator_url@ + "/api/schedule/"@ + date@,
    {
        let mut out = chars_of(self.coordinator_url.as_str());
        push_str(&mut out, "/api/schedule/");
        push_str(&mut out, date);
        string_of(out.as_slice())
    }

    /// The registration request of this instance.
    pub fn register_request(&self, ip_address: &str, port: u16, version: &str) -> (r: RegisterRequest)
        ensures
            r.instance_id@ == self.instance_id.spec_id(),
            r.ip_address@ == ip_address@,
            r.port == port,
            r.version matches Some(v) && v@ == version@,
            r.metadata@.len() == 0,
    {
        RegisterRequest {
            instance_id: self.instance_id.id().to_owned(),
            ip_address: ip_address.to_owned(),
            port,
            version: Some(version.to_owned()),
            metadata: Vec::new(),
        }
    }

    /// The heartbeat request of this instance.
    pub fn heartbeat_request(&self, articles_crawled: u64, error_count: u64, current_category: Option<String>) -> (r: HeartbeatRequest)
        ensures
            r.instance_id@ == self.instance_id.spec_id(),
            r.articles_crawled == articles_crawled,
            r.error_count == error_count,
            r.current_category == current_category,
    {
        HeartbeatRequest {
            instance_id: self.instance_id.id().to_owned(),
            articles_crawled,
            error_count,
            current_category,
        }
    }
}

/// Schedule response from the coordinator.
#[derive(Debug)]
pub struct ScheduleResponse {
    pub date: String,
    pub slots: Vec<SlotResponse>,
}

/// Slot in a schedule response.
#[derive(Debug)]
pub struct SlotResponse {
    pub hour: u8,
    pub instance: String,
    pub categories: Vec<String>,
}

/// Coordinator health as the client reports it.
#[derive(Debug)]
pub struct HealthStatus {
    pub healthy: bool,
    pub version: String,
    pub uptime_secs: u64,
}

/// Client errors.
#[derive(Debug)]
pub enum ClientError {
    /// Failed to initialize client
    InitError(String),
    /// Network error
    NetworkError(String),
    /// HTTP error response
    HttpError { status: u16, message: String },
    /// Response parsing error
    ParseError(String),
    /// Invalid response from coordinator
    InvalidResponse(String),
    /// Coordinator is unavailable
    CoordinatorUnavailable,
}

impl ClientError {
    /// The message that displays the error.
    pub open spec fn spec_message(&self) -> Seq<char> {
        match self {
            ClientError::InitError(m) => "Initialization error: "@ + m@,
            ClientError::NetworkError(m) => "Network error: "@ + m@,
            ClientError::HttpError { status, message } => "HTTP error ("@ + decimal(*status as nat) + "): "@ + message@,
            ClientError::ParseError(m) => "Parse error: "@ + m@,
            ClientError::InvalidResponse(m) => "Invalid response: "@ + m@,
            ClientError::CoordinatorUnavailable => "Coordinator unavailable"@,
        }
    }

    /// The message that displays the error.
    pub fn message(&self) -> (r: String)
        ensures
            r@ == self.spec_message(),
    {
        let mut out: Vec<char> = Vec::new();
        match self {
            ClientError::InitError(m) => {
                push_str(&mut out, "Initialization error: ");
                push_str(&mut out, m.as_str());
            },
            ClientError::NetworkError(m) => {
                push_str(&mut out, "Network error: ");
                push_str(&mut out, m.as_str());
            },
            ClientError::HttpError { status, message } => {
                push_str(&mut out, "HTTP error (");
                push_decimal(&mut out, *status as u64);
                push_str(&mut out, "): ");
                push_str(&mut out, message.as_str());
            },
            ClientError::ParseError(m) => {
                push_str(&mut out, "Parse error: ");
                push_str(&mut out, m.as_str());
            },
            ClientError::InvalidResponse(m) => {
                push_str(&mut out, "Invalid response: ");
                push_str(&mut out, m.as_str());
            },
            ClientError::CoordinatorUnavailable => {
                push_str(&mut out, "Coordinator unavailable");
            },
        }
        string_of(out.as_slice())
    }
}

/// What to do next in a request with retries.
#[derive(Debug, Clone, Copy, PartialEq, Eq, Structural)]
pub enum RetryStep {
    /// Send the request, after waiting the retry delay when `wait_first`.
    Send { wait_first: bool },
    /// Every attempt failed.
    GiveUp,
}

/// A request tried once and then up to `retry_count` more times, keeping
/// the error of the last failure.
#[derive(Debug)]
pub struct RetryLoop {
    attempt: u64,
    retry_count: u32,
    last_error: Option<ClientError>,
}

impl RetryLoop {
    pub closed spec fn spec_attempt(&self) -> u64 {
        self.attempt
    }

    pub closed spec fn spec_retry_count(&self) -> u32 {
        self.retry_count
    }

    pub closed spec fn spec_last_error(&self) -> Option<ClientError> {
        self.last_error
    }

    /// No attempt made yet.
    pub fn new(retry_count: u32) -> (r: Self)
        ensures
            r.spec_attempt() == 0,
            r.spec_retry_count() == retry_count,
            r.spec_last_error() is None,
    {
        RetryLoop { attempt: 0, retry_count, last_error: None }
    }

    /// The next step: attempts `0..=retry_count` are made, each but the
    /// first after the retry delay.
    pub fn next_step(&self) -> (r: RetryStep)
        ensures
            r == if self.spec_attempt() <= self.spec_retry_count() {
                RetryStep::Send { wait_first: self.spec_attempt() > 0 }
            } else {
                RetryStep::GiveUp
            },
    {
        if self.attempt <= self.retry_count as u64 {
            RetryStep::Send { wait_first: self.attempt > 0 }
        } else {
            RetryStep::GiveUp
        }
    }

    /// Record the failure of the attempt just made.
    pub fn record_failure(&mut self, error: ClientError)
        requires
            old(self).spec_attempt() <= old(self).spec_retry_count(),
        ensures
            failed_once_more(*old(self), *final(self)),
            final(self).spec_last_error() == Some(error),
    {
        self.attempt = self.attempt + 1;
        self.last_error = Some(error);
    }

    /// The error to report once every attempt failed: the last one, or a
    /// network error `Unknown error` when none was recorded.
    pub fn into_error(self) -> (r: ClientError)
        ensures
            match self.spec_last_error() {
                Some(e) => r == e,
                None => r matches ClientError::NetworkError(m) && m@ == "Unknown error"@,
            },
    {
        match self.last_error {
            Some(e) => e,
            None => ClientError::NetworkError("Unknown error".to_owned()),
        }
    }
}

/// The loop after the attempt of `a` failed: the next attempt, with the
/// same number of retries allowed.
pub open spec fn failed_once_more(a: RetryLoop, b: RetryLoop) -> bool {
    &&& b.spec_attempt() == a.spec_attempt() + 1
    &&& b.spec_retry_count() == a.spec_retry_count()
}

proof fn lemma_retry_k(states: Seq<RetryLoop>, k: int)
    requires
        0 <= k < states.len(),
        states[0].spec_attempt() == 0,
        forall|i: int| 0 <= i < states.len() - 1 ==> (#[trigger] states[i]).spec_attempt() <= states[i].spec_retry_count()
            && failed_once_more(states[i], states[i + 1]),
    ensures
        states[k].spec_attempt() == k,
        states[k].spec_retry_count() == states[0].spec_retry_count(),
    decreases k,
{
    if k > 0 {
        lemma_retry_k(states, k - 1);
        assert(failed_once_more(states[k - 1], states[k]));
    }
}

/// A request is sent at most `retry_count + 1` times: along a run of failed
/// attempts from the start, attempt `i` is numbered `i`, the loop sends
/// while `i <= retry_count` and gives up after that.
pub proof fn requests_stop_after_the_last_retry(states: Seq<RetryLoop>)
    requires
        states.len() > 0,
        states[0].spec_attempt() == 0,
        forall|i: int| 0 <= i < states.len() - 1 ==> (#[trigger] states[i]).spec_attempt() <= states[i].spec_retry_count()
            && failed_once_more(states[i], states[i + 1]),
    ensures
        forall|i: int| 0 <= i < states.len() ==> (#[trigger] states[i]).spec_attempt() == i,
        states.len() <= states[0].spec_retry_count() + 2,
        states.len() == states[0].spec_retry_count() + 2 ==> states.last().spec_attempt() > states.last().spec_retry_count(),
{
    assert forall|i: int| 0 <= i < states.len() implies (#[trigger] states[i]).spec_attempt() == i by {
        lemma_retry_k(states, i);
    }
    lemma_retry_k(states, states.len() - 1);
    if states.len() >= 2 {
        lemma_retry_k(states, states.len() - 2);
    }
}

/// The slots of a schedule that name this instance, in order.
pub open spec fn slots_of(slots: Seq<SlotResponse>, id: Seq<char>) -> Seq<SlotResponse>
    decreases slots.len(),
{
    if slots.len() == 0 {
        slots
    } else if slots.last().instance@ == id {
        slots_of(slots.drop_last(), id).push(slots.last())
    } else {
        slots_of(slots.drop_last(), id)
    }
}

/// Keep the slots of `schedule` that name `instance`.
pub fn my_slots(schedule: ScheduleResponse, instance: CrawlerInstance) -> (r: Vec<SlotResponse>)
    ensures
        r@ == slots_of(schedule.slots@, instance.spec_id()),
{
    let ghost all = schedule.slots@;
    let my_id = instance.id().to_owned();
    let mut out: Vec<SlotResponse> = Vec::new();
    for s in it: schedule.slots
        invariant
            it.seq() == all,
            my_id@ == instance.spec_id(),
            out@ == slots_of(all.take(it.index() as int), instance.spec_id()),
    {
        proof {
            assert(all.take(it.index() + 1).drop_last() =~= all.take(it.index() as int));
            assert(all.take(it.index() + 1).last() == s);
        }
        if s.instance == my_id {
            out.push(s);
        }
    }
    proof {
        assert(all.take(all.len() as int) =~= all);
    }
    out
}

/// The first slot of the schedule at `hour` for `id`, if any.
pub open spec fn first_slot_at(slots: Seq<SlotResponse>, hour: u8, id: Seq<char>) -> Option<int>
    decreases slots.len(),
{
    if slots.len() == 0 {
        None
    } else {
        match first_slot_at(slots.drop_last(), hour, id) {
            Some(i) => Some(i),
            None => if slots.last().hour == hour && slots.last().instance@ == id {
                Some(slots.len() - 1)
            } else {
                None
            },
        }
    }
}

/// The categories this instance crawls at `hour`, if the schedule gives it
/// that hour.
pub fn categories_at(schedule: ScheduleResponse, instance: CrawlerInstance, hour: u8) -> (r: Option<Vec<String>>)
    ensures
        match first_slot_at(schedule.slots@, hour, instance.spec_id()) {
            Some(i) => r == Some(schedule.slots@[i].categories),
            None => r is None,
        },
{
    let ghost all = schedule.slots@;
    let my_id = instance.id().to_owned();
    for s in it: schedule.slots
        invariant
            it.seq() == all,
            my_id@ == instance.spec_id(),
            first_slot_at(all.take(it.index() as int), hour, instance.spec_id()) is None,
    {
        let ghost k = it.index() as int;
        proof {
            assert(all.take(k + 1).drop_last() =~= all.take(k));
            assert(all.take(k + 1).last() == s);
        }
        if s.hour == hour && s.instance == my_id {
            proof {
                lemma_first_slot_prefix(all, hour, instance.spec_id(), k + 1);
            }
            return Some(s.categories);
        }
    }
    proof {
        assert(all.take(all.len() as int) =~= all);
    }
    None
}

proof fn lemma_first_slot_prefix(s: Seq<SlotResponse>, hour: u8, id: Seq<char>, k: int)
    requires
        0 <= k <= s.len(),
        first_slot_at(s.take(k), hour, id) is Some,
    ensures
        first_slot_at(s, hour, id) == first_slot_at(s.take(k), hour, id),
    decreases s.len(),
{
    if k < s.len() {
        assert(s.drop_last().take(k) =~= s.take(k));
        lemma_first_slot_prefix(s.drop_last(), hour, id, k);
    } else {
        assert(s.take(k) =~= s);
    }
}

/// Read the coordinator's health answer: healthy when its status is
/// `healthy`; without data the answer is invalid.
pub fn health_from_response(data: Option<(String, String, u64)>) -> (r: Result<HealthStatus, ClientError>)
    ensures
        match data {
            Some((status, version, uptime)) => r matches Ok(h) && h.healthy == (status@ == "healthy"@)
                && h.version == version && h.uptime_secs == uptime,
            None => r matches Err(ClientError::InvalidResponse(m)) && m@ == "Missing health data"@,
        },
{
    match data {
        Some((status, version, uptime_secs)) => {
            let healthy = status == "healthy".to_owned();
            Ok(HealthStatus { healthy, version, uptime_secs })
        },
        None => Err(ClientError::InvalidResponse("Missing health data".to_owned())),
    }
}

} // verus!
