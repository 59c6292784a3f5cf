//! Instance registry for tracking crawler instances.
//!
//! Each crawler instance (`main`, `sub1`, `sub2`) has at most one entry. Time
//! stamps are Unix seconds.
use vstd::prelude::*;
use crate::clock::{clock_bound, now_unix_secs};
use crate::scheduler::CrawlerInstance;
use crate::text::{chars_of, push_str, push_decimal, string_of, copy_string, copy_opt_string, decimal};

verus! {

broadcast use vstd::slice::group_slice_axioms;

/// Status of a registered instance.
#[derive(Debug, Clone, Copy, PartialEq, Eq, Structural)]
pub enum InstanceStatus {
    /// Instance is online and healthy
    Online,
    /// Instance missed heartbeats (may be unhealthy)
    Degraded,
    /// Instance is offline (no heartbeat for too long)
    Offline,
    /// Instance is in maintenance mode
    Maintenance,
}

impl InstanceStatus {
    pub open spec fn spec_is_available(self) -> bool {
        self == InstanceStatus::Online || self == InstanceStatus::Degraded
    }

    /// Check if instance is available for work.
    pub fn is_available(&self) -> (r: bool)
        ensures
            r == self.spec_is_available(),
    {
        match self {
            InstanceStatus::Online | InstanceStatus::Degraded => true,
            _ => false,
        }
    }

    /// Get Korean label.
    pub fn korean_label(&self) -> (r: &'static str)
        ensures
            r@ == match self {
                InstanceStatus::Online => "온라인"@,
                InstanceStatus::Degraded => "저하됨"@,
                InstanceStatus::Offline => "오프라인"@,
                InstanceStatus::Maintenance => "유지보수"@,
            },
    {
        match self {
            InstanceStatus::Online => "온라인",
            InstanceStatus::Degraded => "저하됨",
            InstanceStatus::Offline => "오프라인",
            InstanceStatus::Maintenance => "유지보수",
        }
    }
}

impl Default for InstanceStatus {
    fn default() -> (r: Self)
        ensures
            r == InstanceStatus::Offline,
    {
        InstanceStatus::Offline
    }
}

/// Information about a registered instance.
#[derive(Debug)]
pub struct InstanceInfo {
    /// Instance identifier
    pub instance: CrawlerInstance,
    /// Current status
    pub status: InstanceStatus,
    /// IP address of the instance
    pub ip_address: String,
    /// Port the instance is listening on
    pub port: u16,
    /// When the instance was registered
    pub registered_at: i64,
    /// Last heartbeat received
    pub last_heartbeat: i64,
    /// Number of articles crawled in current session
    pub articles_crawled: u64,
    /// Number of errors encountered
    pub error_count: u64,
    /// Current crawling category (if active)
    pub current_category: Option<String>,
    /// Version of the crawler software
    pub version: Option<String>,
    /// Additional metadata
    pub metadata: Vec<(String, String)>,
}

/// Two entries agree in every field, the metadata compared by its pairs.
pub open spec fn same_info(a: InstanceInfo, b: InstanceInfo) -> bool {
    &&& (InstanceInfo { metadata: b.metadata, ..a }) == b
    &&& a.metadata@ == b.metadata@
}

/// An integer held to the range of `i64`.
pub open spec fn saturated_i64(x: int) -> i64 {
    if x > i64::MAX {
        i64::MAX
    } else if x < i64::MIN {
        i64::MIN
    } else {
        x as i64
    }
}

/// Seconds from `since` to `now`, held to the range of `i64`.
pub open spec fn elapsed_since(now: i64, since: i64) -> i64 {
    saturated_i64(now - since)
}

/// `a - b`, held to the range of `i64`.
pub fn saturating_diff(a: i64, b: i64) -> (r: i64)
    ensures
        r == saturated_i64(a - b),
{
    let d: i128 = a as i128 - b as i128;
    if d > i64::MAX as i128 {
        i64::MAX
    } else if d < i64::MIN as i128 {
        i64::MIN
    } else {
        d as i64
    }
}

/// What registering `request` at time `now` does: the registry after and
/// the answer, as `register_at` gives them.
pub open spec fn registered_at(
    before: InstanceRegistry,
    after: InstanceRegistry,
    request: RegisterRequest,
    now: i64,
    r: Result<RegisterResponse, RegistryError>,
) -> bool {
    &&& after.spec_timeout() == before.spec_timeout()
    &&& after.spec_degraded_after() == before.spec_degraded_after()
    &&& after.spec_max_instances() == before.spec_max_instances()
    &&& match r {
                Ok(resp) => {
                    &&& resp.success
                    &&& resp.instance.spec_id() == request.instance_id@
                    &&& resp.message@ == "Instance "@ + resp.instance.spec_id() + " registered successfully"@
                    &&& resp.heartbeat_interval_secs == #[verifier::truncate] (div_toward_zero(before.spec_timeout() as int, 3) as u64)
                    &&& (before.entry(resp.instance) is Some || before.spec_len() < before.spec_max_instances())
                    &&& after.entry(resp.instance) == Some(InstanceInfo {
                        instance: resp.instance,
                        status: InstanceStatus::Online,
                        ip_address: request.ip_address,
                        port: request.port,
                        registered_at: now,
                        last_heartbeat: now,
                        articles_crawled: 0,
                        error_count: 0,
                        current_category: None,
                        version: request.version,
                        metadata: request.metadata,
                    })
                    &&& forall|c: CrawlerInstance| c != resp.instance ==> after.entry(c) == before.entry(c)
                },
                Err(RegistryError::InvalidInstanceId(id)) => {
                    &&& id@ == request.instance_id@
                    &&& forall|c: CrawlerInstance| c.spec_id() != request.instance_id@
                    &&& after.slots() == before.slots()
                },
                Err(RegistryError::CapacityExceeded { current, max }) => {
                    &&& exists|c: CrawlerInstance| c.spec_id() == request.instance_id@ && before.entry(c) is None
                    &&& current == before.spec_len()
                    &&& max == before.spec_max_instances()
                    &&& before.spec_len() >= before.spec_max_instances()
                    &&& after.slots() == before.slots()
                },
                Err(_) => false,
            }
}

/// What a heartbeat `request` received at time `now` does: the registry
/// after and the answer, as `heartbeat_at` gives them.
pub open spec fn heartbeat_done_at(
    before: InstanceRegistry,
    after: InstanceRegistry,
    request: HeartbeatRequest,
    now: i64,
    r: Result<HeartbeatResponse, RegistryError>,
) -> bool {
    &&& after.spec_timeout() == before.spec_timeout()
    &&& after.spec_degraded_after() == before.spec_degraded_after()
    &&& after.spec_max_instances() == before.spec_max_instances()
    &&& match r {
                Ok(resp) => exists|c: CrawlerInstance| {
                    &&& c.spec_id() == request.instance_id@
                    &&& #[trigger] before.entry(c) is Some
                    &&& after.entry(c) == Some(InstanceInfo {
                        last_heartbeat: now,
                        status: status_after_heartbeat(before.entry(c)->0.status),
                        articles_crawled: request.articles_crawled,
                        error_count: request.error_count,
                        current_category: request.current_category,
                        ..before.entry(c)->0
                    })
                    &&& resp.success
                    &&& resp.message@ == "Heartbeat received"@
                    &&& resp.should_crawl == status_after_heartbeat(before.entry(c)->0.status).spec_is_available()
                    &&& resp.assigned_categories@.len() == 0
                    &&& forall|d: CrawlerInstance| d != c ==> after.entry(d) == before.entry(d)
                },
                Err(RegistryError::InvalidInstanceId(id)) => id@ == request.instance_id@
                    && (forall|c: CrawlerInstance| c.spec_id() != request.instance_id@)
                    && after.slots() == before.slots(),
                Err(RegistryError::InstanceNotFound(c)) => c.spec_id() == request.instance_id@
                    && before.entry(c) is None && after.slots() == before.slots(),
                Err(_) => false,
            }
}

/// The registry after statuses are updated at time `now`: each entry's
/// status follows the age of its last heartbeat; nothing else changes.
pub open spec fn statuses_updated_at(before: InstanceRegistry, after: InstanceRegistry, now: i64) -> bool {
    &&& forall|c: CrawlerInstance| #[trigger] after.entry(c) == match before.entry(c) {
                Some(info) => Some(InstanceInfo {
                    status: status_for_age(
                        info.status,
                        now - info.last_heartbeat,
                        before.spec_timeout() as int,
                        before.spec_degraded_after() as int,
                    ),
                    ..info
                }),
                None => None,
            }
    &&& after.spec_timeout() == before.spec_timeout()
    &&& after.spec_degraded_after() == before.spec_degraded_after()
    &&& after.spec_max_instances() == before.spec_max_instances()
}

/// The registry after statuses are updated at a clock reading `now`,
/// which the clock keeps within `clock_bound` of the epoch.
pub open spec fn statuses_updated_now(before: InstanceRegistry, after: InstanceRegistry, now: i64) -> bool {
    &&& -clock_bound() <= now <= clock_bound()
    &&& statuses_updated_at(before, after, now)
}

/// Division that rounds toward zero, as integer division does on `i64`.
pub open spec fn div_toward_zero(a: int, d: int) -> int {
    if a >= 0 { a / d } else { -((-a) / d) }
}

/// Status after a heartbeat: offline and degraded instances come back online.
pub open spec fn status_after_heartbeat(s: InstanceStatus) -> InstanceStatus {
    if s == InstanceStatus::Offline || s == InstanceStatus::Degraded { InstanceStatus::Online } else { s }
}

/// Status from the age of the last heartbeat; maintenance is kept.
pub open spec fn status_for_age(s: InstanceStatus, age: int, timeout: int, degraded_after: int) -> InstanceStatus {
    if s == InstanceStatus::Maintenance {
        s
    } else if age > timeout {
        InstanceStatus::Offline
    } else if age > degraded_after {
        InstanceStatus::Degraded
    } else {
        InstanceStatus::Online
    }
}

fn copy_metadata(m: &Vec<(String, String)>) -> (r: Vec<(String, String)>)
    ensures
        r@ == m@,
{
    let mut out: Vec<(String, String)> = Vec::new();
    let mut i: usize = 0;
    while i < m.len()
        invariant
            i <= m@.len(),
            out@ == m@.take(i as int),
        decreases m@.len() - i,
    {
        let (k, v) = &m[i];
        out.push((copy_string(k), copy_string(v)));
        proof {
            assert(m@.take(i + 1) =~= m@.take(i as int).push(m@[i as int]));
        }
        i = i + 1;
    }
    proof {
        assert(m@.take(m@.len() as int) =~= m@);
    }
    out
}

impl InstanceInfo {
    /// New info registered at time `now`: online, with zero counters.
    pub fn new_at(instance: CrawlerInstance, ip_address: String, port: u16, now: i64) -> (r: Self)
        ensures
            r.instance == instance,
            r.status == InstanceStatus::Online,
            r.ip_address == ip_address,
            r.port == port,
            r.registered_at == now,
            r.last_heartbeat == now,
            r.articles_crawled == 0,
            r.error_count == 0,
            r.current_category is None,
            r.version is None,
            r.metadata@.len() == 0,
    {
        InstanceInfo {
            instance,
            status: InstanceStatus::Online,
            ip_address,
            port,
            registered_at: now,
            last_heartbeat: now,
            articles_crawled: 0,
            error_count: 0,
            current_category: None,
            version: None,
            metadata: Vec::new(),
        }
    }

    /// Create new instance info, registered now.
    pub fn new(instance: CrawlerInstance, ip_address: String, port: u16) -> (r: Self)
        ensures
            r.instance == instance,
            r.status == InstanceStatus::Online,
            r.ip_address == ip_address,
            r.port == port,
            r.registered_at == r.last_heartbeat,
            r.articles_crawled == 0,
            r.error_count == 0,
            r.current_category is None,
            r.version is None,
            r.metadata@.len() == 0,
    {
        Self::new_at(instance, ip_address, port, now_unix_secs())
    }

    /// A field-by-field copy.
    pub fn copy(&self) -> (r: Self)
        ensures
            same_info(r, *self),
    {
        InstanceInfo {
            instance: self.instance,
            status: self.status,
            ip_address: copy_string(&self.ip_address),
            port: self.port,
            registered_at: self.registered_at,
            last_heartbeat: self.last_heartbeat,
            articles_crawled: self.articles_crawled,
            error_count: self.error_count,
            current_category: copy_opt_string(&self.current_category),
            version: copy_opt_string(&self.version),
            metadata: copy_metadata(&self.metadata),
        }
    }

    /// Record a heartbeat at time `now`.
    pub fn update_heartbeat_at(&mut self, now: i64)
        ensures
            *final(self) == (InstanceInfo {
                last_heartbeat: now,
                status: status_after_heartbeat(old(self).status),
                ..*old(self)
            }),
    {
        self.last_heartbeat = now;
        if self.status == InstanceStatus::Offline || self.status == InstanceStatus::Degraded {
            self.status = InstanceStatus::Online;
        }
    }

    /// Update heartbeat timestamp to now.
    pub fn update_heartbeat(&mut self)
        ensures
            *final(self) == (InstanceInfo {
                last_heartbeat: final(self).last_heartbeat,
                status: status_after_heartbeat(old(self).status),
                ..*old(self)
            }),
    {
        self.update_heartbeat_at(now_unix_secs());
    }

    /// Seconds from the last heartbeat to `now`.
    pub fn seconds_since_heartbeat_at(&self, now: i64) -> (r: i64)
        requires
            i64::MIN <= now - self.last_heartbeat <= i64::MAX,
        ensures
            r == now - self.last_heartbeat,
    {
        now - self.last_heartbeat
    }

    /// Whether, at time `now`, the last heartbeat is older than the timeout.
    pub fn is_heartbeat_stale_at(&self, timeout_secs: i64, now: i64) -> (r: bool)
        requires
            i64::MIN <= now - self.last_heartbeat <= i64::MAX,
        ensures
            r == (now - self.last_heartbeat > timeout_secs),
    {
        self.seconds_since_heartbeat_at(now) > timeout_secs
    }

    /// Seconds from the last heartbeat to the present moment, saturated at
    /// the bounds of `i64`. The present moment is read from the clock, so only
    /// that the result is this difference for some moment is stated.
    pub fn seconds_since_heartbeat(&self) -> (r: i64)
        ensures
            exists|now: i64| r == #[trigger] elapsed_since(now, self.last_heartbeat),
    {
        let now = now_unix_secs();
        let r = saturating_diff(now, self.last_heartbeat);
        assert(r == elapsed_since(now, self.last_heartbeat));
        r
    }

    /// Whether the last heartbeat is older than the timeout at the present
    /// moment, read from the clock.
    pub fn is_heartbeat_stale(&self, timeout_secs: i64) -> (r: bool)
        ensures
            exists|now: i64| r == (#[trigger] elapsed_since(now, self.last_heartbeat) > timeout_secs),
    {
        self.seconds_since_heartbeat() > timeout_secs
    }

    /// Get the full address, `ip:port`.
    pub fn address(&self) -> (r: String)
        ensures
            r@ == self.ip_address@ + ":"@ + decimal(self.port as nat),
    {
        let mut out: Vec<char> = Vec::new();
        push_str(&mut out, self.ip_address.as_str());
        push_str(&mut out, ":");
        push_decimal(&mut out, self.port as u64);
        string_of(out.as_slice())
    }

    /// Mark as offline.
    pub fn mark_offline(&mut self)
        ensures
            *final(self) == (InstanceInfo { status: InstanceStatus::Offline, ..*old(self) }),
    {
        self.status = InstanceStatus::Offline;
    }

    /// Mark as degraded (only an online instance degrades).
    pub fn mark_degraded(&mut self)
        ensures
            *final(self) == (InstanceInfo {
                status: if old(self).status == InstanceStatus::Online {
                    InstanceStatus::Degraded
                } else {
                    old(self).status
                },
                ..*old(self)
            }),
    {
        if self.status == InstanceStatus::Online {
            self.status = InstanceStatus::Degraded;
        }
    }

    /// Set maintenance mode; leaving it brings the instance back online.
    pub fn set_maintenance(&mut self, enabled: bool)
        ensures
            *final(self) == (InstanceInfo {
                status: if enabled {
                    InstanceStatus::Maintenance
                } else if old(self).status == InstanceStatus::Maintenance {
                    InstanceStatus::Online
                } else {
                    old(self).status
                },
                ..*old(self)
            }),
    {
        if enabled {
            self.status = InstanceStatus::Maintenance;
        } else if self.status == InstanceStatus::Maintenance {
            self.status = InstanceStatus::Online;
        }
    }

    /// Update crawl stats.
    pub fn update_stats(&mut self, articles: u64, errors: u64)
        requires
            old(self).articles_crawled + articles <= u64::MAX,
            old(self).error_count + errors <= u64::MAX,
        ensures
            *final(self) == (InstanceInfo {
                articles_crawled: (old(self).articles_crawled + articles) as u64,
                error_count: (old(self).error_count + errors) as u64,
                ..*old(self)
            }),
    {
        self.articles_crawled = self.articles_crawled + articles;
        self.error_count = self.error_count + errors;
    }
}

/// Request to register an instance.
#[derive(Debug)]
pub struct RegisterRequest {
    pub instance_id: String,
    pub ip_address: String,
    pub port: u16,
    pub version: Option<String>,
    pub metadata: Vec<(String, String)>,
}

/// Response to registration request.
#[derive(Debug)]
pub struct RegisterResponse {
    pub success: bool,
    pub instance: CrawlerInstance,
    pub message: String,
    pub heartbeat_interval_secs: u64,
}

/// Heartbeat request from instance.
#[derive(Debug)]
pub struct HeartbeatRequest {
    pub instance_id: String,
    pub articles_crawled: u64,
    pub error_count: u64,
    pub current_category: Option<String>,
}

/// Heartbeat response.
#[derive(Debug)]
pub struct HeartbeatResponse {
    pub success: bool,
    pub message: String,
    pub should_crawl: bool,
    pub assigned_categories: Vec<String>,
}

/// Registry statistics.
#[derive(Debug, Clone, Copy, PartialEq, Eq)]
pub struct RegistryStats {
    pub total_instances: usize,
    pub online: usize,
    pub degraded: usize,
    pub offline: usize,
    pub maintenance: usize,
    pub total_articles: u64,
    pub total_errors: u64,
}

/// Registry errors.
#[derive(Debug)]
pub enum RegistryError {
    /// Invalid instance ID
    InvalidInstanceId(String),
    /// Instance not found
    InstanceNotFound(CrawlerInstance),
    /// Registry at capacity
    CapacityExceeded { current: usize, max: usize },
    /// Instance already registered
    AlreadyRegistered(CrawlerInstance),
}

impl RegistryError {
    /// The message that displays the error.
    pub open spec fn spec_message(&self) -> Seq<char> {
        match self {
            RegistryError::InvalidInstanceId(id) => "Invalid instance ID: "@ + id@,
            RegistryError::InstanceNotFound(i) => "Instance not found: "@ + i.spec_id(),
            RegistryError::CapacityExceeded { current, max } => "Registry at capacity: "@ + decimal(
                *current as nat,
            ) + "/"@ + decimal(*max as nat),
            RegistryError::AlreadyRegistered(i) => "Instance already registered: "@ + i.spec_id(),
        }
    }

    /// The message that displays the error.
    pub fn message(&self) -> (r: String)
        ensures
            r@ == self.spec_message(),
    {
        let mut out: Vec<char> = Vec::new();
        match self {
            RegistryError::InvalidInstanceId(id) => {
                push_str(&mut out, "Invalid instance ID: ");
                push_str(&mut out, id.as_str());
            },
            RegistryError::InstanceNotFound(i) => {
                push_str(&mut out, "Instance not found: ");
                push_str(&mut out, i.id());
            },
            RegistryError::CapacityExceeded { current, max } => {
                push_str(&mut out, "Registry at capacity: ");
                push_decimal(&mut out, *current as u64);
                push_str(&mut out, "/");
                push_decimal(&mut out, *max as u64);
            },
            RegistryError::AlreadyRegistered(i) => {
                push_str(&mut out, "Instance already registered: ");
                push_str(&mut out, i.id());
            },
        }
        string_of(out.as_slice())
    }
}

/// Position of an instance's entry in the registry.
pub open spec fn slot_of(c: CrawlerInstance) -> int {
    match c {
        CrawlerInstance::Main => 0,
        CrawlerInstance::Sub1 => 1,
        CrawlerInstance::Sub2 => 2,
    }
}

fn slot_index(c: CrawlerInstance) -> (r: usize)
    ensures
        r == slot_of(c),
{
    match c {
        CrawlerInstance::Main => 0,
        CrawlerInstance::Sub1 => 1,
        CrawlerInstance::Sub2 => 2,
    }
}

/// The instance whose entry stands at a position.
pub open spec fn instance_at(i: int) -> CrawlerInstance {
    if i == 0 { CrawlerInstance::Main } else if i == 1 { CrawlerInstance::Sub1 } else { CrawlerInstance::Sub2 }
}

/// The present entries, in slot order, that pass the status filter: all of
/// them, or only the available ones.
pub open spec fn selected(s: Seq<Option<InstanceInfo>>, only_available: bool) -> Seq<InstanceInfo>
    decreases s.len(),
{
    if s.len() == 0 {
        Seq::empty()
    } else {
        let p = selected(s.drop_last(), only_available);
        match s.last() {
            Some(info) => if !only_available || info.status.spec_is_available() { p.push(info) } else { p },
            None => p,
        }
    }
}

/// Number of present entries.
pub open spec fn count_present(s: Seq<Option<InstanceInfo>>) -> nat
    decreases s.len(),
{
    if s.len() == 0 {
        0
    } else {
        count_present(s.drop_last()) + if s.last() is Some { 1nat } else { 0nat }
    }
}

/// Number of present entries with a given status.
pub open spec fn count_status(s: Seq<Option<InstanceInfo>>, st: InstanceStatus) -> nat
    decreases s.len(),
{
    if s.len() == 0 {
        0
    } else {
        count_status(s.drop_last(), st) + match s.last() {
            Some(info) => if info.status == st { 1nat } else { 0nat },
            None => 0nat,
        }
    }
}

/// Sum of a counter over present entries.
pub open spec fn sum_articles(s: Seq<Option<InstanceInfo>>) -> nat
    decreases s.len(),
{
    if s.len() == 0 {
        0
    } else {
        sum_articles(s.drop_last()) + match s.last() {
            Some(info) => info.articles_crawled as nat,
            None => 0nat,
        }
    }
}

/// Sum of the error counters over present entries.
pub open spec fn sum_errors(s: Seq<Option<InstanceInfo>>) -> nat
    decreases s.len(),
{
    if s.len() == 0 {
        0
    } else {
        sum_errors(s.drop_last()) + match s.last() {
            Some(info) => info.error_count as nat,
            None => 0nat,
        }
    }
}

/// Registry for tracking all crawler instances.
pub struct InstanceRegistry {
    instances: Vec<Option<InstanceInfo>>,
    heartbeat_timeout_secs: i64,
    degraded_threshold_secs: i64,
    max_instances: usize,
}

impl InstanceRegistry {
    /// The entry of an instance, if registered.
    pub closed spec fn entry(&self, c: CrawlerInstance) -> Option<InstanceInfo> {
        self.instances@[slot_of(c)]
    }

    /// All entry slots, in `main`, `sub1`, `sub2` order.
    pub closed spec fn slots(&self) -> Seq<Option<InstanceInfo>> {
        self.instances@
    }

    pub closed spec fn spec_timeout(&self) -> i64 {
        self.heartbeat_timeout_secs
    }

    pub closed spec fn spec_degraded_after(&self) -> i64 {
        self.degraded_threshold_secs
    }

    pub closed spec fn spec_max_instances(&self) -> usize {
        self.max_instances
    }

    /// Three slots, each entry filed under its own instance, and never more
    /// entries than the registry allows.
    pub closed spec fn wf(&self) -> bool {
        &&& self.instances@.len() == 3
        &&& forall|i: int| 0 <= i < 3 ==> (#[trigger] self.instances@[i] matches Some(info) ==> info.instance == instance_at(i))
        &&& count_present(self.instances@) <= self.max_instances
    }

    /// Number of registered instances.
    pub open spec fn spec_len(&self) -> nat {
        count_present(self.slots())
    }

    /// Create a new registry.
    pub fn new(heartbeat_timeout_secs: u64, max_instances: usize) -> (r: Self)
        ensures
            r.wf(),
            forall|c: CrawlerInstance| r.entry(c) is None,
            r.spec_timeout() == #[verifier::truncate] (heartbeat_timeout_secs as i64),
            r.spec_degraded_after() == div_toward_zero(r.spec_timeout() as int, 2),
            r.spec_max_instances() == max_instances,
    {
        let mut v: Vec<Option<InstanceInfo>> = Vec::new();
        v.push(None);
        v.push(None);
        v.push(None);
        let t: i64 = #[verifier::truncate] (heartbeat_timeout_secs as i64);
        proof {
            assert(v@.drop_last().drop_last().drop_last() =~= Seq::<Option<InstanceInfo>>::empty());
            assert(count_present(v@) == 0) by {
                reveal_with_fuel(count_present, 4);
            }
        }
        InstanceRegistry {
            instances: v,
            heartbeat_timeout_secs: t,
            degraded_threshold_secs: t / 2,
            max_instances,
        }
    }

    fn len_present(&self) -> (r: usize)
        requires
            self.wf(),
        ensures
            r == self.spec_len(),
    {
        let mut n: usize = 0;
        let mut i: usize = 0;
        while i < 3
            invariant
                self.instances@.len() == 3,
                i <= 3,
                n == count_present(self.instances@.take(i as int)),
                n <= i,
            decreases 3 - i,
        {
            proof {
                assert(self.instances@.take(i + 1).drop_last() =~= self.instances@.take(i as int));
            }
            if self.instances[i].is_some() {
                n = n + 1;
            }
            i = i + 1;
        }
        proof {
            assert(self.instances@.take(3) =~= self.instances@);
        }
        n
    }

    /// Register (or re-register) an instance at time `now`.
    pub fn register_at(&mut self, request: RegisterRequest, now: i64) -> (r: Result<RegisterResponse, RegistryError>)
        requires
            old(self).wf(),
        ensures
            final(self).wf(),
            registered_at(*old(self), *final(self), request, now, r),
    {
        let instance = match CrawlerInstance::from_id(request.instance_id.as_str()) {
            Ok(c) => c,
            Err(()) => {
                return Err(RegistryError::InvalidInstanceId(request.instance_id));
            },
        };
        let idx = slot_index(instance);
        let current = self.len_present();
        if self.instances[idx].is_none() && current >= self.max_instances {
            return Err(RegistryError::CapacityExceeded { current, max: self.max_instances });
        }
        let mut info = InstanceInfo::new_at(instance, request.ip_address, request.port, now);
        info.version = request.version;
        info.metadata = request.metadata;
        let ghost before = self.instances@;
        self.instances.set(idx, Some(info));
        proof {
            lemma_count_present_set(before, idx as int, self.instances@[idx as int]);
            assert forall|i: int| 0 <= i < 3 implies (#[trigger] self.instances@[i] matches Some(inf) ==> inf.instance == instance_at(i)) by {
                if i == idx {
                    assert(instance_at(i) == instance);
                }
            }
            assert forall|c: CrawlerInstance| c != instance implies self.entry(c) == old(self).entry(c) by {
                assert(slot_of(c) != idx);
            }
        }
        let mut msg: Vec<char> = Vec::new();
        push_str(&mut msg, "Instance ");
        push_str(&mut msg, instance.id());
        push_str(&mut msg, " registered successfully");
        Ok(RegisterResponse {
            success: true,
            instance,
            message: string_of(msg.as_slice()),
            heartbeat_interval_secs: #[verifier::truncate] ((self.heartbeat_timeout_secs / 3) as u64),
        })
    }

    /// Register a new instance, stamped with the current time.
    pub fn register(&mut self, request: RegisterRequest) -> (r: Result<RegisterResponse, RegistryError>)
        requires
            old(self).wf(),
        ensures
            final(self).wf(),
            exists|now: i64| -clock_bound() <= now <= clock_bound() && #[trigger] registered_at(*old(self), *final(self), request, now, r),
            match r {
                Ok(resp) => final(self).entry(resp.instance) is Some
                    && final(self).entry(resp.instance)->0.status == InstanceStatus::Online
                    && forall|c: CrawlerInstance| c != resp.instance ==> final(self).entry(c) == old(self).entry(c),
                Err(_) => final(self).slots() == old(self).slots(),
            },
    {
        let ghost req = request;
        let now = now_unix_secs();
        let r = self.register_at(request, now);
        assert(registered_at(*old(self), *self, req, now, r));
        r
    }

    /// Process a heartbeat from an instance at time `now`.
    pub fn heartbeat_at(&mut self, request: HeartbeatRequest, now: i64) -> (r: Result<HeartbeatResponse, RegistryError>)
        requires
            old(self).wf(),
        ensures
            final(self).wf(),
            heartbeat_done_at(*old(self), *final(self), request, now, r),
    {
        let instance = match CrawlerInstance::from_id(request.instance_id.as_str()) {
            Ok(c) => c,
            Err(()) => {
                return Err(RegistryError::InvalidInstanceId(request.instance_id));
            },
        };
        let idx = slot_index(instance);
        if self.instances[idx].is_none() {
            return Err(RegistryError::InstanceNotFound(instance));
        }
        let ghost before = self.instances@;
        let mut slot: Option<InstanceInfo> = None;
        std::mem::swap(&mut slot, &mut self.instances[idx]);
        proof {
            lemma_count_present_set(before, idx as int, None);
        }
        let mut info = match slot {
            Some(i) => i,
            None => {
                return Err(RegistryError::InstanceNotFound(instance));
            },
        };
        info.update_heartbeat_at(now);
        info.articles_crawled = request.articles_crawled;
        info.error_count = request.error_count;
        info.current_category = request.current_category;
        let should_crawl = info.status.is_available();
        let ghost mid = self.instances@;
        self.instances.set(idx, Some(info));
        proof {
            lemma_count_present_set(mid, idx as int, self.instances@[idx as int]);
            assert(self.instances@ =~= before.update(idx as int, self.instances@[idx as int]));
            lemma_count_present_set(before, idx as int, self.instances@[idx as int]);
            assert forall|i: int| 0 <= i < 3 implies (#[trigger] self.instances@[i] matches Some(inf) ==> inf.instance == instance_at(i)) by {
                if i == idx {
                    assert(instance_at(i) == instance);
                }
            }
            assert forall|d: CrawlerInstance| d != instance implies self.entry(d) == old(self).entry(d) by {
                assert(slot_of(d) != idx);
            }
        }
        Ok(HeartbeatResponse {
            success: true,
            message: string_of(chars_of("Heartbeat received").as_slice()),
            should_crawl,
            assigned_categories: Vec::new(),
        })
    }

    /// Process heartbeat from instance, stamped with the current time.
    pub fn heartbeat(&mut self, request: HeartbeatRequest) -> (r: Result<HeartbeatResponse, RegistryError>)
        requires
            old(self).wf(),
        ensures
            final(self).wf(),
            exists|now: i64| -clock_bound() <= now <= clock_bound() && #[trigger] heartbeat_done_at(*old(self), *final(self), request, now, r),
            r is Err ==> final(self).slots() == old(self).slots(),
    {
        let ghost req = request;
        let now = now_unix_secs();
        let r = self.heartbeat_at(request, now);
        assert(heartbeat_done_at(*old(self), *self, req, now, r));
        r
    }

    /// Get instance info.
    pub fn get_instance(&self, instance: CrawlerInstance) -> (r: Option<InstanceInfo>)
        requires
            self.wf(),
        ensures
            r is Some == self.entry(instance) is Some,
            r matches Some(info) ==> same_info(info, self.entry(instance)->0),
    {
        match &self.instances[slot_index(instance)] {
            Some(info) => Some(info.copy()),
            None => None,
        }
    }

    /// Copies of the registered entries (in `main`, `sub1`, `sub2` order)
    /// that pass the status filter.
    fn collect(&self, only_available: bool) -> (r: Vec<InstanceInfo>)
        requires
            self.wf(),
        ensures
            r@.len() == selected(self.slots(), only_available).len(),
            forall|k: int| 0 <= k < r@.len() ==> same_info(#[trigger] r@[k], selected(self.slots(), only_available)[k]),
    {
        let mut out: Vec<InstanceInfo> = Vec::new();
        let mut i: usize = 0;
        let ghost s = self.instances@;
        while i < 3
            invariant
                s == self.instances@,
                s.len() == 3,
                i <= 3,
                out@.len() == selected(s.take(i as int), only_available).len(),
                forall|k: int| 0 <= k < out@.len() ==> same_info(#[trigger] out@[k], selected(s.take(i as int), only_available)[k]),
            decreases 3 - i,
        {
            proof {
                assert(s.take(i + 1).drop_last() =~= s.take(i as int));
            }
            match &self.instances[i] {
                Some(info) => {
                    if !only_available || info.status.is_available() {
                        let c = info.copy();
                        out.push(c);
                    }
                },
                None => {},
            }
            i = i + 1;
        }
        proof {
            assert(s.take(3) =~= s);
        }
        out
    }

    /// Get all instances, in `main`, `sub1`, `sub2` order.
    pub fn get_all_instances(&self) -> (r: Vec<InstanceInfo>)
        requires
            self.wf(),
        ensures
            r@.len() == selected(self.slots(), false).len(),
            forall|k: int| 0 <= k < r@.len() ==> same_info(#[trigger] r@[k], selected(self.slots(), false)[k]),
    {
        self.collect(false)
    }

    /// Get online (available) instances, in `main`, `sub1`, `sub2` order.
    pub fn get_online_instances(&self) -> (r: Vec<InstanceInfo>)
        requires
            self.wf(),
        ensures
            r@.len() == selected(self.slots(), true).len(),
            forall|k: int| 0 <= k < r@.len() ==> same_info(#[trigger] r@[k], selected(self.slots(), true)[k]),
    {
        self.collect(true)
    }

    /// Unregister an instance, handing back its entry.
    pub fn unregister(&mut self, instance: CrawlerInstance) -> (r: Option<InstanceInfo>)
        requires
            old(self).wf(),
        ensures
            final(self).wf(),
            r == old(self).entry(instance),
            final(self).entry(instance) is None,
            forall|c: CrawlerInstance| c != instance ==> final(self).entry(c) == old(self).entry(c),
            final(self).spec_timeout() == old(self).spec_timeout(),
            final(self).spec_degraded_after() == old(self).spec_degraded_after(),
            final(self).spec_max_instances() == old(self).spec_max_instances(),
    {
        let idx = slot_index(instance);
        let ghost before = self.instances@;
        let mut slot: Option<InstanceInfo> = None;
        std::mem::swap(&mut slot, &mut self.instances[idx]);
        proof {
            assert(self.instances@ =~= before.update(idx as int, None));
            lemma_count_present_set(before, idx as int, None);
            assert forall|c: CrawlerInstance| c != instance implies self.entry(c) == old(self).entry(c) by {
                assert(slot_of(c) != idx);
            }
        }
        slot
    }

    /// Update instance statuses from heartbeat ages at time `now`.
    pub fn update_statuses_at(&mut self, now: i64)
        requires
            old(self).wf(),
            forall|c: CrawlerInstance| #[trigger] old(self).entry(c) is Some ==> i64::MIN <= now - old(self).entry(c)->0.last_heartbeat <= i64::MAX,
        ensures
            final(self).wf(),
            statuses_updated_at(*old(self), *final(self), now),
    {
        let mut i: usize = 0;
        let ghost orig = self.instances@;
        proof {
            assert forall|j: int| 0 <= j < 3 && #[trigger] orig[j] is Some implies i64::MIN <= now - orig[j]->0.last_heartbeat <= i64::MAX by {
                let c = instance_at(j);
                assert(slot_of(c) == j);
                assert(old(self).entry(c) is Some);
            }
        }
        while i < 3
            invariant
                self.instances@.len() == 3,
                orig.len() == 3,
                i <= 3,
                self.heartbeat_timeout_secs == old(self).heartbeat_timeout_secs,
                self.degraded_threshold_secs == old(self).degraded_threshold_secs,
                self.max_instances == old(self).max_instances,
                orig == old(self).instances@,
                forall|j: int| 0 <= j < 3 ==> (#[trigger] orig[j] matches Some(info) ==> info.instance == instance_at(j)),
                count_present(orig) <= self.max_instances,
                forall|j: int| 0 <= j < 3 && #[trigger] orig[j] is Some ==> i64::MIN <= now - orig[j]->0.last_heartbeat <= i64::MAX,
                forall|j: int| i <= j < 3 ==> #[trigger] self.instances@[j] == orig[j],
                forall|j: int| 0 <= j < i ==> #[trigger] self.instances@[j] == match orig[j] {
                    Some(info) => Some(InstanceInfo {
                        status: status_for_age(
                            info.status,
                            now - info.last_heartbeat,
                            self.heartbeat_timeout_secs as int,
                            self.degraded_threshold_secs as int,
                        ),
                        ..info
                    }),
                    None => None,
                },
            decreases 3 - i,
        {
            let timeout = self.heartbeat_timeout_secs;
            let degraded = self.degraded_threshold_secs;
            let ghost before = self.instances@;
            let mut slot: Option<InstanceInfo> = None;
            std::mem::swap(&mut slot, &mut self.instances[i]);
            let updated = match slot {
                Some(mut info) => {
                    if info.status != InstanceStatus::Maintenance {
                        let age = now - info.last_heartbeat;
                        if age > timeout {
                            info.status = InstanceStatus::Offline;
                        } else if age > degraded {
                            info.status = InstanceStatus::Degraded;
                        } else {
                            info.status = InstanceStatus::Online;
                        }
                    }
                    Some(info)
                },
                None => None,
            };
            self.instances.set(i, updated);
            proof {
                assert(self.instances@ =~= before.update(i as int, self.instances@[i as int]));
            }
            i = i + 1;
        }
        proof {
            lemma_count_present_same_shape(orig, self.instances@);
            assert forall|c: CrawlerInstance| #[trigger] self.entry(c) == match old(self).entry(c) {
                Some(info) => Some(InstanceInfo {
                    status: status_for_age(
                        info.status,
                        now - info.last_heartbeat,
                        old(self).spec_timeout() as int,
                        old(self).spec_degraded_after() as int,
                    ),
                    ..info
                }),
                None => None,
            } by {
                assert(0 <= slot_of(c) < 3);
            }
        }
    }

    /// Update instance statuses based on heartbeat timestamps, now.
    pub fn update_statuses(&mut self)
        requires
            old(self).wf(),
            forall|c: CrawlerInstance| #[trigger] old(self).entry(c) is Some ==> -clock_bound() <= old(self).entry(c)->0.last_heartbeat <= clock_bound(),
        ensures
            final(self).wf(),
            exists|now: i64| #[trigger] statuses_updated_now(*old(self), *final(self), now),
            forall|c: CrawlerInstance| (#[trigger] final(self).entry(c) is Some) == old(self).entry(c) is Some,
    {
        let now = now_unix_secs();
        self.update_statuses_at(now);
        assert(statuses_updated_now(*old(self), *self, now));
    }

    /// Get registry statistics.
    pub fn stats(&self) -> (r: RegistryStats)
        requires
            self.wf(),
            sum_articles(self.slots()) <= u64::MAX,
            sum_errors(self.slots()) <= u64::MAX,
        ensures
            r.total_instances == self.spec_len(),
            r.online == count_status(self.slots(), InstanceStatus::Online),
            r.degraded == count_status(self.slots(), InstanceStatus::Degraded),
            r.offline == count_status(self.slots(), InstanceStatus::Offline),
            r.maintenance == count_status(self.slots(), InstanceStatus::Maintenance),
            r.total_articles == sum_articles(self.slots()),
            r.total_errors == sum_errors(self.slots()),
    {
        let mut online: usize = 0;
        let mut degraded: usize = 0;
        let mut offline: usize = 0;
        let mut maintenance: usize = 0;
        let mut total_articles: u64 = 0;
        let mut total_errors: u64 = 0;
        let mut i: usize = 0;
        let ghost s = self.instances@;
        while i < 3
            invariant
                s == self.instances@,
                s.len() == 3,
                i <= 3,
                online == count_status(s.take(i as int), InstanceStatus::Online),
                degraded == count_status(s.take(i as int), InstanceStatus::Degraded),
                offline == count_status(s.take(i as int), InstanceStatus::Offline),
                maintenance == count_status(s.take(i as int), InstanceStatus::Maintenance),
                online <= i && degraded <= i && offline <= i && maintenance <= i,
                total_articles == sum_articles(s.take(i as int)),
                total_errors == sum_errors(s.take(i as int)),
                sum_articles(s) <= u64::MAX,
                sum_errors(s) <= u64::MAX,
            decreases 3 - i,
        {
            proof {
                assert(s.take(i + 1).drop_last() =~= s.take(i as int));
                lemma_sum_prefix_bound(s, i + 1);
            }
            match &self.instances[i] {
                Some(info) => {
                    match info.status {
                        InstanceStatus::Online => online = online + 1,
                        InstanceStatus::Degraded => degraded = degraded + 1,
                        InstanceStatus::Offline => offline = offline + 1,
                        InstanceStatus::Maintenance => maintenance = maintenance + 1,
                    }
                    total_articles = total_articles + info.articles_crawled;
                    total_errors = total_errors + info.error_count;
                },
                None => {},
            }
            i = i + 1;
        }
        proof {
            assert(s.take(3) =~= s);
        }
        RegistryStats {
            total_instances: self.len_present(),
            online,
            degraded,
            offline,
            maintenance,
            total_articles,
            total_errors,
        }
    }

    /// Set maintenance mode for an instance.
    pub fn set_maintenance(&mut self, instance: CrawlerInstance, enabled: bool) -> (r: Result<(), RegistryError>)
        requires
            old(self).wf(),
        ensures
            final(self).wf(),
            match r {
                Ok(()) => old(self).entry(instance) is Some && final(self).entry(instance) == Some(InstanceInfo {
                    status: if enabled {
                        InstanceStatus::Maintenance
                    } else if old(self).entry(instance)->0.status == InstanceStatus::Maintenance {
                        InstanceStatus::Online
                    } else {
                        old(self).entry(instance)->0.status
                    },
                    ..old(self).entry(instance)->0
                }),
                Err(e) => e == RegistryError::InstanceNotFound(instance) && old(self).entry(instance) is None
                    && final(self).slots() == old(self).slots(),
            },
            forall|c: CrawlerInstance| c != instance ==> final(self).entry(c) == old(self).entry(c),
            final(self).spec_timeout() == old(self).spec_timeout(),
            final(self).spec_degraded_after() == old(self).spec_degraded_after(),
            final(self).spec_max_instances() == old(self).spec_max_instances(),
    {
        let idx = slot_index(instance);
        if self.instances[idx].is_none() {
            return Err(RegistryError::InstanceNotFound(instance));
        }
        let ghost before = self.instances@;
        let mut slot: Option<InstanceInfo> = None;
        std::mem::swap(&mut slot, &mut self.instances[idx]);
        let updated = match slot {
            Some(mut info) => {
                info.set_maintenance(enabled);
                Some(info)
            },
            None => None,
        };
        self.instances.set(idx, updated);
        proof {
            assert(self.instances@ =~= before.update(idx as int, self.instances@[idx as int]));
            lemma_count_present_set(before, idx as int, self.instances@[idx as int]);
            assert forall|c: CrawlerInstance| c != instance implies self.entry(c) == old(self).entry(c) by {
                assert(slot_of(c) != idx);
            }
        }
        Ok(())
    }
}

proof fn lemma_count_present_set(s: Seq<Option<InstanceInfo>>, i: int, v: Option<InstanceInfo>)
    requires
        0 <= i < s.len(),
    ensures
        count_present(s.update(i, v)) == count_present(s) - (if s[i] is Some { 1int } else { 0int }) + (if v is Some { 1int } else { 0int }),
        count_present(s) <= s.len(),
    decreases s.len(),
{
    let t = s.update(i, v);
    if i == s.len() - 1 {
        assert(t.drop_last() =~= s.drop_last());
        lemma_count_present_bound(s);
    } else {
        assert(t.drop_last() =~= s.drop_last().update(i, v));
        lemma_count_present_set(s.drop_last(), i, v);
    }
}

proof fn lemma_count_present_bound(s: Seq<Option<InstanceInfo>>)
    ensures
        count_present(s) <= s.len(),
    decreases s.len(),
{
    if s.len() > 0 {
        lemma_count_present_bound(s.drop_last());
    }
}

proof fn lemma_count_present_same_shape(a: Seq<Option<InstanceInfo>>, b: Seq<Option<InstanceInfo>>)
    requires
        a.len() == b.len(),
        forall|i: int| 0 <= i < a.len() ==> (#[trigger] a[i] is Some) == b[i] is Some,
    ensures
        count_present(a) == count_present(b),
    decreases a.len(),
{
    if a.len() > 0 {
        assert forall|i: int| 0 <= i < a.drop_last().len() implies (#[trigger] a.drop_last()[i] is Some) == b.drop_last()[i] is Some by {
            assert(a.drop_last()[i] == a[i]);
            assert(b.drop_last()[i] == b[i]);
        }
        assert(a.last() is Some == b.last() is Some);
        lemma_count_present_same_shape(a.drop_last(), b.drop_last());
    }
}

proof fn lemma_sum_prefix_bound(s: Seq<Option<InstanceInfo>>, k: int)
    requires
        0 <= k <= s.len(),
    ensures
        sum_articles(s.take(k)) <= sum_articles(s),
        sum_errors(s.take(k)) <= sum_errors(s),
    decreases s.len(),
{
    if k < s.len() {
        assert(s.drop_last().take(k) =~= s.take(k));
        lemma_sum_prefix_bound(s.drop_last(), k);
    } else {
        assert(s.take(k) =~= s);
    }
}

proof fn lemma_status_counts_partition(s: Seq<Option<InstanceInfo>>)
    ensures
        count_status(s, InstanceStatus::Online) + count_status(s, InstanceStatus::Degraded)
            + count_status(s, InstanceStatus::Offline) + count_status(s, InstanceStatus::Maintenance)
            == count_present(s),
    decreases s.len(),
{
    if s.len() > 0 {
        lemma_status_counts_partition(s.drop_last());
    }
}

/// Every registered instance is counted under exactly one status: the four
/// status counts of the statistics add up to the number of instances.
pub proof fn stats_status_counts_add_up(reg: &InstanceRegistry)
    ensures
        count_status(reg.slots(), InstanceStatus::Online) + count_status(reg.slots(), InstanceStatus::Degraded)
            + count_status(reg.slots(), InstanceStatus::Offline) + count_status(reg.slots(), InstanceStatus::Maintenance)
            == reg.spec_len(),
{
    lemma_status_counts_partition(reg.slots());
}

/// The registry never holds more instances than its configured maximum.
pub proof fn registry_never_exceeds_capacity(reg: &InstanceRegistry)
    requires
        reg.wf(),
    ensures
        reg.spec_len() <= reg.spec_max_instances(),
{
}

/// A status sweep keeps every instance in maintenance in maintenance; every
/// other registered instance takes the status of its heartbeat's age at the
/// sweep: offline once past the heartbeat timeout, degraded once past the
/// degraded threshold (but not the timeout), online otherwise. Nothing else
/// of the entry changes, and no instance appears or disappears.
pub proof fn status_sweep_keeps_maintenance(
    before: InstanceRegistry,
    after: InstanceRegistry,
    now: i64,
    c: CrawlerInstance,
)
    requires
        statuses_updated_at(before, after, now),
    ensures
        (after.entry(c) is Some) == (before.entry(c) is Some),
        before.entry(c) matches Some(b) ==> ({
            let a = after.entry(c)->0;
            let age = now - b.last_heartbeat;
            let timeout = before.spec_timeout() as int;
            let degraded = before.spec_degraded_after() as int;
            &&& b.status == InstanceStatus::Maintenance ==> a.status == InstanceStatus::Maintenance
            &&& b.status != InstanceStatus::Maintenance && age > timeout ==> a.status == InstanceStatus::Offline
            &&& b.status != InstanceStatus::Maintenance && degraded < age <= timeout ==> a.status
                == InstanceStatus::Degraded
            &&& b.status != InstanceStatus::Maintenance && age <= degraded && age <= timeout ==> a.status
                == InstanceStatus::Online
            &&& a == (InstanceInfo { status: a.status, ..b })
        }),
{
}

/// An accepted heartbeat comes from a registered instance, records the time
/// it was received, brings an offline or degraded instance back online,
/// keeps one in maintenance in maintenance (and an online one online), and
/// leaves every other instance as it was.
pub proof fn heartbeat_revives_but_keeps_maintenance(
    before: InstanceRegistry,
    after: InstanceRegistry,
    request: HeartbeatRequest,
    now: i64,
    r: Result<HeartbeatResponse, RegistryError>,
    c: CrawlerInstance,
    d: CrawlerInstance,
)
    requires
        heartbeat_done_at(before, after, request, now, r),
        r is Ok,
        c.spec_id() == request.instance_id@,
    ensures
        before.entry(c) is Some,
        after.entry(c) is Some,
        after.entry(c)->0.last_heartbeat == now,
        before.entry(c)->0.status == InstanceStatus::Maintenance ==> after.entry(c)->0.status
            == InstanceStatus::Maintenance,
        before.entry(c)->0.status != InstanceStatus::Maintenance ==> after.entry(c)->0.status
            == InstanceStatus::Online,
        d != c ==> after.entry(d) == before.entry(d),
{
    if let Ok(resp) = r {
        let e = choose|e: CrawlerInstance| {
            &&& e.spec_id() == request.instance_id@
            &&& #[trigger] before.entry(e) is Some
            &&& after.entry(e) == Some(InstanceInfo {
                last_heartbeat: now,
                status: status_after_heartbeat(before.entry(e)->0.status),
                articles_crawled: request.articles_crawled,
                error_count: request.error_count,
                current_category: request.current_category,
                ..before.entry(e)->0
            })
            &&& resp.success
            &&& resp.message@ == "Heartbeat received"@
            &&& resp.should_crawl == status_after_heartbeat(before.entry(e)->0.status).spec_is_available()
            &&& resp.assigned_categories@.len() == 0
            &&& forall|d: CrawlerInstance| d != e ==> after.entry(d) == before.entry(d)
        };
        crate::scheduler::instance_ids_are_distinct(c, e);
    }
}

/// Only instances that are online or degraded take work: offline instances
/// and instances in maintenance are never available.
pub proof fn only_live_instances_take_work(s: InstanceStatus)
    ensures
        s.spec_is_available() == !(s == InstanceStatus::Offline || s == InstanceStatus::Maintenance),
{
}

/// An instance that has just registered is online, and a status sweep at
/// the moment of its registration (with non-negative thresholds) leaves it
/// online with that moment as its last heartbeat.
pub proof fn fresh_registration_is_online(
    r0: InstanceRegistry,
    r1: InstanceRegistry,
    r2: InstanceRegistry,
    request: RegisterRequest,
    now: i64,
    resp: Result<RegisterResponse, RegistryError>,
    c: CrawlerInstance,
)
    requires
        registered_at(r0, r1, request, now, resp),
        resp matches Ok(x) && x.instance == c,
        statuses_updated_at(r1, r2, now),
        r0.spec_timeout() >= 0,
        r0.spec_degraded_after() >= 0,
    ensures
        r1.entry(c) matches Some(i) && i.status == InstanceStatus::Online && i.last_heartbeat == now
            && i.registered_at == now,
        r2.entry(c) matches Some(i) && i.status == InstanceStatus::Online && i.last_heartbeat == now,
{
}

} // verus!
