//! Crawler instance settings checks and the runtime state of an instance.
//!
//! Reading the settings from the environment, and the rate limit (a real
//! number of requests per second), stay with the program; the checks that
//! decide whether a configuration is usable stand here. Time stamps are
//! Unix seconds.
use vstd::prelude::*;
use crate::clock::{clock_bound, now_unix_secs};
use crate::coordinator::registry::{elapsed_since, saturating_diff};
use crate::scheduler::CrawlerInstance;
use crate::text::{chars_of, push_str, push_decimal, string_of, decimal};

verus! {

/// Configuration errors.
#[derive(Debug)]
pub enum ConfigError {
    /// Missing environment variable
    MissingEnvVar(String),
    /// Missing required field
    MissingField(String),
    /// Invalid instance ID
    InvalidInstanceId(String),
    /// Invalid value: the field and why
    InvalidValue(String, String),
    /// Parse error
    ParseError(String),
}

impl ConfigError {
    /// The message that displays the error.
    pub open spec fn spec_message(&self) -> Seq<char> {
        match self {
            ConfigError::MissingEnvVar(v) => "Missing environment variable: "@ + v@,
            ConfigError::MissingField(f) => "Missing required field: "@ + f@,
            ConfigError::InvalidInstanceId(id) => "Invalid instance ID: "@ + id@,
            ConfigError::InvalidValue(f, m) => "Invalid value for "@ + f@ + ": "@ + m@,
            ConfigError::ParseError(m) => "Parse error: "@ + m@,
        }
    }

    /// The message that displays the error.
    pub fn message(&self) -> (r: String)
        ensures
            r@ == self.spec_message(),
    {
        let mut out: Vec<char> = Vec::new();
        match self {
            ConfigError::MissingEnvVar(v) => {
                push_str(&mut out, "Missing environment variable: ");
                push_str(&mut out, v.as_str());
            },
            ConfigError::MissingField(f) => {
                push_str(&mut out, "Missing required field: ");
                push_str(&mut out, f.as_str());
            },
            ConfigError::InvalidInstanceId(id) => {
                push_str(&mut out, "Invalid instance ID: ");
                push_str(&mut out, id.as_str());
            },
            ConfigError::InvalidValue(f, m) => {
                push_str(&mut out, "Invalid value for ");
                push_str(&mut out, f.as_str());
                push_str(&mut out, ": ");
                push_str(&mut out, m.as_str());
            },
            ConfigError::ParseError(m) => {
                push_str(&mut out, "Parse error: ");
                push_str(&mut out, m.as_str());
            },
        }
        string_of(out.as_slice())
    }
}

/// The problem `validate` reports first, as (field, reason): an empty
/// coordinator URL, an empty database URL, a rate that is not positive.
pub open spec fn instance_settings_error(
    coordinator_url: Seq<char>,
    database_url: Seq<char>,
    rate_positive: bool,
) -> Option<(Seq<char>, Seq<char>)> {
    if coordinator_url.len() == 0 {
        Some(("coordinator_url"@, "URL cannot be empty"@))
    } else if database_url.len() == 0 {
        Some(("database_url"@, "URL cannot be empty"@))
    } else if !rate_positive {
        Some(("requests_per_second"@, "Must be positive"@))
    } else {
        None
    }
}

/// Validate an instance configuration: both URLs set and a positive rate
/// (`rate_positive` says whether the requests per second exceed zero).
pub fn validate_instance_settings(coordinator_url: &str, database_url: &str, rate_positive: bool) -> (r: Result<(), ConfigError>)
    ensures
        match instance_settings_error(coordinator_url@, database_url@, rate_positive) {
            None => r is Ok,
            Some((field, reason)) => r matches Err(ConfigError::InvalidValue(f, m)) && f@ == field && m@ == reason,
        },
{
    if coordinator_url.is_empty() {
        return Err(ConfigError::InvalidValue("coordinator_url".to_owned(), "URL cannot be empty".to_owned()));
    }
    if database_url.is_empty() {
        return Err(ConfigError::InvalidValue("database_url".to_owned(), "URL cannot be empty".to_owned()));
    }
    if !rate_positive {
        return Err(ConfigError::InvalidValue("requests_per_second".to_owned(), "Must be positive".to_owned()));
    }
    Ok(())
}

/// The fields a configuration cannot do without: the instance, the
/// coordinator URL and the database URL, checked in that order.
pub fn required_fields(
    instance_id: Option<CrawlerInstance>,
    coordinator_url: Option<String>,
    database_url: Option<String>,
) -> (r: Result<(CrawlerInstance, String, String), ConfigError>)
    ensures
        match (instance_id, coordinator_url, database_url) {
            (Some(i), Some(c), Some(d)) => r == Ok::<(CrawlerInstance, String, String), ConfigError>((i, c, d)),
            (None, _, _) => r matches Err(ConfigError::MissingField(f)) && f@ == "instance_id"@,
            (Some(_), None, _) => r matches Err(ConfigError::MissingField(f)) && f@ == "coordinator_url"@,
            (Some(_), Some(_), None) => r matches Err(ConfigError::MissingField(f)) && f@ == "database_url"@,
        },
{
    let i = match instance_id {
        Some(i) => i,
        None => return Err(ConfigError::MissingField("instance_id".to_owned())),
    };
    let c = match coordinator_url {
        Some(c) => c,
        None => return Err(ConfigError::MissingField("coordinator_url".to_owned())),
    };
    let d = match database_url {
        Some(d) => d,
        None => return Err(ConfigError::MissingField("database_url".to_owned())),
    };
    Ok((i, c, d))
}

/// The instance id that the `INSTANCE_ID` setting names, or the error.
pub fn instance_from_setting(value: &str) -> (r: Result<CrawlerInstance, ConfigError>)
    ensures
        match r {
            Ok(i) => i.spec_id() == value@,
            Err(ConfigError::InvalidInstanceId(v)) => v@ == value@ && forall|c: CrawlerInstance| c.spec_id() != value@,
            Err(_) => false,
        },
{
    match CrawlerInstance::from_id(value) {
        Ok(i) => Ok(i),
        Err(()) => Err(ConfigError::InvalidInstanceId(value.to_owned())),
    }
}

/// The address an instance registers with: `ip:port`, the IP `0.0.0.0`
/// when none is set.
pub open spec fn spec_local_address(local_ip: Option<Seq<char>>, local_port: u16) -> Seq<char> {
    let ip = match local_ip {
        Some(ip) => ip,
        None => "0.0.0.0"@,
    };
    ip + ":"@ + decimal(local_port as nat)
}

/// The address an instance registers with.
pub fn local_address(local_ip: &Option<String>, local_port: u16) -> (r: String)
    ensures
        r@ == spec_local_address(
            match local_ip {
                Some(s) => Some(s@),
                None => None,
            },
            local_port,
        ),
{
    let mut out: Vec<char> = match local_ip {
        Some(s) => chars_of(s.as_str()),
        None => chars_of("0.0.0.0"),
    };
    push_str(&mut out, ":");
    push_decimal(&mut out, local_port as u64);
    string_of(out.as_slice())
}

/// Runtime state for a crawler instance.
#[derive(Debug)]
pub struct InstanceState {
    /// Total articles crawled in current session
    pub articles_crawled: u64,
    /// Total errors in current session
    pub error_count: u64,
    /// Current category being crawled
    pub current_category: Option<String>,
    /// Whether currently crawling
    pub is_crawling: bool,
    /// Last crawl time
    pub last_crawl: Option<i64>,
    /// Session start time
    pub session_start: i64,
}

impl InstanceState {
    /// A fresh state whose session starts at `now`.
    pub fn new_at(now: i64) -> (r: Self)
        ensures
            r == (InstanceState {
                articles_crawled: 0,
                error_count: 0,
                current_category: None,
                is_crawling: false,
                last_crawl: None,
                session_start: now,
            }),
    {
        InstanceState {
            articles_crawled: 0,
            error_count: 0,
            current_category: None,
            is_crawling: false,
            last_crawl: None,
            session_start: now,
        }
    }

    /// A fresh state whose session starts now.
    pub fn new() -> (r: Self)
        ensures
            r.articles_crawled == 0,
            r.error_count == 0,
            r.current_category is None,
            !r.is_crawling,
            r.last_crawl is None,
            exists|now: i64| -clock_bound() <= now <= clock_bound() && r == #[trigger] InstanceState::spec_fresh(now),
    {
        let now = now_unix_secs();
        let r = Self::new_at(now);
        assert(r == InstanceState::spec_fresh(now));
        r
    }

    /// Record a successful crawl of `count` articles at `now`.
    pub fn record_success_at(&mut self, count: u64, now: i64)
        requires
            old(self).articles_crawled + count <= u64::MAX,
        ensures
            *final(self) == (InstanceState {
                articles_crawled: (old(self).articles_crawled + count) as u64,
                last_crawl: Some(now),
                ..*old(self)
            }),
    {
        self.articles_crawled = self.articles_crawled + count;
        self.last_crawl = Some(now);
    }

    /// Record a successful crawl of `count` articles, now.
    pub fn record_success(&mut self, count: u64)
        requires
            old(self).articles_crawled + count <= u64::MAX,
        ensures
            final(self).articles_crawled == old(self).articles_crawled + count,
            final(self).last_crawl is Some,
            final(self).error_count == old(self).error_count,
            final(self).current_category == old(self).current_category,
            final(self).is_crawling == old(self).is_crawling,
            final(self).session_start == old(self).session_start,
    {
        self.record_success_at(count, now_unix_secs());
    }

    /// Record an error.
    pub fn record_error(&mut self)
        requires
            old(self).error_count < u64::MAX,
        ensures
            *final(self) == (InstanceState { error_count: (old(self).error_count + 1) as u64, ..*old(self) }),
    {
        self.error_count = self.error_count + 1;
    }

    /// Set current category.
    pub fn set_category(&mut self, category: Option<String>)
        ensures
            *final(self) == (InstanceState { current_category: category, ..*old(self) }),
    {
        self.current_category = category;
    }

    /// Set crawling state.
    pub fn set_crawling(&mut self, crawling: bool)
        ensures
            *final(self) == (InstanceState { is_crawling: crawling, ..*old(self) }),
    {
        self.is_crawling = crawling;
    }

    /// Mark the run of a slot as started, on its first category.
    pub fn start_slot(&mut self, first: Option<String>)
        ensures
            *final(self) == (InstanceState { is_crawling: true, current_category: first, ..*old(self) }),
    {
        self.set_crawling(true);
        self.set_category(first);
    }

    /// The state after the run of a slot that crawled `articles` articles
    /// with `errors` failed categories, ended at `now`.
    pub open spec fn slot_done(self, articles: u64, errors: u64, now: i64) -> InstanceState {
        InstanceState {
            articles_crawled: (self.articles_crawled + articles) as u64,
            error_count: (self.error_count + errors) as u64,
            current_category: None,
            is_crawling: false,
            last_crawl: Some(now),
            session_start: self.session_start,
        }
    }

    /// Record the end of a slot's run at `now`: its articles as one
    /// success, then each failed category as an error; the instance is
    /// then idle, on no category.
    pub fn finish_slot_at(&mut self, articles: u64, errors: u64, now: i64)
        requires
            old(self).articles_crawled + articles <= u64::MAX,
            old(self).error_count + errors <= u64::MAX,
        ensures
            *final(self) == old(self).slot_done(articles, errors, now),
    {
        let ghost start = *self;
        self.record_success_at(articles, now);
        let mut k: u64 = 0;
        while k < errors
            invariant
                k <= errors,
                start.error_count + errors <= u64::MAX,
                *self == (InstanceState {
                    articles_crawled: (start.articles_crawled + articles) as u64,
                    error_count: (start.error_count + k) as u64,
                    last_crawl: Some(now),
                    ..start
                }),
            decreases errors - k,
        {
            self.record_error();
            k = k + 1;
        }
        self.set_crawling(false);
        self.set_category(None);
    }

    /// Record the end of a slot's run, now.
    pub fn finish_slot(&mut self, articles: u64, errors: u64)
        requires
            old(self).articles_crawled + articles <= u64::MAX,
            old(self).error_count + errors <= u64::MAX,
        ensures
            exists|now: i64|
                -clock_bound() <= now <= clock_bound() && *final(self) == #[trigger] old(self).slot_done(
                    articles,
                    errors,
                    now,
                ),
    {
        let now = now_unix_secs();
        self.finish_slot_at(articles, errors, now);
        assert(*self == old(self).slot_done(articles, errors, now));
    }

    /// Seconds the session has lasted at `now`.
    pub fn session_duration_secs_at(&self, now: i64) -> (r: i64)
        requires
            i64::MIN <= now - self.session_start <= i64::MAX,
        ensures
            r == now - self.session_start,
    {
        now - self.session_start
    }

    /// Seconds the session has lasted at the present moment, saturated at
    /// the bounds of `i64`. The present moment is read from the clock, so
    /// only that the result is this duration for some moment is stated.
    pub fn session_duration_secs(&self) -> (r: i64)
        ensures
            exists|now: i64| r == #[trigger] elapsed_since(now, self.session_start),
    {
        let now = now_unix_secs();
        let r = saturating_diff(now, self.session_start);
        assert(r == elapsed_since(now, self.session_start));
        r
    }

    /// Reset the state: a new session starting at `now`.
    pub fn reset_at(&mut self, now: i64)
        ensures
            *final(self) == InstanceState::spec_fresh(now),
    {
        self.articles_crawled = 0;
        self.error_count = 0;
        self.current_category = None;
        self.is_crawling = false;
        self.last_crawl = None;
        self.session_start = now;
    }

    /// A fresh state whose session starts at `now`.
    pub open spec fn spec_fresh(now: i64) -> InstanceState {
        InstanceState {
            articles_crawled: 0,
            error_count: 0,
            current_category: None,
            is_crawling: false,
            last_crawl: None,
            session_start: now,
        }
    }

    /// Reset the state: a new session starting now.
    pub fn reset(&mut self)
        ensures
            final(self).articles_crawled == 0,
            final(self).error_count == 0,
            final(self).current_category is None,
            !final(self).is_crawling,
            final(self).last_crawl is None,
    {
        self.reset_at(now_unix_secs());
    }
}

} // verus!
