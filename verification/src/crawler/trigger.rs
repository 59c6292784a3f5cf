//! Hourly crawling trigger configuration, state and errors.
use vstd::prelude::*;
use crate::scheduler::CrawlerInstance;
use crate::text::{chars_of, push_str, extend_chars, string_of};

verus! {

/// Configuration for the crawler trigger.
#[derive(Debug, Clone, Copy, PartialEq, Eq)]
pub struct CrawlerTriggerConfig {
    /// Instance ID
    pub instance_id: CrawlerInstance,
    /// Delay before starting crawl after hour boundary (seconds)
    pub start_delay_secs: u64,
    /// Maximum duration for a single crawl cycle (seconds)
    pub max_crawl_duration_secs: u64,
    /// Retry count for failed category crawls
    pub retry_count: u32,
    /// Delay between retries (seconds)
    pub retry_delay_secs: u64,
    /// Enable parallel category crawling
    pub parallel_categories: bool,
    /// Maximum parallel category workers
    pub max_parallel_workers: usize,
}

impl CrawlerTriggerConfig {
    /// The default configuration for an instance.
    pub open spec fn spec_default_for(instance: CrawlerInstance) -> CrawlerTriggerConfig {
        CrawlerTriggerConfig {
            instance_id: instance,
            start_delay_secs: 5,
            max_crawl_duration_secs: 3300,
            retry_count: 3,
            retry_delay_secs: 30,
            parallel_categories: false,
            max_parallel_workers: 2,
        }
    }

    /// Create config for a specific instance.
    pub fn for_instance(instance: CrawlerInstance) -> (r: Self)
        ensures
            r == Self::spec_default_for(instance),
    {
        CrawlerTriggerConfig {
            instance_id: instance,
            start_delay_secs: 5,
            max_crawl_duration_secs: 3300,
            retry_count: 3,
            retry_delay_secs: 30,
            parallel_categories: false,
            max_parallel_workers: 2,
        }
    }

    /// Set start delay.
    pub fn with_start_delay(self, secs: u64) -> (r: Self)
        ensures
            r == (CrawlerTriggerConfig { start_delay_secs: secs, ..self }),
    {
        CrawlerTriggerConfig { start_delay_secs: secs, ..self }
    }

    /// Set max crawl duration.
    pub fn with_max_duration(self, secs: u64) -> (r: Self)
        ensures
            r == (CrawlerTriggerConfig { max_crawl_duration_secs: secs, ..self }),
    {
        CrawlerTriggerConfig { max_crawl_duration_secs: secs, ..self }
    }

    /// Enable parallel categories.
    pub fn with_parallel_categories(self, parallel: bool) -> (r: Self)
        ensures
            r == (CrawlerTriggerConfig { parallel_categories: parallel, ..self }),
    {
        CrawlerTriggerConfig { parallel_categories: parallel, ..self }
    }
}

impl Default for CrawlerTriggerConfig {
    fn default() -> (r: Self)
        ensures
            r == Self::spec_default_for(CrawlerInstance::Main),
    {
        Self::for_instance(CrawlerInstance::Main)
    }
}

/// Public state of the crawler trigger. The time stamp is in Unix seconds.
#[derive(Debug)]
pub struct CrawlerTriggerState {
    pub instance_id: CrawlerInstance,
    pub is_crawling: bool,
    pub current_hour: Option<u8>,
    pub current_category: Option<String>,
    pub articles_today: u64,
    pub errors_today: u64,
    pub last_crawl: Option<i64>,
    pub assigned_slots: usize,
}

/// Errors from crawler trigger.
#[derive(Debug)]
pub enum CrawlerTriggerError {
    /// Already crawling
    AlreadyCrawling,
    /// Category crawl failed after retries
    CategoryCrawlFailed { category: String, error: String },
    /// Execution error
    ExecutionError(String),
    /// Runner error
    RunnerError(String),
}

impl CrawlerTriggerError {
    /// The message that displays the error.
    pub open spec fn spec_message(&self) -> Seq<char> {
        match self {
            CrawlerTriggerError::AlreadyCrawling => "Already crawling"@,
            CrawlerTriggerError::CategoryCrawlFailed { category, error } => "Category "@ + category@
                + " crawl failed: "@ + error@,
            CrawlerTriggerError::ExecutionError(msg) => "Execution error: "@ + msg@,
            CrawlerTriggerError::RunnerError(msg) => "Runner error: "@ + msg@,
        }
    }

    /// The message that displays the error.
    pub fn message(&self) -> (r: String)
        ensures
            r@ == self.spec_message(),
    {
        let mut out: Vec<char> = Vec::new();
        match self {
            CrawlerTriggerError::AlreadyCrawling => push_str(&mut out, "Already crawling"),
            CrawlerTriggerError::CategoryCrawlFailed { category, error } => {
                push_str(&mut out, "Category ");
                push_str(&mut out, category.as_str());
                push_str(&mut out, " crawl failed: ");
                push_str(&mut out, error.as_str());
            },
            CrawlerTriggerError::ExecutionError(msg) => {
                push_str(&mut out, "Execution error: ");
                push_str(&mut out, msg.as_str());
            },
            CrawlerTriggerError::RunnerError(msg) => {
                push_str(&mut out, "Runner error: ");
                push_str(&mut out, msg.as_str());
            },
        }
        string_of(out.as_slice())
    }
}

} // verus!
