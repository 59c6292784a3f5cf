//! Crawling pipeline: configuration, job messages, statistics and the
//! category read from an article URL.
//!
//! The worker stages (fetch, parse, store) run as tasks around this library;
//! what they count and decide stands here.
use vstd::prelude::*;
use crate::models::ParsedArticle;
use crate::text::{chars_of, string_of, find_from, find_seq, contains_seq, contains_lit, eq_literal};

verus! {

broadcast use vstd::slice::group_slice_axioms;

/// Pipeline configuration.
#[derive(Debug)]
pub struct PipelineConfig {
    /// Number of fetcher workers
    pub fetcher_workers: usize,
    /// Number of parser workers
    pub parser_workers: usize,
    /// Number of storage workers
    pub storage_workers: usize,
    /// Channel buffer size
    pub channel_buffer_size: usize,
    /// Output directory for markdown files
    pub output_dir: String,
    /// Requests per second limit
    pub requests_per_second: u32,
    /// Request timeout in seconds
    pub request_timeout_secs: u64,
    /// Enable comment crawling
    pub crawl_comments: bool,
    /// Maximum retries per URL
    pub max_retries: u32,
}

impl PipelineConfig {
    /// The default settings.
    pub open spec fn spec_is_default(self) -> bool {
        &&& self.fetcher_workers == 5
        &&& self.parser_workers == 3
        &&& self.storage_workers == 2
        &&& self.channel_buffer_size == 1000
        &&& self.output_dir@ == "./output/raw"@
        &&& self.requests_per_second == 5
        &&& self.request_timeout_secs == 30
        &&& self.crawl_comments
        &&& self.max_retries == 3
    }
}

impl Default for PipelineConfig {
    fn default() -> (r: Self)
        ensures
            r.spec_is_default(),
    {
        PipelineConfig {
            fetcher_workers: 5,
            parser_workers: 3,
            storage_workers: 2,
            channel_buffer_size: 1000,
            output_dir: string_of(chars_of("./output/raw").as_slice()),
            requests_per_second: 5,
            request_timeout_secs: 30,
            crawl_comments: true,
            max_retries: 3,
        }
    }
}

/// Message from URL producer to Fetcher.
#[derive(Debug)]
pub struct FetchJob {
    /// URL to fetch
    pub url: String,
    /// Job ID for tracking
    pub job_id: u64,
    /// Retry count
    pub retry_count: u32,
}

/// Message from Fetcher to Parser.
#[derive(Debug)]
pub struct ParseJob {
    /// Original URL
    pub url: String,
    /// Job ID
    pub job_id: u64,
    /// Fetched HTML content
    pub html: String,
    /// Category (extracted from URL)
    pub category: String,
}

/// Message from parser to storage.
#[derive(Debug)]
pub struct StoreJob {
    /// Job ID
    pub job_id: u64,
    /// Parsed article
    pub article: ParsedArticle,
}

/// Result message for tracking.
#[derive(Debug)]
pub enum JobResult {
    /// Successfully processed
    Success { job_id: u64, article_id: String },
    /// Failed to process
    Failed { job_id: u64, url: String, error: String },
    /// Skipped (duplicate or filtered)
    Skipped { job_id: u64, reason: String },
}

/// Pipeline statistics. Counters wrap around on overflow, as atomic adds do.
#[derive(Debug)]
pub struct PipelineStats {
    /// Total jobs submitted
    pub total_jobs: u64,
    /// Successfully completed jobs
    pub success_count: u64,
    /// Failed jobs
    pub failed_count: u64,
    /// Skipped jobs
    pub skipped_count: u64,
    /// Total bytes fetched
    pub bytes_fetched: u64,
    /// Articles with comments
    pub with_comments: u64,
}

/// Snapshot of pipeline statistics.
#[derive(Debug, Clone, Copy, PartialEq, Eq)]
pub struct StatsSnapshot {
    pub total_jobs: u64,
    pub success_count: u64,
    pub failed_count: u64,
    pub skipped_count: u64,
    pub bytes_fetched: u64,
    pub with_comments: u64,
}

/// `a + b` modulo 2^64.
pub open spec fn wrap_add(a: u64, b: u64) -> u64 {
    ((a as int + b as int) % 0x1_0000_0000_0000_0000) as u64
}

impl PipelineStats {
    /// The counters as a snapshot.
    pub open spec fn spec_snapshot(&self) -> StatsSnapshot {
        StatsSnapshot {
            total_jobs: self.total_jobs,
            success_count: self.success_count,
            failed_count: self.failed_count,
            skipped_count: self.skipped_count,
            bytes_fetched: self.bytes_fetched,
            with_comments: self.with_comments,
        }
    }

    /// Create new stats counter, all zero.
    pub fn new() -> (r: Self)
        ensures
            r.spec_snapshot() == (StatsSnapshot {
                total_jobs: 0,
                success_count: 0,
                failed_count: 0,
                skipped_count: 0,
                bytes_fetched: 0,
                with_comments: 0,
            }),
    {
        PipelineStats {
            total_jobs: 0,
            success_count: 0,
            failed_count: 0,
            skipped_count: 0,
            bytes_fetched: 0,
            with_comments: 0,
        }
    }

    /// Record successful job.
    pub fn record_success(&mut self)
        ensures
            final(self).spec_snapshot() == (StatsSnapshot {
                success_count: wrap_add(old(self).success_count, 1),
                ..old(self).spec_snapshot()
            }),
    {
        self.success_count = self.success_count.wrapping_add(1);
    }

    /// Record failed job.
    pub fn record_failure(&mut self)
        ensures
            final(self).spec_snapshot() == (StatsSnapshot {
                failed_count: wrap_add(old(self).failed_count, 1),
                ..old(self).spec_snapshot()
            }),
    {
        self.failed_count = self.failed_count.wrapping_add(1);
    }

    /// Record skipped job.
    pub fn record_skip(&mut self)
        ensures
            final(self).spec_snapshot() == (StatsSnapshot {
                skipped_count: wrap_add(old(self).skipped_count, 1),
                ..old(self).spec_snapshot()
            }),
    {
        self.skipped_count = self.skipped_count.wrapping_add(1);
    }

    /// Record bytes fetched.
    pub fn record_bytes(&mut self, bytes: u64)
        ensures
            final(self).spec_snapshot() == (StatsSnapshot {
                bytes_fetched: wrap_add(old(self).bytes_fetched, bytes),
                ..old(self).spec_snapshot()
            }),
    {
        self.bytes_fetched = self.bytes_fetched.wrapping_add(bytes);
    }

    /// Get snapshot of current stats.
    pub fn snapshot(&self) -> (r: StatsSnapshot)
        ensures
            r == self.spec_snapshot(),
    {
        StatsSnapshot {
            total_jobs: self.total_jobs,
            success_count: self.success_count,
            failed_count: self.failed_count,
            skipped_count: self.skipped_count,
            bytes_fetched: self.bytes_fetched,
            with_comments: self.with_comments,
        }
    }

    /// Count one job result, as the result collector does.
    pub fn record_result(&mut self, result: &JobResult)
        ensures
            final(self).spec_snapshot() == match result {
                JobResult::Success { .. } => StatsSnapshot {
                    success_count: wrap_add(old(self).success_count, 1),
                    ..old(self).spec_snapshot()
                },
                JobResult::Failed { .. } => StatsSnapshot {
                    failed_count: wrap_add(old(self).failed_count, 1),
                    ..old(self).spec_snapshot()
                },
                JobResult::Skipped { .. } => StatsSnapshot {
                    skipped_count: wrap_add(old(self).skipped_count, 1),
                    ..old(self).spec_snapshot()
                },
            },
    {
        match result {
            JobResult::Success { .. } => self.record_success(),
            JobResult::Failed { .. } => self.record_failure(),
            JobResult::Skipped { .. } => self.record_skip(),
        }
    }
}

/// Main crawler pipeline state: its configuration and its statistics.
pub struct CrawlerPipeline {
    pub config: PipelineConfig,
    pub stats: PipelineStats,
}

impl CrawlerPipeline {
    /// A pipeline with the given configuration and zeroed statistics (the
    /// output directory is created by the caller).
    pub fn new(config: PipelineConfig) -> (r: Self)
        ensures
            r.config == config,
            r.stats.spec_snapshot() == (StatsSnapshot {
                total_jobs: 0,
                success_count: 0,
                failed_count: 0,
                skipped_count: 0,
                bytes_fetched: 0,
                with_comments: 0,
            }),
    {
        CrawlerPipeline { config, stats: PipelineStats::new() }
    }

    /// Get current statistics.
    pub fn stats(&self) -> (r: StatsSnapshot)
        ensures
            r == self.stats.spec_snapshot(),
    {
        self.stats.snapshot()
    }

    /// The fetch jobs for a batch of URLs: one per URL, numbered from zero,
    /// and the total recorded in the statistics.
    pub fn plan_jobs(&mut self, urls: Vec<String>) -> (r: Vec<FetchJob>)
        ensures
            r@.len() == urls@.len(),
            forall|i: int| 0 <= i < r@.len() ==> (#[trigger] r@[i]).url == urls@[i] && r@[i].job_id
                == i && r@[i].retry_count == 0,
            final(self).stats.spec_snapshot() == (StatsSnapshot {
                total_jobs: urls@.len() as u64,
                ..old(self).stats.spec_snapshot()
            }),
            final(self).config == old(self).config,
    {
        let n = urls.len();
        self.stats.total_jobs = n as u64;
        let mut jobs: Vec<FetchJob> = Vec::new();
        let mut rest = urls;
        let ghost all = rest@;
        let mut idx: usize = 0;
        while idx < n
            invariant
                n == all.len(),
                idx <= n,
                jobs@.len() == idx,
                rest@ == all,
                forall|i: int| 0 <= i < idx ==> (#[trigger] jobs@[i]).url == all[i] && jobs@[i].job_id
                    == i && jobs@[i].retry_count == 0,
            decreases n - idx,
        {
            let u = crate::text::copy_string(&rest[idx]);
            jobs.push(FetchJob { url: u, job_id: idx as u64, retry_count: 0 });
            idx = idx + 1;
        }
        jobs
    }
}

/// The value of the first `sid=` parameter of a URL: up to the next `&`, or
/// to the end.
pub open spec fn sid_value(url: Seq<char>) -> Option<Seq<char>> {
    match find_seq(url, "sid="@, 0) {
        None => None,
        Some(p) => {
            let start = p + "sid="@.len();
            match find_seq(url, "&"@, start) {
                Some(e) => Some(url.subrange(start, e)),
                None => Some(url.subrange(start, url.len() as int)),
            }
        },
    }
}

/// The category named by a section id, if it is one of the six.
pub open spec fn sid_category(sid: Seq<char>) -> Option<Seq<char>> {
    if sid == "100"@ { Some("politics"@) }
    else if sid == "101"@ { Some("economy"@) }
    else if sid == "102"@ { Some("society"@) }
    else if sid == "103"@ { Some("culture"@) }
    else if sid == "104"@ { Some("world"@) }
    else if sid == "105"@ { Some("science"@) }
    else { None }
}

/// The category named by a URL's path, `general` when none is.
pub open spec fn path_category(url: Seq<char>) -> Seq<char> {
    if contains_seq(url, "/politics/"@) { "politics"@ }
    else if contains_seq(url, "/economy/"@) { "economy"@ }
    else if contains_seq(url, "/society/"@) { "society"@ }
    else if contains_seq(url, "/culture/"@) || contains_seq(url, "/life/"@) { "culture"@ }
    else if contains_seq(url, "/world/"@) { "world"@ }
    else if contains_seq(url, "/it/"@) || contains_seq(url, "/science/"@) { "science"@ }
    else { "general"@ }
}

/// The category of a Naver News URL: from its `sid` parameter when that names
/// a section, else from its path.
pub open spec fn spec_category_of_url(url: Seq<char>) -> Seq<char> {
    match sid_value(url) {
        Some(sid) => match sid_category(sid) {
            Some(c) => c,
            None => path_category(url),
        },
        None => path_category(url),
    }
}

fn slice_range(s: &[char], from: usize, to: usize) -> (r: Vec<char>)
    requires
        from <= to <= s@.len(),
    ensures
        r@ == s@.subrange(from as int, to as int),
{
    let mut out: Vec<char> = Vec::new();
    let mut k: usize = from;
    while k < to
        invariant
            from <= k <= to,
            to <= s.len(),
            out@ == s@.subrange(from as int, k as int),
        decreases to - k,
    {
        out.push(s[k]);
        proof {
            assert(s@.subrange(from as int, k + 1) == s@.subrange(from as int, k as int).push(s@[k as int]));
        }
        k = k + 1;
    }
    out
}

fn path_category_exec(u: &[char]) -> (r: &'static str)
    ensures
        r@ == path_category(u@),
{
    if contains_lit(u, "/politics/") {
        "politics"
    } else if contains_lit(u, "/economy/") {
        "economy"
    } else if contains_lit(u, "/society/") {
        "society"
    } else if contains_lit(u, "/culture/") || contains_lit(u, "/life/") {
        "culture"
    } else if contains_lit(u, "/world/") {
        "world"
    } else if contains_lit(u, "/it/") || contains_lit(u, "/science/") {
        "science"
    } else {
        "general"
    }
}

/// Extract category from Naver News URL.
pub fn extract_category_from_url(url: &str) -> (r: String)
    ensures
        r@ == spec_category_of_url(url@),
{
    let u = chars_of(url);
    let key = chars_of("sid=");
    let amp = chars_of("&");
    match find_from(u.as_slice(), key.as_slice(), 0) {
        Some(p) => {
            assert(p + key@.len() <= u@.len());
            let ulen = u.len();
            assert(p + key@.len() <= ulen);
            let start = p + key.len();
            let end = match find_from(u.as_slice(), amp.as_slice(), start) {
                Some(e) => e,
                None => u.len(),
            };
            let sid = slice_range(u.as_slice(), start, end);
            let s = sid.as_slice();
            let c: Option<&'static str> = if eq_literal(s, "100") {
                Some("politics")
            } else if eq_literal(s, "101") {
                Some("economy")
            } else if eq_literal(s, "102") {
                Some("society")
            } else if eq_literal(s, "103") {
                Some("culture")
            } else if eq_literal(s, "104") {
                Some("world")
            } else if eq_literal(s, "105") {
                Some("science")
            } else {
                None
            };
            match c {
                Some(name) => string_of(chars_of(name).as_slice()),
                None => string_of(chars_of(path_category_exec(u.as_slice())).as_slice()),
            }
        },
        None => string_of(chars_of(path_category_exec(u.as_slice())).as_slice()),
    }
}

/// Builder for a pipeline configuration.
pub struct PipelineBuilder {
    pub config: PipelineConfig,
}

impl PipelineBuilder {
    /// Create a new builder with the default configuration.
    pub fn new() -> (r: Self)
        ensures
            r.config.spec_is_default(),
    {
        PipelineBuilder { config: PipelineConfig::default() }
    }

    /// Set number of fetcher workers.
    pub fn fetcher_workers(self, count: usize) -> (r: Self)
        ensures
            r.config == (PipelineConfig { fetcher_workers: count, ..self.config }),
    {
        let mut b = self;
        b.config.fetcher_workers = count;
        b
    }

    /// Set number of parser workers.
    pub fn parser_workers(self, count: usize) -> (r: Self)
        ensures
            r.config == (PipelineConfig { parser_workers: count, ..self.config }),
    {
        let mut b = self;
        b.config.parser_workers = count;
        b
    }

    /// Set number of storage workers.
    pub fn storage_workers(self, count: usize) -> (r: Self)
        ensures
            r.config == (PipelineConfig { storage_workers: count, ..self.config }),
    {
        let mut b = self;
        b.config.storage_workers = count;
        b
    }

    /// Set channel buffer size.
    pub fn channel_buffer_size(self, size: usize) -> (r: Self)
        ensures
            r.config == (PipelineConfig { channel_buffer_size: size, ..self.config }),
    {
        let mut b = self;
        b.config.channel_buffer_size = size;
        b
    }

    /// Set output directory.
    pub fn output_dir(self, path: String) -> (r: Self)
        ensures
            r.config == (PipelineConfig { output_dir: path, ..self.config }),
    {
        let mut b = self;
        b.config.output_dir = path;
        b
    }

    /// Set requests per second.
    pub fn requests_per_second(self, rps: u32) -> (r: Self)
        ensures
            r.config == (PipelineConfig { requests_per_second: rps, ..self.config }),
    {
        let mut b = self;
        b.config.requests_per_second = rps;
        b
    }

    /// Set request timeout, in seconds.
    pub fn request_timeout(self, timeout_secs: u64) -> (r: Self)
        ensures
            r.config == (PipelineConfig { request_timeout_secs: timeout_secs, ..self.config }),
    {
        let mut b = self;
        b.config.request_timeout_secs = timeout_secs;
        b
    }

    /// Enable/disable comment crawling.
    pub fn crawl_comments(self, enabled: bool) -> (r: Self)
        ensures
            r.config == (PipelineConfig { crawl_comments: enabled, ..self.config }),
    {
        let mut b = self;
        b.config.crawl_comments = enabled;
        b
    }

    /// The pipeline for the built configuration.
    pub fn build(self) -> (r: CrawlerPipeline)
        ensures
            r.config == self.config,
    {
        CrawlerPipeline::new(self.config)
    }
}

} // verus!
