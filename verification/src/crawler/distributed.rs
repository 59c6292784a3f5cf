//! Results and errors of distributed slot execution.
use vstd::prelude::*;
use crate::text::{push_str, string_of, chars_of, copy_string};
use crate::crawler::pipeline::PipelineConfig;
use crate::models::NewsCategory;
use crate::crawler::instance::InstanceState;
use crate::clock::clock_bound;

verus! {

/// Result of executing a slot.
#[derive(Debug)]
pub struct SlotResult {
    /// Hour that was executed
    pub hour: u8,
    /// Number of articles crawled
    pub articles_crawled: u64,
    /// Number of errors
    pub errors: u64,
    /// Categories that were crawled
    pub categories: Vec<String>,
}

impl SlotResult {
    /// Check if slot execution was successful.
    pub fn is_success(&self) -> (r: bool)
        ensures
            r == (self.errors == 0),
    {
        self.errors == 0
    }
}

/// Runner errors.
#[derive(Debug)]
pub enum RunnerError {
    /// Initialization error
    InitError(String),
    /// Coordinator communication error
    CoordinatorError(String),
    /// Crawling error
    CrawlError(String),
    /// Configuration error
    ConfigError(String),
    /// Shutdown error
    ShutdownError(String),
}

impl RunnerError {
    /// The message that displays the error.
    pub open spec fn spec_message(&self) -> Seq<char> {
        match self {
            RunnerError::InitError(msg) => "Initialization error: "@ + msg@,
            RunnerError::CoordinatorError(msg) => "Coordinator error: "@ + msg@,
            RunnerError::CrawlError(msg) => "Crawl error: "@ + msg@,
            RunnerError::ConfigError(msg) => "Config error: "@ + msg@,
            RunnerError::ShutdownError(msg) => "Shutdown error: "@ + msg@,
        }
    }

    /// The message that displays the error.
    pub fn message(&self) -> (r: String)
        ensures
            r@ == self.spec_message(),
    {
        let mut out: Vec<char> = Vec::new();
        match self {
            RunnerError::InitError(msg) => {
                push_str(&mut out, "Initialization error: ");
                push_str(&mut out, msg.as_str());
            },
            RunnerError::CoordinatorError(msg) => {
                push_str(&mut out, "Coordinator error: ");
                push_str(&mut out, msg.as_str());
            },
            RunnerError::CrawlError(msg) => {
                push_str(&mut out, "Crawl error: ");
                push_str(&mut out, msg.as_str());
            },
            RunnerError::ConfigError(msg) => {
                push_str(&mut out, "Config error: ");
                push_str(&mut out, msg.as_str());
            },
            RunnerError::ShutdownError(msg) => {
                push_str(&mut out, "Shutdown error: ");
                push_str(&mut out, msg.as_str());
            },
        }
        string_of(out.as_slice())
    }
}

/// Seconds from `minute:second` past the hour to the next full hour.
pub fn secs_until_next_hour(minute: u32, second: u32) -> (r: u64)
    requires
        minute < 60,
        second < 60,
    ensures
        r == 3600 - (60 * minute + second),
        1 <= r <= 3600,
{
    3600 - (60 * minute as u64 + second as u64)
}

/// Seconds from `hour:minute:second` to the next `target_hour:00:00`:
/// today when it is still ahead, else tomorrow.
pub fn secs_until_hour(hour: u32, minute: u32, second: u32, target_hour: u32) -> (r: u64)
    requires
        hour < 24,
        minute < 60,
        second < 60,
        target_hour < 24,
    ensures
        ({
            let now = 3600 * hour + 60 * minute + second;
            let target = 3600 * target_hour;
            r == if now >= target { target + 86400 - now } else { target - now }
        }),
        1 <= r <= 86400,
{
    let now: u64 = 3600 * hour as u64 + 60 * minute as u64 + second as u64;
    let target: u64 = 3600 * target_hour as u64;
    if now >= target {
        target + 86400 - now
    } else {
        target - now
    }
}

/// The tally of a slot's run over its categories, category by category.
pub struct SlotRun {
    hour: u8,
    categories: Vec<String>,
    next: usize,
    articles_crawled: u64,
    errors: u64,
}

impl SlotRun {
    pub closed spec fn spec_categories(&self) -> Seq<String> {
        self.categories@
    }

    pub closed spec fn spec_next(&self) -> nat {
        self.next as nat
    }

    pub closed spec fn spec_articles(&self) -> u64 {
        self.articles_crawled
    }

    pub closed spec fn spec_errors(&self) -> u64 {
        self.errors
    }

    pub closed spec fn spec_hour(&self) -> u8 {
        self.hour
    }

    /// Start the run of the slot at `hour` over its categories.
    pub fn new(hour: u8, categories: Vec<String>) -> (r: Self)
        ensures
            r.spec_hour() == hour,
            r.spec_categories() == categories@,
            r.spec_next() == 0,
            r.spec_articles() == 0,
            r.spec_errors() == 0,
    {
        SlotRun { hour, categories, next: 0, articles_crawled: 0, errors: 0 }
    }

    /// The category to crawl next, if any.
    pub fn next_category(&self) -> (r: Option<String>)
        ensures
            self.spec_next() < self.spec_categories().len() ==> (r matches Some(c) && c@
                == self.spec_categories()[self.spec_next() as int]@),
            self.spec_next() >= self.spec_categories().len() ==> r is None,
    {
        if self.next < self.categories.len() {
            Some(copy_string(&self.categories[self.next]))
        } else {
            None
        }
    }

    /// Record the outcome of the category just crawled: the number of
    /// articles, or `None` when the crawl failed.
    pub fn record(&mut self, crawled: Option<u64>)
        requires
            old(self).spec_next() < old(self).spec_categories().len(),
            crawled matches Some(n) ==> old(self).spec_articles() + n <= u64::MAX,
            crawled is None ==> old(self).spec_errors() < u64::MAX,
        ensures
            final(self).spec_hour() == old(self).spec_hour(),
            final(self).spec_categories() == old(self).spec_categories(),
            final(self).spec_next() == old(self).spec_next() + 1,
            final(self).spec_articles() == old(self).spec_articles() + match crawled {
                Some(n) => n as int,
                None => 0int,
            },
            final(self).spec_errors() == old(self).spec_errors() + if crawled is None { 1int } else { 0int },
    {
        match crawled {
            Some(n) => self.articles_crawled = self.articles_crawled + n,
            None => self.errors = self.errors + 1,
        }
        if self.next < self.categories.len() {
            self.next = self.next + 1;
        }
    }

    /// The result of the slot.
    pub fn finish(self) -> (r: SlotResult)
        ensures
            r.hour == self.spec_hour(),
            r.articles_crawled == self.spec_articles(),
            r.errors == self.spec_errors(),
            r.categories@ == self.spec_categories(),
    {
        SlotResult {
            hour: self.hour,
            articles_crawled: self.articles_crawled,
            errors: self.errors,
            categories: self.categories,
        }
    }
}

/// The articles of a slot's categories that were crawled: the sum of the
/// counts of the categories whose crawl succeeded.
pub open spec fn crawled_total(outcomes: Seq<Option<u64>>) -> int
    decreases outcomes.len(),
{
    if outcomes.len() == 0 {
        0
    } else {
        crawled_total(outcomes.drop_last()) + match outcomes.last() {
            Some(n) => n as int,
            None => 0int,
        }
    }
}

/// The number of a slot's categories whose crawl failed.
pub open spec fn failed_count(outcomes: Seq<Option<u64>>) -> int
    decreases outcomes.len(),
{
    if outcomes.len() == 0 {
        0
    } else {
        failed_count(outcomes.drop_last()) + if outcomes.last() is None { 1int } else { 0int }
    }
}

proof fn lemma_crawled_total_prefix(outcomes: Seq<Option<u64>>, i: int)
    requires
        0 <= i <= outcomes.len(),
    ensures
        0 <= crawled_total(outcomes.take(i)) <= crawled_total(outcomes),
    decreases outcomes.len(),
{
    if outcomes.len() > 0 {
        if i == outcomes.len() {
            assert(outcomes.take(i) =~= outcomes);
            lemma_crawled_total_prefix(outcomes.drop_last(), i - 1);
            assert(outcomes.drop_last().take(i - 1) =~= outcomes.drop_last());
        } else {
            lemma_crawled_total_prefix(outcomes.drop_last(), i);
            assert(outcomes.drop_last().take(i) =~= outcomes.take(i));
        }
    } else {
        assert(outcomes.take(i) =~= outcomes);
    }
}

proof fn lemma_failed_count_bounds(outcomes: Seq<Option<u64>>)
    ensures
        0 <= failed_count(outcomes) <= outcomes.len(),
        (failed_count(outcomes) == 0) == (forall|k: int| 0 <= k < outcomes.len() ==> (#[trigger] outcomes[k]) is Some),
    decreases outcomes.len(),
{
    if outcomes.len() > 0 {
        let rest = outcomes.drop_last();
        lemma_failed_count_bounds(rest);
        if failed_count(outcomes) == 0 {
            assert forall|k: int| 0 <= k < outcomes.len() implies (#[trigger] outcomes[k]) is Some by {
                if k < rest.len() {
                    assert(rest[k] == outcomes[k]);
                }
            }
        } else if outcomes.last() is Some {
            let k = choose|k: int| 0 <= k < rest.len() && !((#[trigger] rest[k]) is Some);
            assert(outcomes[k] == rest[k]);
        }
    }
}

/// Tally a slot's run from the outcome of each of its categories, in
/// order: the number of articles crawled, or `None` where the crawl failed.
pub fn tally_slot(hour: u8, categories: Vec<String>, outcomes: &Vec<Option<u64>>) -> (r: SlotResult)
    requires
        outcomes@.len() == categories@.len(),
        crawled_total(outcomes@) <= u64::MAX,
    ensures
        r.hour == hour,
        r.categories@ == categories@,
        r.articles_crawled == crawled_total(outcomes@),
        r.errors == failed_count(outcomes@),
        (r.errors == 0) == (forall|k: int| 0 <= k < outcomes@.len() ==> (#[trigger] outcomes@[k]) is Some),
{
    let ghost names = categories@;
    let mut run = SlotRun::new(hour, categories);
    let n = outcomes.len();
    let mut i: usize = 0;
    while i < n
        invariant
            n == outcomes@.len(),
            n == names.len(),
            i <= n,
            crawled_total(outcomes@) <= u64::MAX,
            run.spec_hour() == hour,
            run.spec_categories() == names,
            run.spec_next() == i,
            run.spec_articles() == crawled_total(outcomes@.take(i as int)),
            run.spec_errors() == failed_count(outcomes@.take(i as int)),
        decreases n - i,
    {
        let ghost before = outcomes@.take(i as int);
        let ghost after = outcomes@.take(i + 1);
        proof {
            assert(after.drop_last() =~= before);
            assert(after.last() == outcomes@[i as int]);
            lemma_crawled_total_prefix(outcomes@, i + 1);
            lemma_failed_count_bounds(before);
        }
        run.record(outcomes[i]);
        i = i + 1;
    }
    proof {
        assert(outcomes@.take(n as int) =~= outcomes@);
        lemma_failed_count_bounds(outcomes@);
    }
    run.finish()
}

/// Run a slot on the instance's state, given the outcome of each of its
/// categories in order (the number of articles crawled, or `None` where the
/// crawl failed): the state is marked crawling while the categories are
/// tallied, then takes the slot's articles and errors and becomes idle.
pub fn settle_slot(
    state: &mut InstanceState,
    hour: u8,
    categories: Vec<String>,
    outcomes: &Vec<Option<u64>>,
) -> (r: SlotResult)
    requires
        outcomes@.len() == categories@.len(),
        old(state).articles_crawled + crawled_total(outcomes@) <= u64::MAX,
        old(state).error_count + failed_count(outcomes@) <= u64::MAX,
    ensures
        r.hour == hour,
        r.categories@ == categories@,
        r.articles_crawled == crawled_total(outcomes@),
        r.errors == failed_count(outcomes@),
        exists|now: i64|
            -clock_bound() <= now <= clock_bound() && *final(state) == #[trigger] old(state).slot_done(
                r.articles_crawled,
                r.errors,
                now,
            ),
{
    let ghost start = *state;
    let first = if categories.len() > 0 { Some(copy_string(&categories[0])) } else { None };
    state.start_slot(first);
    let r = tally_slot(hour, categories, outcomes);
    state.finish_slot(r.articles_crawled, r.errors);
    proof {
        let now = choose|now: i64|
            -clock_bound() <= now <= clock_bound() && *state == #[trigger] (InstanceState {
                is_crawling: true,
                current_category: first,
                ..start
            }).slot_done(r.articles_crawled, r.errors, now);
        assert(start.slot_done(r.articles_crawled, r.errors, now) == (InstanceState {
            is_crawling: true,
            current_category: first,
            ..start
        }).slot_done(r.articles_crawled, r.errors, now));
    }
    r
}

/// What a category's crawl goes on with once its article URLs are collected
/// and checked against those already stored.
#[derive(Debug)]
pub enum CategoryCrawl {
    /// Nothing new to crawl: the category counts no articles.
    Nothing {
        /// URLs skipped because they were already stored
        skipped: usize,
    },
    /// Crawl these URLs.
    Crawl {
        /// The URLs not stored yet
        urls: Vec<String>,
        /// URLs skipped because they were already stored
        skipped: usize,
    },
}

/// Decide a category's crawl from the URLs collected for it and, where a
/// deduplication check ran, the URLs it found new (`None`: no check, every
/// URL is new). No URL collected, or none new, leaves nothing to crawl; the
/// URLs that are not new are counted as skipped.
pub fn category_crawl_plan(all_urls: Vec<String>, new_urls: Option<Vec<String>>) -> (r: CategoryCrawl)
    requires
        new_urls matches Some(v) ==> v@.len() <= all_urls@.len(),
    ensures
        all_urls@.len() == 0 ==> r == (CategoryCrawl::Nothing { skipped: 0 }),
        all_urls@.len() > 0 ==> match new_urls {
            None => r matches CategoryCrawl::Crawl { urls, skipped } && urls@ == all_urls@ && skipped == 0,
            Some(v) => if v@.len() == 0 {
                r == (CategoryCrawl::Nothing { skipped: all_urls@.len() as usize })
            } else {
                r matches CategoryCrawl::Crawl { urls, skipped } && urls@ == v@ && skipped == all_urls@.len()
                    - v@.len()
            },
        },
{
    if all_urls.len() == 0 {
        return CategoryCrawl::Nothing { skipped: 0 };
    }
    let total = all_urls.len();
    let fresh = match new_urls {
        Some(v) => v,
        None => all_urls,
    };
    let skipped = total - fresh.len();
    if fresh.len() == 0 {
        CategoryCrawl::Nothing { skipped }
    } else {
        CategoryCrawl::Crawl { urls: fresh, skipped }
    }
}

/// `Path::join(dir, "raw")` for a relative `raw`: `raw` under the directory.
pub open spec fn raw_dir(dir: Seq<char>) -> Seq<char> {
    if dir.len() == 0 {
        "raw"@
    } else if dir.last() == '/' {
        dir + "raw"@
    } else {
        dir + "/raw"@
    }
}

/// The pipeline settings of a category crawl: three fetchers, two parsers,
/// two writers, a buffer of 100, output under `raw` of the output directory.
pub fn category_pipeline_config(
    output_dir: &str,
    requests_per_second: u32,
    timeout_secs: u64,
    include_comments: bool,
    max_retries: u32,
) -> (r: PipelineConfig)
    ensures
        r.fetcher_workers == 3,
        r.parser_workers == 2,
        r.storage_workers == 2,
        r.channel_buffer_size == 100,
        r.output_dir@ == raw_dir(output_dir@),
        r.requests_per_second == requests_per_second,
        r.request_timeout_secs == timeout_secs,
        r.crawl_comments == include_comments,
        r.max_retries == max_retries,
{
    let mut d = chars_of(output_dir);
    if d.len() == 0 {
        push_str(&mut d, "raw");
    } else if d[d.len() - 1] == '/' {
        push_str(&mut d, "raw");
    } else {
        push_str(&mut d, "/raw");
    }
    PipelineConfig {
        fetcher_workers: 3,
        parser_workers: 2,
        storage_workers: 2,
        channel_buffer_size: 100,
        output_dir: string_of(d.as_slice()),
        requests_per_second,
        request_timeout_secs: timeout_secs,
        crawl_comments: include_comments,
        max_retries,
    }
}

/// The category a slot names, or the crawl error for a name that is none.
pub fn slot_category(category: &str) -> (r: Result<NewsCategory, RunnerError>)
    ensures
        match r {
            Ok(c) => c.spec_id() == category@,
            Err(RunnerError::CrawlError(m)) => (forall|c: NewsCategory| c.spec_id() != category@) && m@
                == "Invalid category: "@ + category@,
            Err(_) => false,
        },
{
    match NewsCategory::parse(category) {
        Some(c) => Ok(c),
        None => {
            let mut m: Vec<char> = Vec::new();
            push_str(&mut m, "Invalid category: ");
            push_str(&mut m, category);
            Err(RunnerError::CrawlError(string_of(m.as_slice())))
        },
    }
}

} // verus!
