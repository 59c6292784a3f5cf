use baram::crawler::distributed::{
    category_crawl_plan, category_pipeline_config, secs_until_hour, secs_until_next_hour, settle_slot, slot_category, tally_slot,
    CategoryCrawl, RunnerError, SlotResult, SlotRun,
};
use baram::crawler::instance::InstanceState;
use baram::crawler::headers::{build_comment_headers, build_naver_headers, header_value_ok, section_referer};
use baram::crawler::list::{ListError, ListUrlBuilder, NewsListCrawler, UrlCollection};
use baram::crawler::pipeline::{
    extract_category_from_url, FetchJob, JobResult, PipelineBuilder, PipelineConfig, PipelineStats,
};
use baram::crawler::status::{
    ErrorCategory, HealthCheck, HealthStatus, RecoveryAction, RecoveryManager, StatusReporter,
    StatusReporterConfig,
};
use baram::crawler::trigger::{CrawlerTriggerConfig, CrawlerTriggerError};
use baram::models::NewsCategory;
use baram::scheduler::CrawlerInstance;

fn header<'a>(headers: &'a [(String, String)], name: &str) -> Option<&'a str> {
    headers.iter().find(|(k, _)| k == name).map(|(_, v)| v.as_str())
}

// ---------------------------------------------------------------- status

#[test]
fn test_health_status_display() {
    assert_eq!(HealthStatus::Healthy.as_str(), "healthy");
    assert_eq!(HealthStatus::Degraded.as_str(), "degraded");
    assert_eq!(HealthStatus::Unhealthy.as_str(), "unhealthy");
}

#[test]
fn test_error_category_classify() {
    assert_eq!(ErrorCategory::classify("Connection timeout"), ErrorCategory::Network);
    assert_eq!(ErrorCategory::classify("Rate limit exceeded"), ErrorCategory::RateLimited);
    assert_eq!(ErrorCategory::classify("Database connection failed"), ErrorCategory::Database);
    assert_eq!(ErrorCategory::classify("Parse error: invalid JSON"), ErrorCategory::Parse);
}

#[test]
fn test_error_category_is_retryable() {
    assert!(ErrorCategory::Network.is_retryable());
    assert!(ErrorCategory::RateLimited.is_retryable());
    assert!(ErrorCategory::Database.is_retryable());
    assert!(!ErrorCategory::Parse.is_retryable());
}

#[test]
fn test_error_category_backoff() {
    assert!(ErrorCategory::RateLimited.recommended_backoff() > ErrorCategory::Network.recommended_backoff());
}

#[test]
fn test_status_reporter_config() {
    let config = StatusReporterConfig::for_instance(CrawlerInstance::Sub1)
        .with_report_interval(60)
        .with_unhealthy_threshold(10);

    assert_eq!(config.instance_id, CrawlerInstance::Sub1);
    assert_eq!(config.report_interval_secs, 60);
    assert_eq!(config.unhealthy_threshold, 10);
}

#[test]
fn test_status_reporter_creation() {
    let reporter = StatusReporter::new(StatusReporterConfig::default());
    let status = reporter.get_status();
    assert_eq!(status.health, HealthStatus::Starting);
    assert!(!status.is_crawling);
}

#[test]
fn test_status_reporter_record_success() {
    let mut reporter = StatusReporter::new(StatusReporterConfig::default());
    reporter.mark_healthy();
    reporter.record_success(10);

    let status = reporter.get_status();
    assert_eq!(status.articles_crawled, 10);
    assert!(status.last_success.is_some());
    assert_eq!(status.consecutive_failures, 0);
}

#[test]
fn test_status_reporter_record_error() {
    let mut config = StatusReporterConfig::for_instance(CrawlerInstance::Main).with_unhealthy_threshold(3);
    config.enable_auto_recovery = false;
    let mut reporter = StatusReporter::new(config);
    reporter.mark_healthy();

    reporter.record_error("Parse error invalid JSON", Some("url1"));
    assert_eq!(reporter.get_status().health, HealthStatus::Degraded);

    reporter.record_error("Parse error invalid JSON", Some("url2"));
    reporter.record_error("Parse error invalid JSON", Some("url3"));

    let status = reporter.get_status();
    assert_eq!(status.health, HealthStatus::Unhealthy);
    assert_eq!(status.consecutive_failures, 3);
}

#[test]
fn test_status_reporter_crawling() {
    let mut reporter = StatusReporter::new(StatusReporterConfig::default());

    reporter.start_crawling(Some("politics".to_string()));
    let status = reporter.get_status();
    assert!(status.is_crawling);
    assert_eq!(status.current_category, Some("politics".to_string()));

    reporter.stop_crawling();
    let status = reporter.get_status();
    assert!(!status.is_crawling);
    assert!(status.current_category.is_none());
}

#[test]
fn test_recovery_action_recommend() {
    let actions = RecoveryAction::recommend(ErrorCategory::RateLimited, 3);
    assert!(!actions.is_empty());
    assert!(actions.iter().any(|a| matches!(a, RecoveryAction::Throttle { .. })));
}

#[test]
fn test_health_check() {
    let mut check = HealthCheck::new();
    check.add_check("database", true, None, Some(5));
    check.add_check("coordinator", true, None, Some(10));
    check.add_check("network", false, Some("timeout"), None);

    check.calculate_status();
    assert_eq!(check.status, HealthStatus::Degraded);
}

#[test]
fn test_health_check_all_healthy() {
    let mut check = HealthCheck::new();
    check.add_check("database", true, None, Some(5));
    check.add_check("coordinator", true, None, Some(10));

    check.calculate_status();
    assert_eq!(check.status, HealthStatus::Healthy);
    assert!(check.is_healthy());
}

#[test]
fn health_check_half_failing_is_unhealthy_and_empty_is_starting() {
    let mut check = HealthCheck::new();
    check.calculate_status();
    assert_eq!(check.status, HealthStatus::Starting);
    check.add_check("database", true, None, None);
    check.add_check("network", false, None, None);
    check.calculate_status();
    assert_eq!(check.status, HealthStatus::Unhealthy);
    assert!(!check.is_healthy());
}

#[test]
fn classify_prefers_database_over_network_and_ignores_case() {
    assert_eq!(ErrorCategory::classify("SQL pool TIMEOUT"), ErrorCategory::Database);
    assert_eq!(ErrorCategory::classify("heartbeat connection lost"), ErrorCategory::Coordinator);
    assert_eq!(ErrorCategory::classify("HTTP 429"), ErrorCategory::RateLimited);
    assert_eq!(ErrorCategory::classify("something odd"), ErrorCategory::Unknown);
}

#[test]
fn backoff_seconds_per_category() {
    assert_eq!(ErrorCategory::Network.recommended_backoff_secs(), 5);
    assert_eq!(ErrorCategory::RateLimited.recommended_backoff_secs(), 60);
    assert!(!ErrorCategory::Unknown.is_retryable());
}

#[test]
fn error_history_is_bounded_by_configuration() {
    let mut config = StatusReporterConfig::default();
    config.max_error_history = 2;
    config.enable_auto_recovery = false;
    let mut reporter = StatusReporter::new(config);
    reporter.record_error("parse a", None);
    reporter.record_error("parse b", None);
    reporter.record_error("parse c", None);
    let history = reporter.get_error_history();
    assert_eq!(history.len(), 2);
    assert_eq!(history[0].message, "parse b");
    assert_eq!(history[1].message, "parse c");
    let recent = reporter.get_recent_errors(1);
    assert_eq!(recent.len(), 1);
    assert_eq!(recent[0].message, "parse c");
    assert_eq!(reporter.get_status().error_count, 3);
}

#[test]
fn success_after_errors_resets_failures_and_keeps_health() {
    let mut reporter = StatusReporter::new(StatusReporterConfig::default());
    reporter.record_error("parse error", None);
    assert_eq!(reporter.get_status().consecutive_failures, 1);
    reporter.record_success(4);
    let status = reporter.get_status();
    assert_eq!(status.consecutive_failures, 0);
    assert_eq!(status.health, HealthStatus::Degraded);
    assert_eq!(status.articles_crawled, 4);
}

// ---------------------------------------------------------------- pipeline

#[test]
fn test_pipeline_config_default() {
    let config = PipelineConfig::default();
    assert_eq!(config.fetcher_workers, 5);
    assert_eq!(config.parser_workers, 3);
    assert_eq!(config.storage_workers, 2);
    assert_eq!(config.channel_buffer_size, 1000);
}

#[test]
fn test_extract_category_from_url_sid() {
    assert_eq!(extract_category_from_url("https://n.news.naver.com/article/001/001?sid=100"), "politics");
    assert_eq!(extract_category_from_url("https://n.news.naver.com/article/001/001?sid=101"), "economy");
    assert_eq!(extract_category_from_url("https://n.news.naver.com/article/001/001?sid=102"), "society");
    assert_eq!(extract_category_from_url("https://n.news.naver.com/article/001/001?sid=103"), "culture");
    assert_eq!(extract_category_from_url("https://n.news.naver.com/article/001/001?sid=104"), "world");
    assert_eq!(extract_category_from_url("https://n.news.naver.com/article/001/001?sid=105"), "science");
}

#[test]
fn test_extract_category_from_url_path() {
    assert_eq!(extract_category_from_url("https://news.naver.com/politics/article/001/001"), "politics");
    assert_eq!(extract_category_from_url("https://news.naver.com/economy/article/001/001"), "economy");
    assert_eq!(extract_category_from_url("https://news.naver.com/unknown/article/001/001"), "general");
}

#[test]
fn extract_category_sid_stops_at_ampersand_and_unknown_sid_falls_back() {
    assert_eq!(extract_category_from_url("https://x/?sid=101&page=2"), "economy");
    assert_eq!(extract_category_from_url("https://x/world/?sid=999"), "world");
    assert_eq!(extract_category_from_url("https://x/?sid=1000"), "general");
}

#[test]
fn test_stats_snapshot() {
    let mut stats = PipelineStats::new();
    stats.record_success();
    stats.record_success();
    stats.record_failure();

    let snapshot = stats.snapshot();
    assert_eq!(snapshot.success_count, 2);
    assert_eq!(snapshot.failed_count, 1);
}

#[test]
fn test_pipeline_builder() {
    let config = PipelineBuilder::new()
        .fetcher_workers(10)
        .parser_workers(5)
        .storage_workers(3)
        .channel_buffer_size(500)
        .requests_per_second(10)
        .config;

    assert_eq!(config.fetcher_workers, 10);
    assert_eq!(config.parser_workers, 5);
    assert_eq!(config.storage_workers, 3);
    assert_eq!(config.channel_buffer_size, 500);
    assert_eq!(config.requests_per_second, 10);
}

#[test]
fn test_fetch_job_creation() {
    let job = FetchJob { url: "https://example.com".to_string(), job_id: 1, retry_count: 0 };
    assert_eq!(job.job_id, 1);
    assert_eq!(job.retry_count, 0);
}

#[test]
fn test_job_result_variants() {
    let success = JobResult::Success { job_id: 1, article_id: "test".to_string() };
    assert!(matches!(success, JobResult::Success { .. }));

    let failed = JobResult::Failed {
        job_id: 2,
        url: "https://example.com".to_string(),
        error: "timeout".to_string(),
    };
    assert!(matches!(failed, JobResult::Failed { .. }));

    let skipped = JobResult::Skipped { job_id: 3, reason: "duplicate".to_string() };
    assert!(matches!(skipped, JobResult::Skipped { .. }));
}

#[test]
fn record_result_counts_each_outcome() {
    let mut stats = PipelineStats::new();
    stats.record_result(&JobResult::Success { job_id: 1, article_id: "a".to_string() });
    stats.record_result(&JobResult::Skipped { job_id: 2, reason: "dup".to_string() });
    stats.record_result(&JobResult::Failed { job_id: 3, url: "u".to_string(), error: "e".to_string() });
    stats.record_bytes(100);
    let s = stats.snapshot();
    assert_eq!((s.success_count, s.skipped_count, s.failed_count, s.bytes_fetched), (1, 1, 1, 100));
}

#[test]
fn plan_jobs_numbers_jobs_in_order() {
    let mut pipeline = PipelineBuilder::new().build();
    let jobs = pipeline.plan_jobs(vec!["a".to_string(), "b".to_string()]);
    assert_eq!(jobs.len(), 2);
    assert_eq!(jobs[0].url, "a");
    assert_eq!(jobs[1].url, "b");
    assert_eq!(jobs[0].job_id, 0);
    assert_eq!(jobs[1].job_id, 1);
    assert_eq!(pipeline.stats().total_jobs, 2);
}

// ---------------------------------------------------------------- list

#[test]
fn test_build_list_url_politics() {
    let url = ListUrlBuilder::main_list(NewsCategory::Politics, "20241215", 1);
    assert!(url.contains("sid1=100"));
    assert!(url.contains("date=20241215"));
    assert!(url.contains("page=1"));
}

#[test]
fn test_build_list_url_economy() {
    let url = ListUrlBuilder::main_list(NewsCategory::Economy, "20241215", 5);
    assert!(url.contains("sid1=101"));
    assert!(url.contains("page=5"));
}

#[test]
fn test_ranking_url() {
    let url = ListUrlBuilder::ranking_list(NewsCategory::IT, 1);
    assert!(url.contains("sid1=105"));
    assert!(url.contains("popularDay"));
}

#[test]
fn ranking_url_has_the_documented_form() {
    assert_eq!(
        ListUrlBuilder::ranking_list(NewsCategory::IT, 1),
        "https://news.naver.com/main/ranking/popularDay.naver?mid=etc&sid1=105"
    );
    assert_eq!(ListUrlBuilder::ranking_list(NewsCategory::IT, 3), ListUrlBuilder::ranking_list(NewsCategory::IT, 1));
}

#[test]
fn test_section_latest_url() {
    let url = ListUrlBuilder::section_latest(NewsCategory::Society);
    assert_eq!(url, "https://news.naver.com/section/102");
}

#[test]
fn test_has_next_page_with_pagination() {
    let crawler = NewsListCrawler::new();
    let html = r#"<div class="paging"><a href="?page=2">2</a><a href="?page=3">다음</a></div>"#;
    assert!(crawler.has_next_page(html, 1));
}

#[test]
fn test_has_next_page_empty() {
    let crawler = NewsListCrawler::new();
    assert!(!crawler.has_next_page("<div>No articles</div>", 1));
}

#[test]
fn test_has_next_page_with_next_button() {
    let crawler = NewsListCrawler::new();
    let html = r#"<a class="next" href="?page=2">다음</a>"#;
    assert!(crawler.has_next_page(html, 1));
}

#[test]
fn test_has_next_page_with_articles() {
    let crawler = NewsListCrawler::new();
    let html = r#"<a href="https://n.news.naver.com/mnews/article/001/0014123456">Article</a>"#;
    assert!(crawler.has_next_page(html, 1));
}

#[test]
fn test_is_valid_date_format_valid() {
    assert!(NewsListCrawler::is_valid_date_format("20241215"));
    assert!(NewsListCrawler::is_valid_date_format("20200101"));
    assert!(NewsListCrawler::is_valid_date_format("20251231"));
}

#[test]
fn test_is_valid_date_format_invalid() {
    assert!(!NewsListCrawler::is_valid_date_format("2024121"));
    assert!(!NewsListCrawler::is_valid_date_format("202412155"));
    assert!(!NewsListCrawler::is_valid_date_format("2024-12-15"));
    assert!(!NewsListCrawler::is_valid_date_format("abcd1215"));
    assert!(!NewsListCrawler::is_valid_date_format("19991215"));
    assert!(!NewsListCrawler::is_valid_date_format("21011215"));
    assert!(!NewsListCrawler::is_valid_date_format("20241315"));
    assert!(!NewsListCrawler::is_valid_date_format("20241232"));
}

#[test]
fn test_all_categories_url_building() {
    for category in NewsCategory::all() {
        let url = ListUrlBuilder::main_list(category, "20241215", 1);
        assert!(url.contains(&format!("sid1={}", category.to_section_id())));
        assert!(url.contains("date=20241215"));
    }
}

#[test]
fn date_bounds_are_inclusive() {
    assert!(NewsListCrawler::is_valid_date_format("20000101"));
    assert!(NewsListCrawler::is_valid_date_format("21001231"));
    assert!(!NewsListCrawler::is_valid_date_format("20240001"));
    assert!(!NewsListCrawler::is_valid_date_format("20240100"));
}

#[test]
fn url_collection_rejects_bad_dates_and_gathers_pages() {
    assert!(matches!(UrlCollection::new("2024-1215", 3), Err(ListError::InvalidDate(_))));
    let mut c = UrlCollection::new("20241215", 3).unwrap();
    assert_eq!(c.next_page(), Some(1));
    c.absorb(vec!["b".to_string(), "a".to_string()], true);
    assert_eq!(c.next_page(), Some(2));
    c.absorb(vec!["a".to_string()], false);
    assert_eq!(c.next_page(), None);
    let urls = c.finish().unwrap();
    assert_eq!(urls, vec!["a".to_string(), "b".to_string()]);
}

#[test]
fn url_collection_with_nothing_found_is_an_error() {
    let mut c = UrlCollection::new("20241215", 2).unwrap();
    c.absorb(vec![], false);
    assert!(matches!(c.finish(), Err(ListError::NoArticlesFound)));
}

// ---------------------------------------------------------------- trigger

#[test]
fn test_crawler_trigger_config_default() {
    let config = CrawlerTriggerConfig::default();
    assert_eq!(config.instance_id, CrawlerInstance::Main);
    assert_eq!(config.start_delay_secs, 5);
    assert_eq!(config.max_crawl_duration_secs, 3300);
}

#[test]
fn test_crawler_trigger_config_for_instance() {
    let config = CrawlerTriggerConfig::for_instance(CrawlerInstance::Sub1);
    assert_eq!(config.instance_id, CrawlerInstance::Sub1);
}

#[test]
fn test_crawler_trigger_config_builder() {
    let config = CrawlerTriggerConfig::for_instance(CrawlerInstance::Sub2)
        .with_start_delay(10)
        .with_max_duration(3000)
        .with_parallel_categories(true);

    assert_eq!(config.instance_id, CrawlerInstance::Sub2);
    assert_eq!(config.start_delay_secs, 10);
    assert_eq!(config.max_crawl_duration_secs, 3000);
    assert!(config.parallel_categories);
}

#[test]
fn test_crawler_trigger_error_display() {
    let error = CrawlerTriggerError::CategoryCrawlFailed {
        category: "politics".to_string(),
        error: "timeout".to_string(),
    };
    assert!(error.message().contains("politics"));
    assert!(error.message().contains("timeout"));
}

#[test]
fn trigger_error_messages_exact() {
    assert_eq!(CrawlerTriggerError::AlreadyCrawling.message(), "Already crawling");
    let e = CrawlerTriggerError::CategoryCrawlFailed { category: "it".to_string(), error: "x".to_string() };
    assert_eq!(e.message(), "Category it crawl failed: x");
}

// ---------------------------------------------------------------- headers

#[test]
fn test_build_naver_headers() {
    let headers = build_naver_headers("Mozilla/5.0", "https://news.naver.com");
    assert_eq!(header(&headers, "user-agent"), Some("Mozilla/5.0"));
    assert_eq!(header(&headers, "referer"), Some("https://news.naver.com"));
    assert!(header(&headers, "accept").is_some());
    assert_eq!(header(&headers, "accept-language"), Some("ko-KR,ko;q=0.9,en-US;q=0.8,en;q=0.7"));
    assert!(header(&headers, "accept-encoding").is_some());
    assert!(header(&headers, "sec-fetch-dest").is_some());
    assert!(header(&headers, "sec-fetch-mode").is_some());
    assert!(header(&headers, "sec-fetch-site").is_some());
    assert!(header(&headers, "sec-fetch-user").is_some());
    assert!(header(&headers, "upgrade-insecure-requests").is_some());
}

#[test]
fn test_section_referer() {
    assert_eq!(section_referer(100), "https://news.naver.com/main/main.naver?mode=LSD&mid=shm&sid1=100");
}

#[test]
fn test_all_section_referers() {
    let sections = [
        (100, "Politics"),
        (101, "Economy"),
        (102, "Society"),
        (103, "Culture"),
        (104, "World"),
        (105, "IT/Science"),
    ];
    for (section_id, _name) in sections {
        let referer = section_referer(section_id);
        assert!(referer.starts_with("https://news.naver.com/main/main.naver?"));
        assert!(referer.contains(&format!("sid1={section_id}")));
        assert!(referer.contains("mode=LSD"));
        assert!(referer.contains("mid=shm"));
    }
}

#[test]
fn test_build_comment_headers() {
    let article_url = "https://news.naver.com/article/123/456";
    let headers = build_comment_headers(article_url);
    assert_eq!(header(&headers, "x-requested-with"), Some("XMLHttpRequest"));
    assert_eq!(header(&headers, "accept"), Some("application/json, text/javascript, */*; q=0.01"));
    assert_eq!(header(&headers, "referer"), Some(article_url));
    assert_eq!(header(&headers, "sec-fetch-dest"), Some("empty"));
    assert_eq!(header(&headers, "sec-fetch-mode"), Some("cors"));
    assert_eq!(header(&headers, "sec-fetch-site"), Some("same-origin"));
}

#[test]
fn test_comment_headers_with_special_characters() {
    let article_url = "https://news.naver.com/article/test/123?query=value&other=data";
    let headers = build_comment_headers(article_url);
    assert_eq!(header(&headers, "referer"), Some(article_url));
}

#[test]
fn header_values_refuse_control_characters() {
    assert!(header_value_ok("Mozilla/5.0 (X11)"));
    assert!(!header_value_ok("bad\nvalue"));
    assert!(!header_value_ok("bad\u{7f}"));
}

// ---------------------------------------------------------------- distributed

#[test]
fn test_slot_result() {
    let result = SlotResult {
        hour: 14,
        articles_crawled: 100,
        errors: 0,
        categories: vec!["politics".to_string()],
    };
    assert!(result.is_success());
}

#[test]
fn test_slot_result_with_errors() {
    let result = SlotResult {
        hour: 14,
        articles_crawled: 90,
        errors: 10,
        categories: vec!["economy".to_string()],
    };
    assert!(!result.is_success());
}

#[test]
fn test_time_until_next_hour() {
    assert!(secs_until_next_hour(0, 0) <= 3600);
    assert_eq!(secs_until_next_hour(59, 59), 1);
    assert_eq!(secs_until_next_hour(30, 0), 1800);
}

#[test]
fn test_time_until_hour() {
    assert!(secs_until_hour(12, 0, 0, 23) <= 86400);
    assert_eq!(secs_until_hour(22, 0, 0, 23), 3600);
    assert_eq!(secs_until_hour(23, 0, 0, 23), 86400);
    assert_eq!(secs_until_hour(23, 30, 0, 1), 5400);
}

#[test]
fn test_runner_error_display() {
    let error = RunnerError::CoordinatorError("connection refused".to_string());
    assert!(error.message().contains("Coordinator error"));
    assert_eq!(error.message(), "Coordinator error: connection refused");
}

#[test]
fn slot_run_tallies_categories() {
    let mut run = SlotRun::new(9, vec!["politics".to_string(), "economy".to_string()]);
    assert_eq!(run.next_category(), Some("politics".to_string()));
    run.record(Some(12));
    assert_eq!(run.next_category(), Some("economy".to_string()));
    run.record(None);
    assert_eq!(run.next_category(), None);
    let result = run.finish();
    assert_eq!(result.hour, 9);
    assert_eq!(result.articles_crawled, 12);
    assert_eq!(result.errors, 1);
    assert_eq!(result.categories, vec!["politics".to_string(), "economy".to_string()]);
}

#[test]
fn slot_tally_sums_successes_and_counts_failures() {
    let categories = vec!["politics".to_string(), "economy".to_string(), "society".to_string()];
    let result = tally_slot(14, categories.clone(), &vec![Some(7), None, Some(5)]);
    assert_eq!(result.hour, 14);
    assert_eq!(result.categories, categories);
    assert_eq!(result.articles_crawled, 12);
    assert_eq!(result.errors, 1);
    assert!(!result.is_success());
    let clean = tally_slot(3, vec!["world".to_string()], &vec![Some(0)]);
    assert_eq!(clean.articles_crawled, 0);
    assert!(clean.is_success());
    let empty = tally_slot(0, vec![], &vec![]);
    assert_eq!(empty.articles_crawled, 0);
    assert_eq!(empty.errors, 0);
}

#[test]
fn settled_slot_updates_the_instance_state() {
    let mut state = InstanceState::new_at(100);
    state.record_success_at(4, 150);
    state.record_error();
    let categories = vec!["it".to_string(), "culture".to_string()];
    let result = settle_slot(&mut state, 8, categories, &vec![None, Some(9)]);
    assert_eq!(result.articles_crawled, 9);
    assert_eq!(result.errors, 1);
    assert_eq!(state.articles_crawled, 13);
    assert_eq!(state.error_count, 2);
    assert!(!state.is_crawling);
    assert_eq!(state.current_category, None);
    assert!(state.last_crawl.is_some());
    assert_eq!(state.session_start, 100);
}

#[test]
fn finished_slot_at_a_moment_is_exact() {
    let mut state = InstanceState::new_at(10);
    state.start_slot(Some("politics".to_string()));
    assert!(state.is_crawling);
    assert_eq!(state.current_category, Some("politics".to_string()));
    state.finish_slot_at(6, 3, 42);
    assert_eq!(state.articles_crawled, 6);
    assert_eq!(state.error_count, 3);
    assert_eq!(state.last_crawl, Some(42));
    assert!(!state.is_crawling);
    assert_eq!(state.current_category, None);
}

#[test]
fn category_crawl_plan_skips_stored_urls() {
    let all = vec!["a".to_string(), "b".to_string(), "c".to_string()];
    assert!(matches!(category_crawl_plan(vec![], None), CategoryCrawl::Nothing { skipped: 0 }));
    assert!(matches!(category_crawl_plan(vec![], Some(vec![])), CategoryCrawl::Nothing { skipped: 0 }));
    assert!(matches!(category_crawl_plan(all.clone(), Some(vec![])), CategoryCrawl::Nothing { skipped: 3 }));
    match category_crawl_plan(all.clone(), None) {
        CategoryCrawl::Crawl { urls, skipped } => {
            assert_eq!(urls, all);
            assert_eq!(skipped, 0);
        },
        other => panic!("unexpected plan {:?}", other),
    }
    match category_crawl_plan(all.clone(), Some(vec!["c".to_string()])) {
        CategoryCrawl::Crawl { urls, skipped } => {
            assert_eq!(urls, vec!["c".to_string()]);
            assert_eq!(skipped, 2);
        },
        other => panic!("unexpected plan {:?}", other),
    }
}

#[test]
fn slot_category_accepts_known_ids_only() {
    assert!(matches!(slot_category("economy"), Ok(NewsCategory::Economy)));
    assert!(matches!(slot_category("weather"), Err(RunnerError::CrawlError(_))));
    let config = category_pipeline_config("/data", 5, 30, true, 3);
    assert_eq!(config.requests_per_second, 5);
    assert_eq!(config.output_dir, "/data/raw");
    assert_eq!(category_pipeline_config("/data/", 5, 30, true, 3).output_dir, "/data/raw");
}

#[test]
fn recovery_waits_for_the_cooldown() {
    let mut m = RecoveryManager::new(StatusReporterConfig::for_instance(CrawlerInstance::Main));
    assert!(m.can_attempt_recovery_after(None));
    assert!(m.can_attempt_recovery());
    m.record_attempt();
    assert!(!m.can_attempt_recovery_after(Some(59)));
    assert!(m.can_attempt_recovery_after(Some(60)));
    assert!(!m.can_attempt_recovery_after(None));
    assert!(!m.can_attempt_recovery());
    m.record_attempt();
    m.record_attempt();
    assert!(!m.can_attempt_recovery_after(Some(1000)));
    m.reset();
    assert!(m.can_attempt_recovery_after(None));
}
