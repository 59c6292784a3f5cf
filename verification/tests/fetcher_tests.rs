use baram::commands::index::{
    batch_count, checkpoint_name, embedding_text, modified_since, since_timestamp, IndexCheckpoint,
};
use baram::config::validate_settings;
use baram::crawler::fetcher::{
    backoff_delay_ms, section_referer_url, status_action, user_agents, FetchAttempts, FetchError, FetchStep,
    NaverFetcher, StatusAction,
};
use baram::crawler::instance::{
    instance_from_setting, local_address, required_fields, validate_instance_settings, ConfigError, InstanceState,
};
use baram::scheduler::CrawlerInstance;
use std::collections::HashSet;

fn header<'a>(headers: &'a [(String, String)], name: &str) -> Option<&'a str> {
    headers.iter().find(|(k, _)| k == name).map(|(_, v)| v.as_str())
}

// ---------------------------------------------------------------- fetcher

#[test]
fn test_user_agent_rotation() {
    let fetcher = NaverFetcher::new(10);
    let pool = user_agents();
    let mut agents = HashSet::new();
    for _ in 0..100 {
        let agent = fetcher.random_user_agent();
        assert!(pool.contains(&agent));
        agents.insert(agent);
    }
    assert!(agents.len() > 1, "User agents should rotate");
}

#[test]
fn user_agent_follows_the_draw() {
    let pool = user_agents();
    assert_eq!(NaverFetcher::user_agent_for(None), pool[0]);
    assert_eq!(NaverFetcher::user_agent_for(Some(pool[2])), pool[2]);
    assert_eq!(NaverFetcher::user_agent_for(Some("custom-agent")), "custom-agent");
}

#[test]
fn test_decode_utf8() {
    let fetcher = NaverFetcher::new(10);
    let text = "Hello, World! 안녕하세요";
    let decoded = fetcher.decode_bytes(text.as_bytes(), "text/html; charset=utf-8");
    assert!(decoded.is_ok());
    assert_eq!(decoded.unwrap(), text);
}

#[test]
fn test_decode_euc_kr() {
    let fetcher = NaverFetcher::new(10);
    let euc_kr_bytes: &[u8] = &[0xbe, 0xc8, 0xb3, 0xe7, 0xc7, 0xcf, 0xbc, 0xbc, 0xbf, 0xe4];
    let decoded = fetcher.decode_bytes(euc_kr_bytes, "text/html; charset=euc-kr");
    assert_eq!(decoded.unwrap(), "안녕하세요");
}

#[test]
fn test_decode_euc_kr_fallback() {
    let fetcher = NaverFetcher::new(10);
    let euc_kr_bytes: &[u8] = &[0xbe, 0xc8, 0xb3, 0xe7, 0xc7, 0xcf, 0xbc, 0xbc, 0xbf, 0xe4];
    let decoded = fetcher.decode_bytes(euc_kr_bytes, "text/html");
    assert_eq!(decoded.unwrap(), "안녕하세요");
}

#[test]
fn test_decode_mixed_content() {
    let fetcher = NaverFetcher::new(10);
    let utf8_text = "Title: 안녕 World";
    let decoded = fetcher.decode_bytes(utf8_text.as_bytes(), "text/html");
    assert_eq!(decoded.unwrap(), utf8_text);
}

#[test]
fn declared_charset_wins_and_reports_its_errors() {
    let fetcher = NaverFetcher::new(1);
    // invalid UTF-8 declared as UTF-8
    match fetcher.decode_bytes(&[0xc3, 0x28], "text/html; Charset=UTF-8") {
        Err(FetchError::Decode(m)) => assert_eq!(m, "UTF-8 decoding errors"),
        other => panic!("unexpected {other:?}"),
    }
    // a lone EUC-KR lead byte is malformed in both encodings
    match fetcher.decode_bytes(&[0xb0], "text/html") {
        Err(FetchError::Decode(m)) => assert_eq!(m, "Failed to decode content with UTF-8 or EUC-KR"),
        other => panic!("unexpected {other:?}"),
    }
}

#[test]
fn test_referer_generation() {
    let fetcher = NaverFetcher::new(10);
    let referer = "https://news.naver.com/section/100";
    let headers = fetcher.build_headers(referer);
    assert_eq!(header(&headers, "referer"), Some(referer));
    assert!(header(&headers, "user-agent").is_some());
    assert!(header(&headers, "accept").is_some());
    assert!(header(&headers, "accept-language").is_some());
    assert!(header(&headers, "accept-encoding").is_some());
}

#[test]
fn referer_that_is_no_header_value_is_left_out() {
    let fetcher = NaverFetcher::new(10);
    let headers = fetcher.build_headers("bad\nreferer");
    assert_eq!(headers.len(), 4);
    assert_eq!(header(&headers, "referer"), None);
    assert_eq!(section_referer_url(101), "https://news.naver.com/section/101");
}

#[test]
fn test_should_retry() {
    assert!(NaverFetcher::should_retry(429));
    assert!(NaverFetcher::should_retry(500));
    assert!(NaverFetcher::should_retry(502));
    assert!(NaverFetcher::should_retry(503));
    assert!(NaverFetcher::should_retry(504));
    assert!(!NaverFetcher::should_retry(400));
    assert!(!NaverFetcher::should_retry(401));
    assert!(!NaverFetcher::should_retry(403));
    assert!(!NaverFetcher::should_retry(404));
    assert!(!NaverFetcher::should_retry(200));
}

#[test]
fn status_actions() {
    assert_eq!(status_action(200), StatusAction::Decode);
    assert_eq!(status_action(204), StatusAction::Decode);
    assert_eq!(status_action(503), StatusAction::Retry);
    assert_eq!(status_action(404), StatusAction::Fail);
    assert_eq!(status_action(301), StatusAction::Fail);
}

#[test]
fn test_fetcher_creation() {
    let fetcher = NaverFetcher::new(10);
    assert_eq!((fetcher.requests_per_second, fetcher.max_retries, fetcher.timeout_secs), (10, 3, 30));
    let fetcher = NaverFetcher::with_config(5, 3, 10);
    assert_eq!((fetcher.requests_per_second, fetcher.timeout_secs), (5, 10));
    assert_eq!(NaverFetcher::new(0).requests_per_second, 1);
}

#[test]
fn test_fetcher_with_base_url() {
    let fetcher = NaverFetcher::with_base_url("http://localhost:8080", 10);
    assert_eq!(fetcher.base_url, Some("http://localhost:8080".to_string()));
    assert_eq!(fetcher.full_url("/article/1"), "http://localhost:8080/article/1");
    assert_eq!(NaverFetcher::new(1).full_url("https://x/y"), "https://x/y");
}

#[test]
fn attempts_back_off_exponentially_and_give_up() {
    let fetcher = NaverFetcher::new(10);
    let mut attempts = FetchAttempts::new(&fetcher);
    let mut delays = Vec::new();
    loop {
        match attempts.next_step() {
            FetchStep::Send { delay_ms } => {
                delays.push(delay_ms);
                attempts.record_failure();
            }
            FetchStep::GiveUp => break,
        }
    }
    assert_eq!(delays, vec![0, 1000, 2000, 4000]);
    assert_eq!(backoff_delay_ms(1000, 5), 16000);
}

// ---------------------------------------------------------------- instance and settings

#[test]
fn test_instance_state() {
    let mut state = InstanceState::new();
    assert_eq!(state.articles_crawled, 0);
    assert!(!state.is_crawling);
    state.record_success(5);
    assert_eq!(state.articles_crawled, 5);
    state.record_error();
    assert_eq!(state.error_count, 1);
    assert!(state.last_crawl.is_some());
}

#[test]
fn instance_state_session_and_reset() {
    let mut state = InstanceState::new_at(1000);
    state.set_crawling(true);
    state.set_category(Some("it".to_string()));
    state.record_success_at(3, 1010);
    assert_eq!(state.last_crawl, Some(1010));
    assert_eq!(state.session_duration_secs_at(1060), 60);
    state.reset_at(2000);
    assert_eq!(state.articles_crawled, 0);
    assert!(!state.is_crawling);
    assert_eq!(state.current_category, None);
    assert_eq!(state.session_start, 2000);
}

#[test]
fn test_local_address() {
    assert_eq!(local_address(&None, 8081), "0.0.0.0:8081");
    assert_eq!(local_address(&Some("192.168.1.100".to_string()), 9000), "192.168.1.100:9000");
}

#[test]
fn test_instance_config_validate() {
    assert!(validate_instance_settings("http://localhost:8080", "postgres://localhost/ntimes", true).is_ok());
    let e = validate_instance_settings("", "postgres://x", true).unwrap_err();
    assert_eq!(e.message(), "Invalid value for coordinator_url: URL cannot be empty");
    let e = validate_instance_settings("http://c", "", true).unwrap_err();
    assert_eq!(e.message(), "Invalid value for database_url: URL cannot be empty");
    let e = validate_instance_settings("http://c", "d", false).unwrap_err();
    assert_eq!(e.message(), "Invalid value for requests_per_second: Must be positive");
}

#[test]
fn test_instance_config_builder_missing_field() {
    let r = required_fields(None, Some("http://localhost:8080".to_string()), None);
    assert!(matches!(r, Err(ConfigError::MissingField(f)) if f == "instance_id"));
    let r = required_fields(Some(CrawlerInstance::Sub1), Some("c".to_string()), None);
    assert!(matches!(r, Err(ConfigError::MissingField(f)) if f == "database_url"));
    let (i, c, d) = required_fields(Some(CrawlerInstance::Sub1), Some("c".to_string()), Some("d".to_string())).unwrap();
    assert_eq!((i, c.as_str(), d.as_str()), (CrawlerInstance::Sub1, "c", "d"));
}

#[test]
fn instance_ids_from_settings() {
    assert_eq!(instance_from_setting("sub2").unwrap(), CrawlerInstance::Sub2);
    let e = instance_from_setting("sub9").unwrap_err();
    assert_eq!(e.message(), "Invalid instance ID: sub9");
}

#[test]
fn test_default_config_is_valid() {
    assert!(validate_settings(10, true, 10).is_ok());
}

#[test]
fn test_invalid_concurrent_requests() {
    assert_eq!(validate_settings(0, true, 10).unwrap_err(), "max_concurrent_requests must be greater than 0");
    assert_eq!(validate_settings(10, false, 10).unwrap_err(), "rate_limit must be positive");
    assert_eq!(validate_settings(10, true, 0).unwrap_err(), "pool_size must be greater than 0");
}

// ---------------------------------------------------------------- index checkpoint

#[test]
fn checkpoint_skips_recorded_documents() {
    let mut cp = IndexCheckpoint::new();
    assert!(cp.should_parse("/data/001_0000000001_title.md"));
    cp.record_batch(&vec!["001_0000000001".to_string(), "002_0000000002".to_string()], 0, 2, 0);
    assert!(!cp.should_parse("/data/001_0000000001_title.md"));
    assert!(cp.should_parse("/data/003_0000000003_title.md"));
    assert!(cp.should_parse("/data/notes.md"));
    assert_eq!((cp.last_processed_batch(), cp.total_success(), cp.total_failed()), (1, 2, 0));
    assert!(cp.is_complete());
    cp.record_batch(&vec!["002_0000000002".to_string()], 1, 0, 1);
    assert_eq!(cp.processed_doc_ids(), vec!["001_0000000001".to_string(), "002_0000000002".to_string()]);
    assert!(!cp.is_complete());
}

#[test]
fn checkpoint_restores_what_was_saved() {
    let cp = IndexCheckpoint::restore(4, 40, 2, vec!["b".to_string(), "a".to_string(), "b".to_string()]);
    assert_eq!(cp.processed_doc_ids(), vec!["a".to_string(), "b".to_string()]);
    let again = IndexCheckpoint::restore(cp.last_processed_batch(), cp.total_success(), cp.total_failed(), cp.processed_doc_ids());
    assert_eq!(again.processed_doc_ids(), cp.processed_doc_ids());
    assert!(again.is_processed("a") && !again.is_processed("c"));
}

#[test]
fn batches_names_and_texts() {
    assert_eq!(batch_count(10, 3), 4);
    assert_eq!(batch_count(9, 3), 3);
    assert_eq!(batch_count(0, 3), 0);
    assert_eq!(checkpoint_name("/data/raw"), "index_raw");
    assert_eq!(checkpoint_name("/"), "index_unknown");
    assert_eq!(embedding_text("T", "body"), "T body");
    let long = "x".repeat(3000);
    assert_eq!(embedding_text("T", &long).chars().count(), 2000);
}

#[test]
fn since_option_reads_dates_and_times() {
    assert_eq!(since_timestamp("1970-01-02").unwrap(), 86400);
    assert_eq!(since_timestamp("1970-01-01T01:00:00").unwrap(), 3600);
    assert_eq!(since_timestamp("2024-13-01").unwrap_err(), "Invalid --since format. Expected YYYY-MM-DD");
    assert_eq!(since_timestamp("2024-01-01T25:00:00").unwrap_err(), "Invalid --since format. Expected YYYY-MM-DDTHH:MM:SS");
    assert!(modified_since(Some(100), Some(100)));
    assert!(!modified_since(Some(99), Some(100)));
    assert!(modified_since(None, Some(100)));
    assert!(modified_since(Some(1), None));
}

#[test]
fn test_session_duration_now() {
    let state = InstanceState::new();
    assert!((0..5).contains(&state.session_duration_secs()));
    let old = InstanceState::new_at(i64::MIN);
    assert_eq!(old.session_duration_secs(), i64::MAX);
}
