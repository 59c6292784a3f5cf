use baram::crawler::url::validators;
use baram::crawler::url::UrlExtractor;

#[test]
fn test_extract_ids_new_format() {
    let extractor = UrlExtractor::new();
    let url = "https://n.news.naver.com/mnews/article/001/0014123456";
    let (oid, aid) = extractor.extract_ids(url).unwrap();
    assert_eq!(oid, "001");
    assert_eq!(aid, "0014123456");
}

#[test]
fn test_extract_ids_old_format() {
    let extractor = UrlExtractor::new();
    let url = "https://news.naver.com/main/read.naver?oid=001&aid=0014123456";
    let (oid, aid) = extractor.extract_ids(url).unwrap();
    assert_eq!(oid, "001");
    assert_eq!(aid, "0014123456");
}

#[test]
fn test_extract_ids_no_mnews_prefix() {
    let extractor = UrlExtractor::new();
    let url = "https://n.news.naver.com/article/001/0014123456";
    let (oid, aid) = extractor.extract_ids(url).unwrap();
    assert_eq!(oid, "001");
    assert_eq!(aid, "0014123456");
}

#[test]
fn test_extract_ids_invalid_url() {
    let extractor = UrlExtractor::new();
    let url = "https://google.com/search";
    let result = extractor.extract_ids(url);
    assert!(result.is_err());
}

#[test]
fn test_normalize_url() {
    let extractor = UrlExtractor::new();
    let mobile = "https://m.news.naver.com/article/001/0014123456";
    let normalized = extractor.normalize_url(mobile).unwrap();
    assert!(normalized.starts_with("https://n.news.naver.com"));
    assert!(normalized.contains("/mnews/article/001/0014123456"));
}

#[test]
fn test_normalize_url_old_format() {
    let extractor = UrlExtractor::new();
    let old = "https://news.naver.com/main/read.naver?oid=001&aid=0014123456";
    let normalized = extractor.normalize_url(old).unwrap();
    assert_eq!(
        normalized,
        "https://n.news.naver.com/mnews/article/001/0014123456"
    );
}

#[test]
fn test_normalize_url_invalid() {
    let extractor = UrlExtractor::new();
    let invalid = "https://google.com/search";
    let result = extractor.normalize_url(invalid);
    assert!(result.is_none());
}

#[test]
fn test_is_valid_article_url() {
    let extractor = UrlExtractor::new();
    assert!(
        extractor.is_valid_article_url("https://n.news.naver.com/mnews/article/001/0014123456")
    );
    assert!(!extractor.is_valid_article_url("https://google.com/search"));
}

#[test]
fn test_is_valid_article_url_various_domains() {
    let extractor = UrlExtractor::new();
    assert!(extractor
        .is_valid_article_url("https://news.naver.com/main/read.naver?oid=001&aid=0014123456"));
    assert!(extractor.is_valid_article_url("https://sports.naver.com/article/001/0014123456"));
}

#[test]
fn test_ssrf_prevention() {
    assert!(!validators::is_safe_url("http://127.0.0.1/admin"));
    assert!(!validators::is_safe_url("http://localhost/secret"));
    assert!(!validators::is_safe_url("http://192.168.1.1/"));
    assert!(!validators::is_safe_url("http://10.0.0.1/"));
    assert!(!validators::is_safe_url("file:///etc/passwd"));
    assert!(validators::is_safe_url(
        "https://n.news.naver.com/article/001/123"
    ));
}

#[test]
fn test_ssrf_prevention_link_local() {
    assert!(!validators::is_safe_url("http://169.254.1.1/"));
}

#[test]
fn test_ssrf_prevention_private_ranges() {
    assert!(!validators::is_safe_url("http://172.16.0.1/"));
    assert!(!validators::is_safe_url("http://172.31.255.255/"));
}

#[test]
fn test_allowed_domains() {
    assert!(validators::is_allowed_domain(
        "https://n.news.naver.com/article/001/123"
    ));
    assert!(validators::is_allowed_domain(
        "https://sports.naver.com/article/001/123"
    ));
    assert!(!validators::is_allowed_domain("https://evil.com/fake"));
}

#[test]
fn test_allowed_domains_mobile() {
    assert!(validators::is_allowed_domain(
        "https://m.news.naver.com/article/001/123"
    ));
}

#[test]
fn test_url_deduplication() {
    let extractor = UrlExtractor::new();
    let html = r#"
        <a href="https://n.news.naver.com/mnews/article/001/0014123456">Link 1</a>
        <a href="https://n.news.naver.com/mnews/article/001/0014123456">Link 2</a>
        <a href="https://n.news.naver.com/mnews/article/002/0014123457">Link 3</a>
    "#;
    let urls = extractor.extract_urls(html);
    assert_eq!(urls.len(), 2);
}

#[test]
fn test_extract_urls_mixed_formats() {
    let extractor = UrlExtractor::new();
    let html = r#"
        <a href="https://n.news.naver.com/mnews/article/001/0014123456">Modern</a>
        <a href="https://news.naver.com/main/read.naver?oid=002&aid=0014123457">Old</a>
        <a href="https://m.news.naver.com/article/003/0014123458">Mobile</a>
    "#;
    let urls = extractor.extract_urls(html);
    assert_eq!(urls.len(), 3);
}

#[test]
fn test_to_absolute() {
    let extractor = UrlExtractor::new();

    let absolute = "https://n.news.naver.com/article/001/123";
    assert_eq!(
        extractor.to_absolute(absolute, "https://n.news.naver.com"),
        absolute
    );

    let relative = "/mnews/article/001/0014123456";
    let result = extractor.to_absolute(relative, "https://n.news.naver.com");
    assert!(result.starts_with("https://n.news.naver.com"));
    assert!(result.contains("/mnews/article/001/0014123456"));
}

#[test]
fn test_validate_url() {
    assert!(validators::validate_url("https://n.news.naver.com/article/001/123").is_ok());
    assert!(validators::validate_url("http://localhost/admin").is_err());
    assert!(validators::validate_url("https://evil.com/fake").is_err());
}

#[test]
fn test_extract_urls_filters_invalid() {
    let extractor = UrlExtractor::new();
    let html = r#"
        <a href="https://n.news.naver.com/mnews/article/001/0014123456">Valid</a>
        <a href="https://google.com/search">Invalid domain</a>
        <a href="http://localhost/admin">Localhost</a>
    "#;
    let urls = extractor.extract_urls(html);
    assert_eq!(urls.len(), 1);
    assert!(urls[0].contains("001/0014123456"));
}

#[test]
fn validate_url_messages_name_the_reason() {
    assert_eq!(
        validators::validate_url("not a url"),
        Err("Invalid URL format: not a url".to_string())
    );
    assert_eq!(
        validators::validate_url("http://localhost/admin"),
        Err("Unsafe URL (SSRF risk): http://localhost/admin".to_string())
    );
    assert_eq!(
        validators::validate_url("https://evil.com/fake"),
        Err("Domain not allowed: https://evil.com/fake".to_string())
    );
}

#[test]
fn private_ip_octets_parse_like_u8() {
    assert!(validators::is_private_ip("10.1.2.3"));
    assert!(validators::is_private_ip("+10.0.0.1"));
    assert!(validators::is_private_ip("010.0.0.1"));
    assert!(!validators::is_private_ip("256.0.0.1"));
    assert!(!validators::is_private_ip("10.0.0"));
    assert!(!validators::is_private_ip("172.32.0.1"));
    assert!(validators::is_private_ip("172.16.999.1") == false);
    assert!(validators::is_private_ip("192.168.0.1"));
}

#[test]
fn extract_urls_sorts_and_skips_unquoted() {
    let extractor = UrlExtractor::new();
    let html = r#"<a href='https://n.news.naver.com/article/005/0000000002'>b</a>
        <a href="https://n.news.naver.com/article/001/0000000009">a</a>
        <a href=https://n.news.naver.com/article/002/0000000001>c</a>"#;
    let urls = extractor.extract_urls(html);
    assert_eq!(
        urls,
        vec![
            "https://n.news.naver.com/mnews/article/001/0000000009".to_string(),
            "https://n.news.naver.com/mnews/article/005/0000000002".to_string(),
        ]
    );
}

#[test]
fn extract_ids_prefers_path_form_and_takes_full_digit_run() {
    let extractor = UrlExtractor::new();
    let (oid, aid) = extractor
        .extract_ids("https://x.com/read?oid=999&aid=1111111111&u=/article/123/012345678901")
        .unwrap();
    assert_eq!(oid, "123");
    assert_eq!(aid, "012345678901");
    assert!(extractor.extract_ids("https://n.news.naver.com/article/01/0014123456").is_err());
    assert!(extractor.extract_ids("https://n.news.naver.com/article/001/001412345").is_err());
}

#[test]
fn normalize_url_twice_is_normalize_once() {
    let extractor = UrlExtractor::new();
    let once = extractor
        .normalize_url("https://news.naver.com/main/read.naver?oid=081&aid=0003412345")
        .unwrap();
    let twice = extractor.normalize_url(&once).unwrap();
    assert_eq!(once, twice);
}

#[test]
fn loopback_hosts_are_unsafe() {
    assert!(!validators::is_safe_url("http://[::1]/"));
    assert!(!validators::is_safe_url("http://[::1]:8080/admin"));
    assert!(!validators::is_safe_url("http://127.0.0.2/"));
    assert!(!validators::is_safe_url("http://127.255.255.254/"));
    assert!(!validators::is_safe_url("http://127.1/"));
    assert!(validators::is_safe_url("http://128.0.0.1/"));
    assert!(validators::is_loopback_ipv4("127.10.0.1"));
    assert!(!validators::is_loopback_ipv4("10.127.0.1"));
}
