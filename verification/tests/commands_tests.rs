use baram::commands::frontmatter::{scan_markdown, BodyRule};
use baram::commands::index::{doc_id_from_stem, extract_doc_id_from_filename, parse_markdown_to_document};
use baram::commands::ontology::parse_markdown_to_article;
use baram::commands::search::{command_search_kind, is_valid_search_mode, search_kind, SearchKind};
use baram::commands::serve::{
    coordinator_config, default_k, default_search_mode, plan_api_search, search_answer, search_failed, CoordinatorParams,
    SearchPlan,
};

const ARTICLE: &str = "---
oid: \"001\"
aid: 0015812889
category: politics
publisher: 연합뉴스
published_at: 2026-02-15 10:30
url: https://n.news.naver.com/mnews/article/001/0015812889
---
# 강남구 청렴도 평가

첫 문단입니다.
## 소제목
둘째 문단입니다.
";

#[test]
fn test_extract_doc_id_standard_filename() {
    assert_eq!(
        extract_doc_id_from_filename("001_0015812889_강남구_국민권익위_청렴도_평가서.md"),
        Some("001_0015812889".to_string())
    );
}

#[test]
fn test_extract_doc_id_no_title() {
    assert_eq!(extract_doc_id_from_filename("422_0000832799.md"), Some("422_0000832799".to_string()));
}

#[test]
fn test_extract_doc_id_invalid_format() {
    assert_eq!(extract_doc_id_from_filename("unknown.md"), None);
}

#[test]
fn test_extract_doc_id_non_numeric_oid() {
    assert_eq!(extract_doc_id_from_filename("abc_0015812889_title.md"), None);
}

#[test]
fn test_extract_doc_id_three_digit_oid() {
    assert_eq!(
        extract_doc_id_from_filename("661_0000071158_강득구_지방선거_이후_합당이.md"),
        Some("661_0000071158".to_string())
    );
}

#[test]
fn doc_id_reads_the_stem_of_a_path() {
    assert_eq!(extract_doc_id_from_filename("/data/raw/001_002_x.md"), Some("001_002".to_string()));
    // an empty part counts as all digits
    assert_eq!(doc_id_from_stem("001_"), Some("001_".to_string()));
    assert_eq!(doc_id_from_stem("_001"), Some("_001".to_string()));
    assert_eq!(doc_id_from_stem("001"), None);
}

#[test]
fn document_from_markdown() {
    let doc = parse_markdown_to_document("/x/999_1_title.md", ARTICLE);
    assert_eq!(doc.title, "강남구 청렴도 평가");
    assert_eq!(doc.oid, "001");
    assert_eq!(doc.aid, "0015812889");
    assert_eq!(doc.id, "001_0015812889");
    assert_eq!(doc.category, "politics");
    assert_eq!(doc.publisher.as_deref(), Some("연합뉴스"));
    assert_eq!(doc.author, None);
    assert_eq!(doc.url, "https://n.news.naver.com/mnews/article/001/0015812889");
    assert_eq!(doc.published_at.as_deref(), Some("2026-02-15T10:30:00Z"));
    assert_eq!(doc.content, "# 강남구 청렴도 평가\n첫 문단입니다.\n## 소제목\n둘째 문단입니다.");
}

#[test]
fn document_ids_fall_back_to_the_file_name() {
    let doc = parse_markdown_to_document("/x/123_456_title.md", "no front matter\n");
    assert_eq!(doc.title, "Untitled");
    assert_eq!(doc.oid, "123");
    assert_eq!(doc.aid, "456_title");
    let doc = parse_markdown_to_document("/x/single.md", "");
    assert_eq!(doc.id, "000_single");
}

#[test]
fn article_from_markdown() {
    let article = parse_markdown_to_article(ARTICLE);
    assert_eq!(article.title, "강남구 청렴도 평가");
    assert_eq!(article.oid, "001");
    assert_eq!(article.category, "politics");
    assert_eq!(article.content, "\n첫 문단입니다.\n둘째 문단입니다.");
    assert_eq!(parse_markdown_to_article("").title, "Untitled");
}

#[test]
fn front_matter_scan_reads_fields() {
    let fm = scan_markdown(ARTICLE, BodyRule::NonEmpty);
    assert_eq!(fm.oid.as_deref(), Some("001"));
    assert_eq!(fm.published_at.as_deref(), Some("2026-02-15 10:30"));
    assert_eq!(fm.author, None);
}

#[test]
fn test_search_mode_validation() {
    let valid_modes = ["keyword", "bm25", "vector", "knn", "hybrid"];
    for mode in &valid_modes {
        assert!(is_valid_search_mode(mode), "Mode {mode} should be valid");
    }
    assert!(!is_valid_search_mode("fuzzy"));
}

#[test]
fn search_kinds_of_modes() {
    assert_eq!(search_kind("bm25"), Some(SearchKind::Bm25));
    assert_eq!(search_kind("knn"), Some(SearchKind::Knn));
    assert_eq!(search_kind("hybrid"), Some(SearchKind::Hybrid));
    assert_eq!(
        command_search_kind("x"),
        Err("Unknown search mode: 'x'. Valid modes: keyword, bm25, vector, knn, hybrid".to_string())
    );
}

#[test]
fn test_default_search_mode() {
    assert_eq!(default_search_mode(), "hybrid");
}

#[test]
fn test_default_k() {
    assert_eq!(default_k(), 10);
}

#[test]
fn test_valid_search_modes() {
    for mode in ["keyword", "bm25", "vector", "knn", "hybrid"] {
        assert!(search_kind(mode).is_some(), "Mode '{mode}' should be valid");
    }
}

#[test]
fn api_search_plans_and_refusals() {
    assert_eq!(plan_api_search("q", "keyword", 5).unwrap(), SearchPlan { kind: SearchKind::Bm25, k: 5 });
    assert_eq!(plan_api_search("q", "hybrid", 500).unwrap().k, 100);
    let e = plan_api_search("   ", "hybrid", 5).unwrap_err();
    assert_eq!((e.code, e.error.as_str()), (400, "Query parameter 'q' cannot be empty"));
    let e = plan_api_search("q", "fuzzy", 5).unwrap_err();
    assert_eq!(e.error, "Unknown search mode: 'fuzzy'. Valid: hybrid, keyword, bm25, vector, knn");
    let e = search_failed("boom");
    assert_eq!((e.code, e.error.as_str()), (500, "Search failed: boom"));
}

#[test]
fn coordinator_config_from_parameters() {
    let params = |timeout: u64| CoordinatorParams {
        host: "127.0.0.1".to_string(),
        port: 9000,
        heartbeat_timeout: timeout,
        heartbeat_interval: 30,
        max_instances: 3,
        schedule_cache: None,
        enable_cors: false,
        enable_logging: true,
    };
    let c = coordinator_config(params(90)).unwrap();
    assert_eq!(c.bind_address, "127.0.0.1:9000");
    assert_eq!(c.max_instances, 3);
    assert!(!c.enable_cors);
    assert!(coordinator_config(params(30)).is_err());
}

#[test]
fn search_answer_repeats_query_and_counts_results() {
    let r = search_answer("반도체".to_string(), "keyword".to_string(), vec![0.9f32, 0.5, 0.1]);
    assert_eq!(r.query, "반도체");
    assert_eq!(r.mode, "keyword");
    assert_eq!(r.total, 3);
    assert_eq!(r.results, vec![0.9f32, 0.5, 0.1]);
    let empty = search_answer::<f32>("q".to_string(), "hybrid".to_string(), Vec::new());
    assert_eq!(empty.total, 0);
}
