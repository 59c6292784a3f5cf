use baram::analytics::entity_trends::EntityType;
use baram::cache::{hash_content, hash_query, parse_cache_info, CacheConfig, CacheInfo, CacheStats};
use baram::clustering::engine::{date_range, event_id, primary_category, select_clusters, ClusterArticle};
use baram::clustering::summary::{build_summary_prompt, extract_json, parse_summary_response};
use baram::embedding::tokenizer::{get_overlap_text, split_sentences, ChunkConfig, TextChunk};
use baram::embedding::vectorize::EmbeddingConfig;
use baram::embedding::{tally_bulk, truncate_string, BulkItem, BulkResult};
use baram::error::ErrorCategory;
use baram::i18n::{normalize_locale, LocaleSetting};
use baram::llm::{build_batch_prompt, build_said_prompt, extract_raw_json, json_block_ok, ArticleInfo, LlmBackend};

// ---------------------------------------------------------------- cache

#[test]
fn test_cache_config_default() {
    let config = CacheConfig::default();
    assert_eq!(config.embedding_ttl, 86400);
    assert_eq!(config.search_ttl, 300);
    assert_eq!(config.metadata_ttl, 3600);
}

#[test]
fn test_hash_content() {
    let hash1 = hash_content("test content");
    let hash2 = hash_content("test content");
    let hash3 = hash_content("different content");
    assert_eq!(hash1, hash2);
    assert_ne!(hash1, hash3);
    assert_eq!(hash1.len(), 64);
}

#[test]
fn hash_content_is_the_sha256_of_the_text() {
    assert_eq!(hash_content(""), "e3b0c44298fc1c149afbf4c8996fb92427ae41e4649b934ca495991b7852b855");
    assert_eq!(hash_content("abc"), "ba7816bf8f01cfea414140de5dae2223b00361a396177a9cb410ff61f20015ad");
}

#[test]
fn test_hash_query() {
    let hash1 = hash_query("test query", 10, None);
    let hash2 = hash_query("test query", 10, None);
    let hash3 = hash_query("test query", 10, Some("politics"));
    assert_eq!(hash1, hash2);
    assert_ne!(hash1, hash3);
    assert_ne!(hash1, hash_query("test query", 11, None));
    assert_eq!(hash1.len(), 64);
}

#[test]
fn cache_stats_default_is_zero() {
    let stats = CacheStats::default();
    assert_eq!((stats.hits, stats.misses, stats.bytes_read, stats.bytes_written), (0, 0, 0, 0));
}

// ---------------------------------------------------------------- clustering

#[test]
fn test_category_majority_vote() {
    let mut cats: Vec<String> = Vec::new();
    for _ in 0..3 {
        cats.push("politics".to_string());
    }
    cats.push("economy".to_string());
    for _ in 0..2 {
        cats.push("society".to_string());
    }
    assert_eq!(primary_category(&cats), "politics");
}

#[test]
fn primary_category_of_nothing_is_empty() {
    assert_eq!(primary_category(&Vec::new()), "");
    let cats = vec!["a".to_string(), "b".to_string(), "b".to_string()];
    assert_eq!(primary_category(&cats), "b");
}

#[test]
fn event_ids_are_padded_and_count_from_one() {
    assert_eq!(event_id("20260215", 0), "evt_20260215_001");
    assert_eq!(event_id("20260215", 41), "evt_20260215_042");
    assert_eq!(event_id("20260215", 999), "evt_20260215_1000");
}

#[test]
fn date_range_takes_earliest_and_latest_set_dates() {
    let dates = vec![Some("2026-02-15".to_string()), None, Some("2026-02-01".to_string()), Some("2026-02-20".to_string())];
    let (first, last) = date_range(&dates);
    assert_eq!(first.as_deref(), Some("2026-02-01"));
    assert_eq!(last.as_deref(), Some("2026-02-20"));
    assert_eq!(date_range(&vec![None]), (None, None));
}

#[test]
fn test_extract_json_raw() {
    let text = r#"{"title": "이벤트", "summary": "요약"}"#;
    assert_eq!(extract_json(text), text);
}

#[test]
fn test_extract_json_from_code_block() {
    let text = "Here is the result:\n```json\n{\"title\": \"테스트 이벤트\", \"summary\": \"테스트 요약입니다.\"}\n```\n";
    let json = extract_json(text);
    assert_eq!(json, "{\"title\": \"테스트 이벤트\", \"summary\": \"테스트 요약입니다.\"}");
}

#[test]
fn test_parse_summary_response() {
    let (title, summary) =
        parse_summary_response(r#"{"title": "탄핵 심판", "summary": "헌법재판소가 탄핵 심판을 진행 중이다."}"#);
    assert_eq!(title, "탄핵 심판");
    assert!(summary.contains("헌법재판소"));
}

#[test]
fn test_parse_summary_response_fallback() {
    let response = "  이것은 JSON이 아닌 텍스트입니다.  ";
    let (title, summary) = parse_summary_response(response);
    assert_eq!(title, "");
    assert_eq!(summary, "이것은 JSON이 아닌 텍스트입니다.");
}

#[test]
fn summary_prompt_lists_at_most_ten_articles() {
    let art = |i: usize| ClusterArticle {
        id: format!("{i}"),
        title: format!("T{i}"),
        category: "politics".to_string(),
        publisher: None,
        published_at: None,
        url: String::new(),
    };
    let few: Vec<ClusterArticle> = (0..2).map(art).collect();
    let p = build_summary_prompt(&few);
    assert!(p.contains("T0") && p.contains("T1"));
    let many: Vec<ClusterArticle> = (0..12).map(art).collect();
    let p = build_summary_prompt(&many);
    assert!(p.contains("T9"));
    assert!(!p.contains("T10"));
    assert!(p.contains("... 외 2개 기사"));
}

// ---------------------------------------------------------------- embedding

#[test]
fn test_truncate_string() {
    let s = "This is a test string that is quite long";
    let truncated = truncate_string(s, 20);
    assert!(truncated.len() <= 23);
    assert!(truncated.ends_with("..."));
}

#[test]
fn test_truncate_string_short() {
    assert_eq!(truncate_string("Short", 20), "Short");
}

#[test]
fn truncate_cuts_at_last_space() {
    assert_eq!(truncate_string("hello brave new world", 12), "hello brave...");
    assert_eq!(truncate_string("abcdefghij", 4), "abcd...");
    // the byte length decides whether to cut, the character count where
    assert_eq!(truncate_string("가나다라", 6), "가나다라...");
    assert_eq!(truncate_string("가나다라마바사", 6), "가나다라마바...");
}

#[test]
fn test_bulk_result_default() {
    let result = BulkResult::default();
    assert_eq!(result.success, 0);
    assert_eq!(result.failed, 0);
    assert!(result.errors.is_empty());
}

#[test]
fn test_chunk_config_default() {
    let config = ChunkConfig::default();
    assert_eq!(config.max_tokens, 512);
    assert_eq!(config.overlap_tokens, 64);
    assert_eq!(config.min_chunk_tokens, 32);
    assert!(config.preserve_sentences);
}

#[test]
fn test_split_sentences() {
    let sentences = split_sentences("Hello world. This is a test. How are you?");
    assert_eq!(sentences.len(), 3);
    assert!(sentences[0].contains("Hello"));
    assert!(sentences[1].contains("test"));
    assert!(sentences[2].contains("you"));
}

#[test]
fn test_split_sentences_korean() {
    let sentences = split_sentences("안녕하세요. 테스트입니다. 잘 되나요?");
    assert_eq!(sentences.len(), 3);
}

#[test]
fn split_sentences_keeps_decimals_and_trailing_text() {
    let sentences = split_sentences("Pi is 3.14 today. And more");
    assert_eq!(sentences, vec!["Pi is 3.14 today.".to_string(), " And more".to_string()]);
    assert!(split_sentences("   ").is_empty());
}

#[test]
fn test_get_overlap_text() {
    let overlap = get_overlap_text("one two three four five six seven eight nine ten", 2);
    assert!(!overlap.is_empty());
    assert!(overlap.contains("ten") || overlap.contains("nine"));
    assert_eq!(overlap, "nine ten");
}

#[test]
fn overlap_of_short_text_is_its_last_word() {
    assert_eq!(get_overlap_text("alpha beta", 5), "beta");
    assert_eq!(get_overlap_text("", 5), "");
}

#[test]
fn test_text_chunk_struct() {
    let chunk = TextChunk {
        text: "Hello world".to_string(),
        token_count: 2,
        chunk_index: 0,
        total_chunks: 1,
        start_pos: 0,
        end_pos: 11,
    };
    assert_eq!(chunk.chunk_index, 0);
    assert_eq!(chunk.total_chunks, 1);
}

#[test]
fn test_embedding_config_default() {
    let config = EmbeddingConfig::default();
    assert_eq!(config.embedding_dim, 384);
    assert_eq!(config.max_seq_length, 512);
    assert!(config.normalize);
}

// ---------------------------------------------------------------- error, i18n

#[test]
fn test_error_category_korean() {
    assert_eq!(ErrorCategory::Network.korean_desc(), "네트워크 오류");
    assert_eq!(ErrorCategory::Storage.korean_desc(), "저장소 오류");
    assert_eq!(ErrorCategory::Llm.message_key(), "errors.category.llm");
}

#[test]
fn test_normalize_locale() {
    assert_eq!(normalize_locale("ko"), "ko");
    assert_eq!(normalize_locale("ko-KR"), "ko");
    assert_eq!(normalize_locale("ko_KR"), "ko");
    assert_eq!(normalize_locale("korean"), "ko");
    assert_eq!(normalize_locale("en"), "en");
    assert_eq!(normalize_locale("en-US"), "en");
    assert_eq!(normalize_locale("english"), "en");
    assert_eq!(normalize_locale("zh"), "zh");
    assert_eq!(normalize_locale("zh-CN"), "zh");
    assert_eq!(normalize_locale("chinese"), "zh");
    assert_eq!(normalize_locale("unknown"), "en");
}

#[test]
fn normalize_locale_ignores_case_and_is_idempotent() {
    assert_eq!(normalize_locale("KO-kr"), "ko");
    assert_eq!(normalize_locale("Chinese"), "zh");
    for l in ["ko", "zh", "en", "xx", "ZH-tw"] {
        let once = normalize_locale(l);
        assert_eq!(normalize_locale(&once), once);
    }
}

#[test]
fn test_set_and_get_locale() {
    let mut setting = LocaleSetting::new();
    assert_eq!(setting.current_locale(), "en");
    setting.set_locale("ko");
    assert_eq!(setting.current_locale(), "ko");
    setting.set_locale("en-US");
    assert_eq!(setting.current_locale(), "en");
}

// ---------------------------------------------------------------- llm

#[test]
fn test_backend_from_str() {
    assert_eq!("ollama".parse::<LlmBackend>().unwrap(), LlmBackend::Ollama);
    assert_eq!("vllm".parse::<LlmBackend>().unwrap(), LlmBackend::Vllm);
    assert_eq!("openai".parse::<LlmBackend>().unwrap(), LlmBackend::Vllm);
    assert_eq!(LlmBackend::parse("OLLAMA"), LlmBackend::Ollama);
}

#[test]
fn test_config_default() {
    let backend = LlmBackend::default();
    assert_eq!(backend, LlmBackend::Vllm);
    assert_eq!(backend.default_endpoint_and_model(), ("http://localhost:8002", "qwen2.5"));
    assert_eq!(LlmBackend::Ollama.default_endpoint_and_model(), ("http://localhost:11434", "qwen2.5:7b"));
}

#[test]
fn llm_extract_json_from_code_block() {
    let text = "Here is the result:\n```json\n{\"relations\": [{\"speaker\": \"홍길동\"}]}\n```\n";
    assert!(json_block_ok(text));
    let json = extract_raw_json(text);
    assert_eq!(json, "{\"relations\": [{\"speaker\": \"홍길동\"}]}");
}

#[test]
fn raw_json_prefers_arrays_then_objects_then_text() {
    assert_eq!(extract_raw_json("result: [1, {\"a\": 2}] done"), "[1, {\"a\": 2}]");
    assert_eq!(extract_raw_json("x {\"a\": 1} y"), "{\"a\": 1}");
    assert_eq!(extract_raw_json("  nothing here  "), "nothing here");
    assert_eq!(extract_raw_json("```\n[1]\n```"), "[1]");
}

#[test]
fn json_block_refuses_a_fence_cut_inside_a_character() {
    assert!(!json_block_ok("```가"));
    assert!(json_block_ok("```a"));
}

#[test]
fn prompts_embed_the_article_text() {
    let p = build_said_prompt("기사 본문");
    assert!(p.contains("기사 본문"));
    let arts = vec![ArticleInfo { id: "001_1".to_string(), title: "제목".to_string(), content: "내용".to_string() }];
    let p = build_batch_prompt(&arts);
    assert!(p.contains("001_1") && p.contains("제목") && p.contains("내용"));
}

// ---------------------------------------------------------------- analytics

#[test]
fn entity_type_names_round_trip() {
    for t in [EntityType::Person, EntityType::Organization, EntityType::Location] {
        assert_eq!(EntityType::from_str(t.as_str()), t);
    }
    assert_eq!(EntityType::from_str("PERSON"), EntityType::Person);
}

#[test]
fn test_tally_bulk_counts_and_errors() {
    let items = vec![
        BulkItem { status: Some(201), error: None },
        BulkItem { status: Some(400), error: Some("{\"type\":\"mapper_parsing_exception\"}".to_string()) },
        BulkItem { status: None, error: None },
        BulkItem { status: Some(200), error: Some("ignored".to_string()) },
        BulkItem { status: Some(300), error: Some("redirect".to_string()) },
    ];
    let r = tally_bulk(items, 17);
    assert_eq!(r.success, 2);
    assert_eq!(r.failed, 3);
    assert_eq!(r.errors, vec!["{\"type\":\"mapper_parsing_exception\"}".to_string(), "redirect".to_string()]);
    assert_eq!(r.took_ms, 17);
}

#[test]
fn test_tally_bulk_empty() {
    let r = tally_bulk(Vec::new(), 0);
    assert_eq!((r.success, r.failed, r.errors.len()), (0, 0, 0));
}

#[test]
fn test_cache_keys() {
    let config = CacheConfig::default();
    assert_eq!(config.embedding_key("abc"), "baram:embed:abc");
    assert_eq!(config.search_key("q1"), "baram:search:q1");
    assert_eq!(config.metadata_key("001_0000001"), "baram:meta:001_0000001");
    assert_eq!(config.search_pattern(), "baram:search:*");
}

#[test]
fn test_parse_cache_info() {
    let info = "# Stats\r\ntotal_connections_received:12\r\nkeyspace_hits: 40 \r\nkeyspace_misses:10\r\nused_memory_rss:999\r\nused_memory:+2048\r\n";
    assert_eq!(parse_cache_info(info), CacheInfo { hits: 40, misses: 10, memory_bytes: 2048 });
    let odd = "keyspace_hits:abc\nkeyspace_misses:18446744073709551616\nkeyspace_hits:7";
    assert_eq!(parse_cache_info(odd), CacheInfo { hits: 7, misses: 0, memory_bytes: 0 });
    assert_eq!(parse_cache_info(""), CacheInfo { hits: 0, misses: 0, memory_bytes: 0 });
}

#[test]
fn select_clusters_filters_and_orders_by_size() {
    let sizes = vec![3, 1, 5, 3, 2, 5];
    let selection = select_clusters(&sizes, 2, 19);
    assert_eq!(selection.order, vec![(2, 5), (5, 5), (0, 3), (3, 3), (4, 2)]);
    assert_eq!(selection.clustered, 18);
    assert_eq!(selection.unclustered, 1);
    let none = select_clusters(&vec![1, 1], 3, 2);
    assert!(none.order.is_empty());
    assert_eq!(none.clustered, 0);
    assert_eq!(none.unclustered, 2);
    let empty = select_clusters(&vec![], 1, 0);
    assert!(empty.order.is_empty());
    assert_eq!(empty.unclustered, 0);
}
