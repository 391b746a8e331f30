use alayasiki::dsl::{
    has_empty_values, QueryMode, QueryRequest, QueryValidationError, SearchMode, TimeRange,
    DEFAULT_DEPTH, DEFAULT_TOP_K, MAX_DEPTH, MAX_TOP_K,
};
use alayasiki::engine::{
    build_citations, build_query_audit_event, collect_relation_filter, dedup_edges,
    dedup_exclusions, dedup_paths, effective_query_model_id, ExpansionPath, InternalEdge,
    generate_answer, node_filter_exclusion_reason, node_is_retention_expired, node_passes_filters,
    parse_time_range, provenance_of, rank_and_prune, relation_is_allowed, select_anchors,
    EvidenceNode, ExclusionReason, Provenance, QueryError, RankedNode,
};
use alayasiki::error::ErrorCode;
use alayasiki::extract::{detect_content_kind, extract_utf8, file_extension, media_type, ContentKind};
use alayasiki::hashing::{concat_bytes, digest_id, to_hex};
use alayasiki::metrics::{percentile, QueryMetrics};
use alayasiki::model::Node;
use alayasiki::planner::{infer_auto_mode, QueryPlanner};
use alayasiki::semantic_cache::{normalize_query, query_similarity, sorted_unique, SemanticCacheKey};
use alayasiki::sorted_map::{Metadata, SortedSet};
use alayasiki::sorting::{sort_by_key, sort_ids};
use alayasiki::text::{
    contains_str, is_blank_str, join_strs, parse_u64, split_whitespace, str_less, trim_str,
    u64_to_decimal, u64_to_padded_decimal,
};
use alayasiki::tokens::{char_ngrams, lexical_overlap, tokenize, tokenize_simple};

fn strings(items: &[&str]) -> Vec<String> {
    items.iter().map(|s| s.to_string()).collect()
}

fn set_of(items: &[&str]) -> SortedSet<String> {
    let mut s = SortedSet::new();
    for i in items {
        s.insert(i.to_string());
    }
    s
}

fn node_with(id: u64, data: &str, meta: &[(&str, &str)]) -> Node {
    let mut n = Node::new(id, Vec::new(), data.to_string());
    for (k, v) in meta {
        n.metadata.insert(k.to_string(), v.to_string());
    }
    n
}

#[test]
fn decimals_are_written_and_read() {
    assert_eq!(u64_to_decimal(0), "0");
    assert_eq!(u64_to_decimal(10_203), "10203");
    assert_eq!(u64_to_decimal(u64::MAX), "18446744073709551615");
    assert_eq!(u64_to_padded_decimal(42, 5), "00042");
    assert_eq!(u64_to_padded_decimal(123456, 3), "123456");
    assert_eq!(parse_u64("0"), Some(0));
    assert_eq!(parse_u64("007"), Some(7));
    assert_eq!(parse_u64("+15"), Some(15));
    assert_eq!(parse_u64("18446744073709551615"), Some(u64::MAX));
    assert_eq!(parse_u64("18446744073709551616"), None);
    assert_eq!(parse_u64(""), None);
    assert_eq!(parse_u64("+"), None);
    assert_eq!(parse_u64("-1"), None);
    assert_eq!(parse_u64("1 "), None);
    assert_eq!(parse_u64("１２"), None);
}

#[test]
fn strings_are_trimmed_split_joined_and_searched() {
    assert_eq!(trim_str("  a b \t\n"), "a b");
    assert_eq!(trim_str(" \u{3000} "), "");
    assert_eq!(split_whitespace("  one\ttwo \n three "), strings(&["one", "two", "three"]));
    assert!(split_whitespace("   ").is_empty());
    assert_eq!(join_strs(&strings(&["a", "b", "c"]), ", "), "a, b, c");
    assert_eq!(join_strs(&Vec::new(), ", "), "");
    assert!(contains_str("hello world", "lo w"));
    assert!(contains_str("abc", ""));
    assert!(!contains_str("abc", "abcd"));
    assert!(!contains_str("abc", "ac"));
    assert!(str_less("a", "b"));
    assert!(str_less("a", "ab"));
    assert!(!str_less("b", "ab"));
    assert!(!str_less("a", "a"));
    assert!(str_less("Z", "a"));
}

#[test]
fn sorting_is_stable() {
    let items = vec![(3u64, "c"), (1, "a1"), (2, "b"), (1, "a2"), (3, "c2")];
    let sorted = sort_by_key(items);
    assert_eq!(sorted, vec![(1, "a1"), (1, "a2"), (2, "b"), (3, "c"), (3, "c2")]);
    assert_eq!(sort_ids(&vec![5, 1, 5, 3]), vec![1, 3, 5, 5]);
    let empty: Vec<(u64, u8)> = Vec::new();
    assert!(sort_by_key(empty).is_empty());
}

#[test]
fn tokens_are_lower_case_words_and_bigrams_of_other_scripts() {
    let t = tokenize("Hello, hello_World! EV-2024");
    assert_eq!(t.to_vec(), strings(&["2024", "ev", "hello", "hello_world"]));
    let j = tokenize("東京都 EV");
    assert!(j.contains(&"東京都".to_string()));
    assert!(j.contains(&"東京".to_string()));
    assert!(j.contains(&"京都".to_string()));
    assert!(j.contains(&"ev".to_string()));
    assert_eq!(j.len(), 4);
    assert!(tokenize("  ...  ").is_empty());
    let s = tokenize_simple("Mixed Case");
    assert_eq!(s.to_vec(), strings(&["Case", "Mixed"]));
}

#[test]
fn ngrams_are_the_windows_of_a_word() {
    assert_eq!(char_ngrams("abcd", 2), strings(&["ab", "bc", "cd"]));
    assert_eq!(char_ngrams("ab", 2), strings(&["ab"]));
    assert_eq!(char_ngrams("a", 2), strings(&["a"]));
    assert!(char_ngrams("", 2).is_empty());
    assert!(char_ngrams("abc", 0).is_empty());
}

#[test]
fn overlap_is_shared_over_union() {
    let a = set_of(&["ev", "production", "toyota"]);
    let b = set_of(&["ev", "production"]);
    let o = lexical_overlap(&a, &b);
    assert_eq!((o.shared, o.total), (2, 3));
    let none = lexical_overlap(&a, &SortedSet::new());
    assert_eq!((none.shared, none.total), (0, 1));
    let apart = lexical_overlap(&set_of(&["a", "b"]), &set_of(&["b", "c", "d"]));
    assert_eq!((apart.shared, apart.total), (1, 4));
}

#[test]
fn request_defaults_and_validation() {
    let request = QueryRequest::new("トヨタのEV戦略");
    assert_eq!(request.top_k, 20);
    assert_eq!(request.mode, QueryMode::Answer);
    assert_eq!(request.search_mode, SearchMode::Auto);
    assert_eq!(request.traversal.depth, 1);
    assert_eq!((DEFAULT_TOP_K, DEFAULT_DEPTH, MAX_TOP_K, MAX_DEPTH), (20, 1, 1000, 8));
    assert!(request.validate().is_ok());

    let mut invalid = QueryRequest::new("x");
    invalid.top_k = 0;
    assert_eq!(invalid.validate(), Err(QueryValidationError::InvalidTopK(1000)));
    assert_eq!(
        invalid.validate().unwrap_err().message(),
        "top_k must be between 1 and 1000"
    );
}

#[test]
fn validation_reports_the_first_broken_rule() {
    let base = || QueryRequest::new("q");
    let check = |edit: &dyn Fn(&mut QueryRequest), want: QueryValidationError| {
        let mut r = base();
        edit(&mut r);
        assert_eq!(r.validate(), Err(want));
    };
    check(&|r| r.query = "  \t".to_string(), QueryValidationError::EmptyQuery);
    check(&|r| r.top_k = 1001, QueryValidationError::InvalidTopK(1000));
    check(&|r| r.traversal.depth = 0, QueryValidationError::InvalidDepth(8));
    check(&|r| r.traversal.depth = 9, QueryValidationError::InvalidDepth(8));
    check(
        &|r| r.filters.entity_type = strings(&["Company", " "]),
        QueryValidationError::InvalidEntityTypeFilter,
    );
    check(
        &|r| r.filters.relation_type = strings(&[""]),
        QueryValidationError::InvalidRelationTypeFilter,
    );
    check(
        &|r| r.traversal.relation_types = strings(&["a", ""]),
        QueryValidationError::InvalidTraversalRelationTypes,
    );
    check(&|r| r.model_id = Some(" ".to_string()), QueryValidationError::InvalidModelId);
    check(&|r| r.snapshot_id = Some("".to_string()), QueryValidationError::InvalidSnapshotId);
    check(&|r| r.time_travel = Some("yesterday".to_string()), QueryValidationError::InvalidTimeTravel);
    check(
        &|r| {
            r.filters.time_range = Some(TimeRange { from: "2024-13-01".to_string(), to: "2024-12-31".to_string() })
        },
        QueryValidationError::InvalidTimeRangeFormat,
    );
    check(
        &|r| {
            r.filters.time_range = Some(TimeRange { from: "2024-02-30".to_string(), to: "2024-12-31".to_string() })
        },
        QueryValidationError::InvalidTimeRangeFormat,
    );
    check(
        &|r| {
            r.filters.time_range = Some(TimeRange { from: "2024-12-31".to_string(), to: "2024-01-01".to_string() })
        },
        QueryValidationError::InvalidTimeRangeOrder,
    );
    check(
        &|r| {
            r.top_k = 0;
            r.query = "".to_string();
        },
        QueryValidationError::EmptyQuery,
    );
    let mut ok = base();
    ok.top_k = 1000;
    ok.traversal.depth = 8;
    ok.filters.time_range = Some(TimeRange { from: "2024-02-29".to_string(), to: "2024-02-29".to_string() });
    ok.time_travel = Some("2024-06-01T10:00:00+09:00".to_string());
    assert_eq!(ok.validate(), Ok(()));
    assert!(has_empty_values(&strings(&["a", "\t"])));
    assert!(!has_empty_values(&strings(&["a"])));
    assert!(!has_empty_values(&Vec::new()));
}

#[test]
fn time_range_is_read_as_day_numbers() {
    let mut r = QueryRequest::new("q");
    assert_eq!(parse_time_range(&r), Ok(None));
    r.filters.time_range = Some(TimeRange { from: "2024-01-01".to_string(), to: "2024-12-31".to_string() });
    let (from, to) = parse_time_range(&r).unwrap().unwrap();
    assert_eq!(to - from, 365);
    r.filters.time_range = Some(TimeRange { from: "1970-01-01".to_string(), to: "1970-01-02".to_string() });
    let (a, b) = parse_time_range(&r).unwrap().unwrap();
    assert_eq!(b - a, 1);
    r.filters.time_range = Some(TimeRange { from: "2024/01/01".to_string(), to: "2024-12-31".to_string() });
    assert_eq!(
        parse_time_range(&r),
        Err(QueryError::InvalidQuery(
            "filters.time_range.from/to must be YYYY-MM-DD".to_string()
        ))
    );
}

#[test]
fn planner_picks_mode_depth_and_breadth() {
    let plan_for = |mode: SearchMode, depth: u8, top_k: usize| {
        let mut r = QueryRequest::new("plain question");
        r.search_mode = mode;
        r.traversal.depth = depth;
        r.top_k = top_k;
        let p = QueryPlanner::plan(&r);
        (p.effective_search_mode, p.expansion_depth, p.vector_top_k)
    };
    assert_eq!(plan_for(SearchMode::Local, 1, 3), (SearchMode::Local, 1, 3));
    assert_eq!(plan_for(SearchMode::Auto, 4, 20), (SearchMode::Local, 4, 20));
    assert_eq!(plan_for(SearchMode::Global, 1, 3), (SearchMode::Global, 2, 10));
    assert_eq!(plan_for(SearchMode::Global, 5, 30), (SearchMode::Global, 5, 30));
    assert_eq!(plan_for(SearchMode::Drift, 1, 3), (SearchMode::Drift, 3, 5));
    assert_eq!(plan_for(SearchMode::Drift, 8, 9), (SearchMode::Drift, 8, 9));
    assert_eq!(plan_for(SearchMode::Drift, 7, 9), (SearchMode::Drift, 8, 9));
    assert_eq!(infer_auto_mode("Give me an OVERALL view"), SearchMode::Global);
    assert_eq!(infer_auto_mode("全体の動向"), SearchMode::Global);
    assert_eq!(infer_auto_mode("Toyota battery"), SearchMode::Local);
}

#[test]
fn filters_exclude_with_a_reason() {
    let company = node_with(1, "d", &[("entity_type", "Company"), ("timestamp", "2024-02-10")]);
    let undated = node_with(2, "d", &[("entity_type", "Company")]);
    let expired = node_with(3, "d", &[("retention_until_unix", "100")]);
    let odd = node_with(4, "d", &[("retention_until_unix", "soon"), ("timestamp", "2024-02-10T08:00:00Z")]);
    let kinds = set_of(&["Company"]);
    let none = SortedSet::new();
    let mut r = QueryRequest::new("q");
    r.filters.time_range = Some(TimeRange { from: "2024-01-01".to_string(), to: "2024-12-31".to_string() });
    let range = parse_time_range(&r).unwrap();

    assert_eq!(node_filter_exclusion_reason(&company, &kinds, range, 50), None);
    assert!(node_passes_filters(&company, &kinds, range, 50));
    assert_eq!(
        node_filter_exclusion_reason(&company, &set_of(&["Policy"]), range, 50),
        Some("entity_type_filtered".to_string())
    );
    assert_eq!(
        node_filter_exclusion_reason(&undated, &kinds, range, 50),
        Some("time_range_filtered".to_string())
    );
    assert_eq!(node_filter_exclusion_reason(&undated, &kinds, None, 50), None);
    assert_eq!(
        node_filter_exclusion_reason(&expired, &none, None, 101),
        Some("retention_expired".to_string())
    );
    assert_eq!(
        node_filter_exclusion_reason(&expired, &none, None, 100),
        Some("retention_expired".to_string())
    );
    assert_eq!(node_filter_exclusion_reason(&expired, &none, None, 99), None);
    assert!(node_is_retention_expired(&expired, 100));
    assert!(!node_is_retention_expired(&expired, 99));
    assert!(!node_is_retention_expired(&odd, u64::MAX));
    assert_eq!(
        node_filter_exclusion_reason(&odd, &none, range, 0),
        Some("time_range_filtered".to_string())
    );
    assert_eq!(node_filter_exclusion_reason(&odd, &none, None, 0), None);
    assert_eq!(
        node_filter_exclusion_reason(&expired, &kinds, range, 101),
        Some("retention_expired".to_string())
    );
}

#[test]
fn relation_filter_unites_filters_and_traversal() {
    let mut r = QueryRequest::new("q");
    assert!(collect_relation_filter(&r).is_empty());
    assert!(relation_is_allowed("anything", &collect_relation_filter(&r)));
    r.filters.relation_type = strings(&["b", "a"]);
    r.traversal.relation_types = strings(&["c", "a"]);
    let filter = collect_relation_filter(&r);
    assert_eq!(filter.to_vec(), strings(&["a", "b", "c"]));
    assert!(relation_is_allowed("c", &filter));
    assert!(!relation_is_allowed("d", &filter));
}

#[test]
fn anchors_are_the_first_hits() {
    let hits = vec![(5u64, 0.9f32.to_bits()), (2, 0.5f32.to_bits()), (7, 0.1f32.to_bits())];
    let two: Vec<u64> = select_anchors(&hits, None, 2).iter().map(|a| a.node_id).collect();
    assert_eq!(two, vec![5, 2]);
    let at_least_one: Vec<u64> = select_anchors(&hits, None, 0).iter().map(|a| a.node_id).collect();
    assert_eq!(at_least_one, vec![5]);
    let fallback = select_anchors(&Vec::new(), Some(3), 4);
    assert_eq!(fallback.len(), 1);
    assert_eq!((fallback[0].node_id, fallback[0].score), (3, 0));
    assert!(select_anchors(&Vec::new(), None, 4).is_empty());
}

fn ranked(id: u64, score: f32) -> RankedNode {
    RankedNode {
        id,
        data: format!("node {}", id),
        score: score.to_bits(),
        hop: 0,
        source: None,
        extraction_model_id: None,
        node_snapshot_id: None,
        ingested_at: None,
        confidence: score.to_bits(),
    }
}

#[test]
fn ranking_orders_by_score_then_id_and_prunes_the_rest() {
    let scored = vec![ranked(4, 0.5), ranked(1, 0.2), ranked(3, 0.9), ranked(2, 0.5), ranked(9, 0.1)];
    let (kept, pruned) = rank_and_prune(scored, 3);
    let ids: Vec<u64> = kept.iter().map(|n| n.id).collect();
    assert_eq!(ids, vec![3, 2, 4]);
    let out: Vec<(Option<u64>, &str)> = pruned.iter().map(|e| (e.node_id, e.reason.as_str())).collect();
    assert_eq!(out, vec![(Some(1), "pruned_by_top_k"), (Some(9), "pruned_by_top_k")]);
    let (all, none) = rank_and_prune(vec![ranked(1, 0.1)], 5);
    assert_eq!(all.len(), 1);
    assert!(none.is_empty());
}

#[test]
fn exclusions_are_sorted_and_deduplicated() {
    let x = |id: Option<u64>, reason: &str| ExclusionReason { node_id: id, reason: reason.to_string() };
    let out = dedup_exclusions(vec![
        x(Some(2), "b"),
        x(None, "z"),
        x(Some(1), "c"),
        x(Some(2), "a"),
        x(Some(2), "b"),
        x(None, "z"),
    ]);
    assert_eq!(out, vec![x(None, "z"), x(Some(1), "c"), x(Some(2), "a"), x(Some(2), "b")]);
}

#[test]
fn answer_names_the_best_three() {
    let node = |id: u64, data: &str| EvidenceNode {
        id,
        data: data.to_string(),
        score: 0,
        hop: 0,
        provenance: Provenance { source: None, extraction_model_id: None, snapshot_id: None, ingested_at: None },
        confidence: 0,
    };
    assert_eq!(generate_answer("why?", &Vec::new()), "No evidence found for query: why?");
    let nodes = vec![node(1, "a"), node(2, "b"), node(3, "c"), node(4, "d")];
    assert_eq!(
        generate_answer("why?", &nodes),
        "Answer synthesized from 4 evidence nodes: a | b | c"
    );
    assert_eq!(
        generate_answer("why?", &vec![node(1, "only")]),
        "Answer synthesized from 1 evidence nodes: only"
    );
}

#[test]
fn provenance_reads_the_four_keys() {
    let mut m = Metadata::new();
    m.insert("source".to_string(), "s".to_string());
    m.insert("ingested_at".to_string(), "t".to_string());
    m.insert("other".to_string(), "o".to_string());
    let p = provenance_of(&m);
    assert_eq!(p.source.as_deref(), Some("s"));
    assert_eq!(p.ingested_at.as_deref(), Some("t"));
    assert_eq!(p.extraction_model_id, None);
    assert_eq!(p.snapshot_id, None);
}

#[test]
fn query_audit_event_carries_model_and_snapshot() {
    let e = build_query_audit_event(
        alayasiki::audit::AuditOutcome::Failed,
        "m1",
        Some("alice".to_string()),
        Some("acme".to_string()),
        Some("wal-lsn-3".to_string()),
        Some("boom".to_string()),
    );
    assert_eq!(e.operation, alayasiki::audit::AuditOperation::Query);
    assert_eq!(e.model_id.as_deref(), Some("m1"));
    assert_eq!(e.snapshot_id.as_deref(), Some("wal-lsn-3"));
    assert_eq!(e.metadata.get(&"error".to_string()).unwrap(), "boom");
    let mut r = QueryRequest::new("q");
    assert_eq!(effective_query_model_id(&r), "embedding-default-v1");
    r.model_id = Some("custom".to_string());
    assert_eq!(effective_query_model_id(&r), "custom");
    assert_eq!(
        QueryError::InvalidQuery("x".to_string()).message(),
        "invalid query: x"
    );
}

#[test]
fn content_kinds_follow_media_type_then_extension() {
    assert_eq!(detect_content_kind("text/plain", None), ContentKind::Text);
    assert_eq!(detect_content_kind("TEXT/Markdown; charset=utf-8", None), ContentKind::Markdown);
    assert_eq!(detect_content_kind("application/json", Some("x.pdf")), ContentKind::Json);
    assert_eq!(detect_content_kind("application/pdf", None), ContentKind::Pdf);
    assert_eq!(detect_content_kind("application/octet-stream", Some("a.MD")), ContentKind::Markdown);
    assert_eq!(detect_content_kind("", Some("notes.txt")), ContentKind::Text);
    assert_eq!(detect_content_kind("", Some("data.json")), ContentKind::Json);
    assert_eq!(detect_content_kind("", Some("doc.PDF")), ContentKind::Pdf);
    assert_eq!(detect_content_kind("", Some("noext")), ContentKind::Unsupported);
    assert_eq!(detect_content_kind("image/png", None), ContentKind::Unsupported);
    assert_eq!(media_type(" Text/Plain ; charset=utf-8"), "text/plain");
    assert_eq!(file_extension("a.tar.gz"), Some("gz".to_string()));
    assert_eq!(file_extension("noext"), None);
    assert_eq!(extract_utf8("héllo".as_bytes()), Ok("héllo".to_string()));
    assert!(extract_utf8(&[0xc3, 0x28]).is_err());
}

#[test]
fn hex_and_ids_of_digests() {
    assert_eq!(to_hex(&[0x00, 0x0f, 0xa5, 0xff]), "000fa5ff");
    assert_eq!(to_hex(&[]), "");
    assert_eq!(concat_bytes(&[1, 2], &[3]), vec![1, 2, 3]);
    let digest: Vec<u8> = (1..=32u8).collect();
    assert_eq!(digest_id(&digest), 0x0807_0605_0403_0201);
    assert_eq!(ErrorCode::InvalidArgument.to_string(), "INVALID_ARGUMENT");
    assert_eq!(ErrorCode::ResourceExhausted.as_str(), "RESOURCE_EXHAUSTED");
}

#[test]
fn percentiles_are_nearest_rank() {
    let sorted: Vec<u64> = (1..=100).collect();
    assert_eq!(percentile(&sorted, 50), 50);
    assert_eq!(percentile(&sorted, 95), 95);
    assert_eq!(percentile(&sorted, 99), 99);
    assert_eq!(percentile(&sorted, 100), 100);
    assert_eq!(percentile(&sorted, 0), 1);
    assert_eq!(percentile(&vec![10, 20, 30], 50), 20);
    assert_eq!(percentile(&vec![10, 20, 30], 67), 30);
    assert_eq!(percentile(&Vec::new(), 95), 0);
}

#[test]
fn query_metrics_keep_a_bounded_history() {
    let mut m = QueryMetrics::default();
    for (i, hit) in [(10u64, false), (20, true), (30, false), (40, true)] {
        m.record_query(i, hit, 3);
    }
    assert_eq!(m.total_queries, 4);
    assert_eq!(m.cache_hits, 2);
    assert_eq!(m.latencies, vec![20, 30, 40]);
}

#[test]
fn cache_keys_ignore_order_and_repeats_of_filters() {
    let mut a = QueryRequest::new("q");
    a.filters.entity_type = strings(&["b", "a", "b"]);
    a.traversal.relation_types = strings(&["y", "x"]);
    a.filters.time_range = Some(TimeRange { from: "2024-01-01".to_string(), to: "2024-02-01".to_string() });
    let mut b = QueryRequest::new("another question");
    b.filters.entity_type = strings(&["a", "b"]);
    b.traversal.relation_types = strings(&["x", "y", "x"]);
    b.filters.time_range = Some(TimeRange { from: "2024-01-01".to_string(), to: "2024-02-01".to_string() });
    let ka = SemanticCacheKey::from_request(&a, "m", "wal-lsn-1", SearchMode::Local);
    let kb = SemanticCacheKey::from_request(&b, "m", "wal-lsn-1", SearchMode::Local);
    assert_eq!(ka, kb);
    assert_eq!(ka.entity_type, strings(&["a", "b"]));
    assert_eq!(ka.time_range_from.as_deref(), Some("2024-01-01"));
    let other_snapshot = SemanticCacheKey::from_request(&a, "m", "wal-lsn-2", SearchMode::Local);
    assert_ne!(ka, other_snapshot);
    assert_eq!(sorted_unique(&strings(&["b", "a", "b", "c", "a"])), strings(&["a", "b", "c"]));
}

#[test]
fn queries_are_normalised_and_compared() {
    assert_eq!(normalize_query("  Toyota   EV\tStrategy "), "toyota ev strategy");
    let a = "toyota ev strategy in 2024";
    let b = "2024 toyota ev strategy overview";
    let (ta, tb) = (tokenize(a), tokenize(b));
    let s = query_similarity(a, &ta, b, &tb);
    assert_eq!((s.shared, s.total), (4, 6));
    let same = query_similarity(a, &ta, a, &ta);
    assert_eq!((same.shared, same.total), (1, 1));
    let none = query_similarity(a, &ta, "", &SortedSet::new());
    assert_eq!(none.shared, 0);
}

#[test]
fn paths_come_once_ordered_by_anchor_and_target() {
    let path = |a: u64, t: u64, p: &[u64]| ExpansionPath { anchor_id: a, target_id: t, path: p.to_vec() };
    let out = dedup_paths(vec![
        path(2, 5, &[2, 5]),
        path(1, 9, &[1, 4, 9]),
        path(1, 3, &[1, 3]),
        path(1, 9, &[1, 7, 9]),
        path(2, 5, &[2, 5]),
        path(1, 9, &[1, 4, 9]),
    ]);
    assert_eq!(
        out,
        vec![
            path(1, 3, &[1, 3]),
            path(1, 9, &[1, 4, 9]),
            path(1, 9, &[1, 7, 9]),
            path(2, 5, &[2, 5]),
        ]
    );
    assert!(dedup_paths(Vec::new()).is_empty());
}

#[test]
fn edges_keep_the_last_of_each_key() {
    let none = || Provenance { source: None, extraction_model_id: None, snapshot_id: None, ingested_at: None };
    let edge = |s: u64, t: u64, r: &str, w: f32| InternalEdge {
        source: s,
        target: t,
        relation: r.to_string(),
        weight: w.to_bits(),
        provenance: none(),
        confidence: w.to_bits(),
    };
    let out = dedup_edges(vec![
        edge(2, 1, "b", 0.1),
        edge(1, 2, "b", 0.2),
        edge(1, 2, "a", 0.3),
        edge(1, 2, "b", 0.4),
    ]);
    let seen: Vec<(u64, u64, &str, f32)> = out
        .iter()
        .map(|e| (e.source, e.target, e.relation.as_str(), f32::from_bits(e.weight)))
        .collect();
    assert_eq!(seen, vec![(1, 2, "a", 0.3), (1, 2, "b", 0.4), (2, 1, "b", 0.1)]);
}

#[test]
fn citations_follow_the_first_node_of_each_source() {
    let mut a = ranked(1, 0.9);
    a.source = Some("x".to_string());
    a.data = "é".repeat(50);
    let mut b = ranked(2, 0.8);
    b.source = None;
    let mut c = ranked(3, 0.7);
    c.source = Some("y".to_string());
    let mut d = ranked(4, 0.6);
    d.source = Some("x".to_string());
    let citations = build_citations(&vec![a, b, c, d]);
    let seen: Vec<(&str, (usize, usize), u64)> =
        citations.iter().map(|c| (c.source.as_str(), c.span, c.node_id)).collect();
    assert_eq!(seen, vec![("x", (0, 80), 1), ("y", (0, 6), 3)]);
    assert_eq!(citations[0].confidence, 0.9f32.to_bits());
}

#[test]
fn cache_keys_are_compared_part_by_part() {
    let r = QueryRequest::new("q");
    let a = SemanticCacheKey::from_request(&r, "m", "s", SearchMode::Local);
    let b = SemanticCacheKey::from_request(&r, "m", "s", SearchMode::Local);
    assert!(a.same(&b));
    let c = SemanticCacheKey::from_request(&r, "m", "s", SearchMode::Drift);
    assert!(!a.same(&c));
    let mut other = QueryRequest::new("q");
    other.time_travel = Some("2024-01-01".to_string());
    let d = SemanticCacheKey::from_request(&other, "m", "s", SearchMode::Local);
    assert!(!a.same(&d));
    let mut filtered = QueryRequest::new("q");
    filtered.filters.entity_type = strings(&["x"]);
    assert!(!a.same(&SemanticCacheKey::from_request(&filtered, "m", "s", SearchMode::Local)));
}

#[test]
fn extension_is_taken_from_the_last_component() {
    assert_eq!(file_extension("a.pdf/"), Some("pdf".to_string()));
    assert_eq!(file_extension("dir/a.pdf//"), Some("pdf".to_string()));
    assert_eq!(file_extension("a.pdf/."), Some("pdf".to_string()));
    assert_eq!(file_extension("a.pdf/./"), Some("pdf".to_string()));
    assert_eq!(file_extension("dir.d/name"), None);
    assert_eq!(file_extension(".."), None);
    assert_eq!(file_extension("a.pdf/.."), None);
    assert_eq!(file_extension(".hidden"), None);
    assert_eq!(file_extension(".hidden.txt"), Some("txt".to_string()));
    assert_eq!(file_extension("name."), Some(String::new()));
    assert_eq!(file_extension("..."), Some(String::new()));
    assert_eq!(file_extension(""), None);
    assert_eq!(file_extension("/"), None);
    assert_eq!(file_extension("."), None);
    assert_eq!(detect_content_kind("", Some("a.pdf/")), ContentKind::Pdf);
    assert_eq!(detect_content_kind("", Some("notes.txt/.")), ContentKind::Text);
}

#[test]
fn extension_agrees_with_the_path_of_the_platform() {
    let names = [
        "a.pdf", "a.pdf/", "a/b.c/d.e", "a/b.c/", "a/b.c/.", "./x.y", "../x", "x/..", "..", ".",
        "", "/", "//", ".a", ".a.b", "a.", "a..", "...", "a/./b.txt/./", "a b.md", "weird..json",
    ];
    for name in names {
        let expected = std::path::Path::new(name)
            .extension()
            .map(|e| e.to_string_lossy().into_owned());
        assert_eq!(file_extension(name), expected, "{name:?}");
    }
}

#[test]
fn white_space_is_the_listed_set() {
    let listed = |n: u32| {
        (0x09..=0x0d).contains(&n)
            || n == 0x20
            || n == 0x85
            || n == 0xa0
            || n == 0x1680
            || (0x2000..=0x200a).contains(&n)
            || n == 0x2028
            || n == 0x2029
            || n == 0x202f
            || n == 0x205f
            || n == 0x3000
    };
    let mut text = String::new();
    for n in 0..=0x10ffffu32 {
        if let Some(c) = char::from_u32(n) {
            text.clear();
            text.push(c);
            assert_eq!(is_blank_str(&text), listed(n), "U+{n:04X}");
        }
    }
    assert!(is_blank_str(""));
    assert!(is_blank_str(" \t\u{3000}\n"));
    assert!(!is_blank_str(" \u{200b} "));
    assert_eq!(trim_str("\u{2003} x y\u{85}"), "x y");
}
