use alayasiki::dsl::{QueryMode, SearchMode};
use alayasiki::semantic_cache::{
    EvictionPolicy, SemanticCache, SemanticCacheConfig, SemanticCacheKey,
    DEFAULT_SIMILARITY_THRESHOLD,
};

fn cache_key(snapshot_id: &str) -> SemanticCacheKey {
    SemanticCacheKey {
        model_id: "embedding-default-v1".to_string(),
        snapshot_id: snapshot_id.to_string(),
        mode: QueryMode::Evidence,
        search_mode: SearchMode::Local,
        effective_search_mode: SearchMode::Local,
        top_k: 5,
        traversal_depth: 2,
        entity_type: Vec::new(),
        relation_type: Vec::new(),
        traversal_relation_types: Vec::new(),
        time_range_from: None,
        time_range_to: None,
        time_travel: None,
    }
}

fn config() -> SemanticCacheConfig {
    SemanticCacheConfig { max_entries: 16, similarity_threshold: 0.6f32.to_bits(), ..SemanticCacheConfig::default() }
}

fn lookup_at(cache: &mut SemanticCache<u64>, key: &SemanticCacheKey, query: &str, now: u64) -> Option<u64> {
    let scores: Vec<u32> = cache
        .similarities(query)
        .iter()
        .map(|o| (o.shared as f32 / o.total as f32).to_bits())
        .collect();
    if cache.lookup(key, query, &scores, now) {
        cache.latest().copied()
    } else {
        None
    }
}

fn lookup(cache: &mut SemanticCache<u64>, key: &SemanticCacheKey, query: &str) -> Option<u64> {
    lookup_at(cache, key, query, 0)
}

#[test]
fn cache_hits_for_semantically_equivalent_query() {
    let mut cache = SemanticCache::with_config(config());
    let key = cache_key("wal-lsn-10");
    cache.insert(cache_key("wal-lsn-10"), "Toyota EV strategy in 2024", 42u64, 0);

    let hit = lookup(&mut cache, &key, "2024 Toyota EV strategy overview");
    assert_eq!(hit, Some(42));
}

#[test]
fn cache_isolated_by_snapshot_id() {
    let mut cache = SemanticCache::with_config(SemanticCacheConfig::default());
    cache.insert(cache_key("wal-lsn-10"), "Toyota EV strategy", 1u64, 0);

    let miss = lookup(&mut cache, &cache_key("wal-lsn-11"), "Toyota EV strategy");
    assert_eq!(miss, None);
}

#[test]
fn cache_evicts_old_entries_in_lru_order() {
    let mut cache = SemanticCache::with_config(SemanticCacheConfig { max_entries: 2, ..config() });
    let key = cache_key("wal-lsn-10");

    cache.insert(cache_key("wal-lsn-10"), "query one", 1u64, 1);
    cache.insert(cache_key("wal-lsn-10"), "query two", 2u64, 2);
    cache.insert(cache_key("wal-lsn-10"), "query three", 3u64, 3);

    assert_eq!(lookup_at(&mut cache, &key, "query one", 4), None);
    assert_eq!(lookup_at(&mut cache, &key, "query two", 5), Some(2));
    assert_eq!(lookup_at(&mut cache, &key, "query three", 6), Some(3));
    assert_eq!(cache.len(), 2);
}

#[test]
fn cache_respects_ttl_expiration() {
    let mut cache = SemanticCache::with_config(SemanticCacheConfig { ttl_seconds: Some(1), ..config() });
    let key = cache_key("wal-lsn-10");
    cache.insert(cache_key("wal-lsn-10"), "test query", 42u64, 10_000);

    assert_eq!(lookup_at(&mut cache, &key, "test query", 10_000), Some(42));
    assert_eq!(lookup_at(&mut cache, &key, "test query", 11_000), Some(42));
    assert_eq!(lookup_at(&mut cache, &key, "test query", 12_000), None);
    assert_eq!(lookup_at(&mut cache, &key, "test query", 9_000), Some(42));
}

#[test]
fn cache_respects_min_query_length() {
    let mut cache = SemanticCache::with_config(SemanticCacheConfig { min_query_length: 10, ..config() });
    let key = cache_key("wal-lsn-10");

    cache.insert(cache_key("wal-lsn-10"), "hi", 42u64, 0);
    assert_eq!(lookup(&mut cache, &key, "hi"), None);
    assert_eq!(cache.len(), 0);

    cache.insert(cache_key("wal-lsn-10"), "hello world query", 43u64, 0);
    assert_eq!(lookup(&mut cache, &key, "hello world query"), Some(43));
    assert_eq!(lookup(&mut cache, &key, "hello"), None);
}

#[test]
fn cache_can_be_disabled() {
    let mut cache = SemanticCache::with_config(SemanticCacheConfig { enabled: false, ..config() });
    let key = cache_key("wal-lsn-10");

    cache.insert(cache_key("wal-lsn-10"), "test query", 42u64, 0);
    assert_eq!(lookup(&mut cache, &key, "test query"), None);
    assert_eq!(cache.len(), 0);
}

#[test]
fn cache_eviction_policy_lfu() {
    let mut cache = SemanticCache::with_config(SemanticCacheConfig {
        max_entries: 3,
        eviction_policy: EvictionPolicy::Lfu,
        ..config()
    });
    let key = cache_key("wal-lsn-10");

    cache.insert(cache_key("wal-lsn-10"), "query one", 1u64, 1);
    cache.insert(cache_key("wal-lsn-10"), "query two", 2u64, 2);
    cache.insert(cache_key("wal-lsn-10"), "query three", 3u64, 3);

    lookup_at(&mut cache, &key, "query one", 4);
    lookup_at(&mut cache, &key, "query one", 5);

    cache.insert(cache_key("wal-lsn-10"), "query four", 4u64, 6);

    assert_eq!(lookup_at(&mut cache, &key, "query one", 7), Some(1));
    assert_eq!(lookup_at(&mut cache, &key, "query two", 8), None);
    assert_eq!(lookup_at(&mut cache, &key, "query three", 9), Some(3));
    assert_eq!(lookup_at(&mut cache, &key, "query four", 10), Some(4));
}

#[test]
fn cache_replaces_the_entry_of_the_same_query() {
    let mut cache = SemanticCache::with_config(config());
    let key = cache_key("wal-lsn-10");
    cache.insert(cache_key("wal-lsn-10"), "Same  QUERY here", 1u64, 0);
    cache.insert(cache_key("wal-lsn-10"), "same query   here", 2u64, 1);
    assert_eq!(cache.len(), 1);
    assert_eq!(lookup(&mut cache, &key, "same query here"), Some(2));
}

#[test]
fn cache_prefers_the_best_then_the_latest_entry() {
    let mut cache = SemanticCache::with_config(SemanticCacheConfig {
        similarity_threshold: 0.5f32.to_bits(),
        ..config()
    });
    let key = cache_key("s");
    cache.insert(cache_key("s"), "alpha beta gamma", 1u64, 0);
    cache.insert(cache_key("s"), "alpha beta delta", 2u64, 0);
    cache.insert(cache_key("s"), "alpha beta gamma delta", 3u64, 0);
    assert_eq!(lookup(&mut cache, &key, "alpha beta gamma delta epsilon"), Some(3));
    assert_eq!(lookup(&mut cache, &key, "alpha beta"), Some(2));
    assert_eq!(lookup(&mut cache, &key, "alpha beta"), Some(2));
    let handed = vec![0.9f32.to_bits(), 0.9f32.to_bits(), 0.2f32.to_bits()];
    assert!(cache.lookup(&key, "anything at all", &handed, 0));
    assert_eq!(cache.latest(), Some(&3));
}

#[test]
fn cache_without_room_holds_nothing() {
    let mut cache = SemanticCache::with_config(SemanticCacheConfig { max_entries: 0, ..config() });
    cache.insert(cache_key("s"), "some query", 1u64, 0);
    assert_eq!(cache.len(), 0);
    assert_eq!(cache.latest(), None);
    let d = SemanticCacheConfig::default();
    assert_eq!(d.max_entries, 256);
    assert_eq!(f32::from_bits(d.similarity_threshold), 0.6);
    assert_eq!(d.similarity_threshold, DEFAULT_SIMILARITY_THRESHOLD);
    assert_eq!(d.ttl_seconds, None);
    assert_eq!(d.min_query_length, 3);
    assert!(d.enabled);
    assert_eq!(d.eviction_policy, EvictionPolicy::Lru);
}
