use vexy_glob::pattern_cache::{adjust_pattern, is_literal_pattern, PatternCache};
use vexy_glob::QueryError;
use vexy_glob::CACHE_SIZE;

#[test]
fn test_pattern_cache_basic() {
    let mut cache = PatternCache::new();

    // Test getting a pre-compiled pattern
    let entry = cache.get_or_compile("*.py", false).unwrap();
    assert_eq!(entry.pattern, "*.py");
    assert!(!entry.is_literal);

    // Test getting a new pattern
    let entry = cache.get_or_compile("test/*.md", true).unwrap();
    assert_eq!(entry.pattern, "test/*.md");
    assert!(!entry.is_literal);

    // Test literal pattern detection
    let entry = cache.get_or_compile("README.md", false).unwrap();
    assert!(entry.is_literal);
}

#[test]
fn test_cache_stats() {
    let cache = PatternCache::new();
    let stats = cache.stats();
    assert!(stats.size > 0); // Should have pre-compiled patterns
    assert_eq!(stats.capacity, CACHE_SIZE);
}

#[test]
fn stats_report_the_prewarm_list() {
    let cache = PatternCache::new();
    let stats = cache.stats();
    // 47 common patterns, each compiled in both case modes.
    assert_eq!(stats.precompiled_patterns, 94);
    assert_eq!(stats.size, 94);
}

#[test]
fn test_is_literal_pattern() {
    assert!(is_literal_pattern("README.md"));
    assert!(is_literal_pattern("src/main.rs"));
    assert!(!is_literal_pattern("*.py"));
    assert!(!is_literal_pattern("file?.txt"));
    assert!(!is_literal_pattern("[ab].txt"));
    assert!(!is_literal_pattern("{a,b}.txt"));
    assert!(is_literal_pattern(""));
}

#[test]
fn test_adjust_pattern() {
    assert_eq!(adjust_pattern("*.py"), "**/*.py");
    assert_eq!(adjust_pattern("src/*.py"), "src/*.py");
    assert_eq!(adjust_pattern("a\\b"), "a\\b");
    assert_eq!(adjust_pattern("**/*.rs"), "**/*.rs");
}

#[test]
fn test_invalid_glob_is_reported_and_not_cached() {
    let mut cache = PatternCache::new();
    let before = cache.stats().size;
    let r = cache.get_or_compile("a{b", true);
    assert!(matches!(r, Err(QueryError::InvalidPattern(_))));
    assert_eq!(cache.stats().size, before);
    assert!(!cache.contains("a{b", true));
}

#[test]
fn test_cache_hit_keeps_size() {
    let mut cache = PatternCache::new();
    let s1 = cache.stats().size;
    cache.get_or_compile("*.py", true).unwrap();
    assert_eq!(cache.stats().size, s1);
}

// After filling the cache past its capacity, the least-recently-used,
// non-accessed key is evicted, while an accessed key survives.
#[test]
fn test_cache_lru_eviction() {
    let mut cache = PatternCache::new();
    let mut i = 0usize;
    while cache.stats().size < CACHE_SIZE {
        cache
            .get_or_compile(&format!("zz{}.q", i), true)
            .unwrap();
        i += 1;
    }
    assert_eq!(cache.stats().size, CACHE_SIZE);
    // The pre-warmed keys are the oldest; both case modes are still there.
    assert!(cache.contains("*.py", true));
    assert!(cache.contains("*.py", false));
    // Touch one of the two, promoting it to most recently used.
    cache.get_or_compile("*.py", true).unwrap();
    // The next distinct insert evicts the least recently used key.
    cache.get_or_compile("fresh.unique", true).unwrap();
    assert!(!cache.contains("*.py", false));
    assert!(cache.contains("*.py", true));
    assert_eq!(cache.stats().size, CACHE_SIZE);
}
