use metrics_bridge::cache::MetricsCache;

const SECOND: u64 = 1_000_000_000;

#[test]
fn test_cache_disabled_ttl_zero() {
    let mut cache = MetricsCache::new(0);
    assert!(!cache.is_enabled());

    // Set should be no-op when disabled
    cache.set("test".to_string(), 0);
    assert!(cache.get(0).is_none());
}

#[test]
fn test_cache_enabled_positive_ttl() {
    let mut cache = MetricsCache::new(60);
    assert!(cache.is_enabled());

    cache.set("test data".to_string(), 0);
    assert_eq!(cache.get(0), Some(&"test data".to_string()));
}

#[test]
fn test_cache_clear() {
    let mut cache = MetricsCache::new(60);
    cache.set("data".to_string(), 0);
    assert!(cache.get(0).is_some());

    cache.clear();
    assert!(cache.get(0).is_none());
}

#[test]
fn test_cache_expiration() {
    let mut cache = MetricsCache::new(1);
    cache.set("expires soon".to_string(), 0);

    // Should be present immediately
    assert_eq!(cache.get(0), Some(&"expires soon".to_string()));

    // Two seconds later it has expired
    assert!(cache.get(2 * SECOND).is_none());
    // Exactly at the TTL it has expired too
    assert!(cache.get(SECOND).is_none());
    assert!(cache.get(SECOND - 1).is_some());
}

#[test]
fn test_cache_update_resets_expiration() {
    let mut cache = MetricsCache::new(2);

    cache.set("first".to_string(), 0);
    // Update before expiration
    cache.set("second".to_string(), SECOND);

    // Should still be valid (timer reset)
    assert_eq!(cache.get(2 * SECOND), Some(&"second".to_string()));
}

#[test]
fn test_cache_overwrite() {
    let mut cache = MetricsCache::new(60);

    cache.set("first".to_string(), 0);
    assert_eq!(cache.get(0), Some(&"first".to_string()));

    cache.set("second".to_string(), 0);
    assert_eq!(cache.get(0), Some(&"second".to_string()));
}

#[test]
fn test_cache_empty_string() {
    let mut cache = MetricsCache::new(60);

    cache.set(String::new(), 0);
    assert_eq!(cache.get(0), Some(&String::new()));
}

#[test]
fn test_cache_large_data() {
    let mut cache = MetricsCache::new(60);

    // 1MB of data
    let large_data = "x".repeat(1_000_000);
    cache.set(large_data.clone(), 0);
    assert_eq!(cache.get(0), Some(&large_data));
}

#[test]
fn test_cache_get_before_set() {
    let cache: MetricsCache<String> = MetricsCache::new(60);
    assert!(cache.get(0).is_none());
}

#[test]
fn test_cache_multiple_clears() {
    let mut cache = MetricsCache::new(60);

    // Clear empty cache
    cache.clear();
    assert!(cache.get(0).is_none());

    // Set and clear
    cache.set("data".to_string(), 0);
    cache.clear();
    cache.clear(); // Double clear
    assert!(cache.get(0).is_none());
}

#[test]
fn test_cache_clock_going_back_counts_as_no_time() {
    let mut cache = MetricsCache::new(1);
    cache.set("d".to_string(), 10 * SECOND);
    assert!(cache.get(5 * SECOND).is_some());
}
