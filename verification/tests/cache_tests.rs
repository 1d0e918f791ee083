use pastecore::cache::ExpiringCache;

#[test]
fn put_then_get_returns_value() {
    let mut cache = ExpiringCache::new(Some(1000));
    cache.put("abc12345".to_string(), "hello".to_string(), 1);
    let got = cache.get(&"abc12345".to_string());
    assert_eq!(got, Some("hello".to_string()));
}

#[test]
fn miss_on_absent_key() {
    let cache = ExpiringCache::new(Some(1000));
    assert_eq!(cache.get(&"nothere1".to_string()), None);
}

#[test]
fn disabled_cache_put_get_misses() {
    let mut cache = ExpiringCache::new(None);
    cache.put("abc12345".to_string(), "hello".to_string(), 1);
    assert_eq!(cache.get(&"abc12345".to_string()), None);
    assert_eq!(cache.size(), 0);
}

#[test]
fn sweep_trims_to_budget_keeping_newest() {
    let mut cache = ExpiringCache::new(Some(10));
    cache.put("k1".to_string(), "1234567890".to_string(), 1);
    cache.put("k2".to_string(), "1234567890".to_string(), 2);
    assert_eq!(cache.size(), 20);
    cache.sweep();
    assert!(cache.size() <= 10);
    assert_eq!(cache.get(&"k1".to_string()), None);
    assert_eq!(cache.get(&"k2".to_string()), Some("1234567890".to_string()));
}

#[test]
fn sweep_below_budget_evicts_nothing() {
    let mut cache = ExpiringCache::new(Some(100));
    cache.put("k1".to_string(), "1234567890".to_string(), 1);
    cache.sweep();
    assert_eq!(cache.size(), 10);
    assert_eq!(cache.get(&"k1".to_string()), Some("1234567890".to_string()));
}

#[test]
fn eviction_is_oldest_first() {
    let mut cache = ExpiringCache::new(Some(10));
    cache.put("aaaaaaaa".to_string(), "1234567890".to_string(), 1);
    cache.put("bbbbbbbb".to_string(), "1234567890".to_string(), 2);
    cache.put("cccccccc".to_string(), "1234567890".to_string(), 3);
    cache.sweep();
    assert_eq!(cache.size(), 10);
    assert_eq!(cache.get(&"aaaaaaaa".to_string()), None);
    assert_eq!(cache.get(&"bbbbbbbb".to_string()), None);
    assert_eq!(cache.get(&"cccccccc".to_string()), Some("1234567890".to_string()));
}

#[test]
fn overwrite_replaces_value_and_size() {
    let mut cache = ExpiringCache::new(Some(1000));
    cache.put("k".to_string(), "12345".to_string(), 1);
    cache.put("k".to_string(), "123".to_string(), 2);
    assert_eq!(cache.size(), 3);
    assert_eq!(cache.get(&"k".to_string()), Some("123".to_string()));
}

#[test]
fn stale_records_are_skipped_not_fatal() {
    let mut cache = ExpiringCache::new(Some(0));
    cache.put("k1".to_string(), "aaaaa".to_string(), 1);
    cache.put("k1".to_string(), "aaaaa".to_string(), 2);
    cache.sweep();
    assert_eq!(cache.size(), 0);
    assert_eq!(cache.get(&"k1".to_string()), None);
    cache.put("k2".to_string(), "cc".to_string(), 3);
    cache.sweep();
    assert_eq!(cache.size(), 0);
    assert_eq!(cache.get(&"k2".to_string()), None);
}

#[test]
fn sweep_on_empty_cache_is_harmless() {
    let mut cache = ExpiringCache::new(Some(5));
    cache.sweep();
    assert_eq!(cache.size(), 0);
    let mut disabled = ExpiringCache::new(None);
    disabled.sweep();
    assert_eq!(disabled.size(), 0);
}

#[test]
fn size_sums_stored_content() {
    let mut cache = ExpiringCache::new(Some(1000));
    assert_eq!(cache.size(), 0);
    cache.put("k1".to_string(), "abc".to_string(), 1);
    cache.put("k2".to_string(), "defgh".to_string(), 2);
    assert_eq!(cache.size(), 8);
    assert_eq!(cache.budget(), Some(1000));
}

#[test]
fn evict_oldest_steps_through_in_stamp_order() {
    let mut cache = ExpiringCache::new(Some(1000));
    cache.put("k1".to_string(), "aa".to_string(), 1);
    cache.put("k2".to_string(), "bb".to_string(), 2);
    assert_eq!(cache.evict_oldest(), Some("k1".to_string()));
    assert_eq!(cache.evict_oldest(), Some("k2".to_string()));
    assert_eq!(cache.evict_oldest(), None);
    assert_eq!(cache.size(), 0);
}

#[test]
fn put_now_stores_like_put() {
    let mut cache = ExpiringCache::new(Some(1000));
    cache.put_now("k".to_string(), "hello".to_string());
    assert_eq!(cache.get(&"k".to_string()), Some("hello".to_string()));
    assert_eq!(cache.size(), 5);
}
