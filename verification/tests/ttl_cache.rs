use attic::server::ttl_cache::TtlCache;

const SECOND: u128 = 1_000_000_000;

#[test]
fn hit_within_ttl() {
    let mut cache: TtlCache<&str, i32> = TtlCache::new();
    let t0: u128 = 0;
    cache.insert_at("a", 1, t0);

    let now = t0 + 3 * SECOND;
    assert_eq!(cache.get_at(&"a", 5 * SECOND, now), Some(1));

    // A fresh hit must not have evicted the entry.
    assert!(cache.contains_key(&"a"));
}

#[test]
fn miss_after_ttl_evicts_entry() {
    let mut cache: TtlCache<&str, i32> = TtlCache::new();
    let t0: u128 = 0;
    cache.insert_at("a", 1, t0);

    let now = t0 + 10 * SECOND;
    assert_eq!(cache.get_at(&"a", 5 * SECOND, now), None);

    // The stale entry should have been evicted as a side effect.
    assert!(!cache.contains_key(&"a"));
}

#[test]
fn invalidate_removes_entry() {
    let mut cache: TtlCache<&str, i32> = TtlCache::new();
    cache.insert("a", 1);
    cache.invalidate(&"a");
    assert_eq!(cache.get(&"a", 60 * SECOND), None);
}

#[test]
fn overwrite_refreshes_timestamp() {
    let mut cache: TtlCache<&str, i32> = TtlCache::new();
    let t0: u128 = 0;
    cache.insert_at("a", 1, t0);
    cache.insert_at("a", 2, t0 + 100 * SECOND);

    // 101s after t0, but only 1s after the refreshed timestamp: still fresh under a 5s TTL, and
    // reflects the newer value.
    let now = t0 + 101 * SECOND;
    assert_eq!(cache.get_at(&"a", 5 * SECOND, now), Some(2));
}

#[test]
fn miss_for_absent_key() {
    let mut cache: TtlCache<&str, i32> = TtlCache::new();
    assert_eq!(cache.get(&"missing", 60 * SECOND), None);
}

#[test]
fn fresh_value_is_found_with_the_real_clock() {
    let mut cache: TtlCache<&str, i32> = TtlCache::new();
    cache.insert("a", 7);
    assert_eq!(cache.get(&"a", 3600 * SECOND), Some(7));
    assert_eq!(cache.get(&"a", 0), None);
    assert_eq!(cache.get(&"a", 3600 * SECOND), None);
}

#[test]
fn entry_lives_for_exactly_its_ttl() {
    let mut cache: TtlCache<&str, i32> = TtlCache::new();
    cache.insert_at("a", 1, 10);
    cache.insert_at("b", 2, 10);
    assert_eq!(cache.get_at(&"a", 5, 14), Some(1));
    assert_eq!(cache.get_at(&"a", 5, 9), Some(1));
    assert_eq!(cache.get_at(&"a", 5, 15), None);
    assert_eq!(cache.get_at(&"a", 5, 14), None);
    assert_eq!(cache.get_at(&"b", 5, 14), Some(2));
}
