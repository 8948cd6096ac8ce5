use nft_pricer::cache::LruCache;

#[test]
fn test_cache_insert_and_get() {
    let mut c: LruCache<u64> = LruCache::new(4);
    assert_eq!(c.len(), 0);
    c.insert((1, 100), 7);
    c.insert((1, 200), 9);
    assert_eq!(c.get((1, 100)), Some(7));
    assert_eq!(c.get((1, 200)), Some(9));
    assert_eq!(c.get((2, 100)), None);
    assert_eq!(c.len(), 2);
}

#[test]
fn test_cache_replaces_binding() {
    let mut c: LruCache<u64> = LruCache::new(4);
    c.insert((1, 100), 7);
    c.insert((1, 100), 8);
    assert_eq!(c.get((1, 100)), Some(8));
    assert_eq!(c.len(), 1);
}

#[test]
fn test_cache_evicts_least_recently_used() {
    let mut c: LruCache<u64> = LruCache::new(2);
    c.insert((1, 1), 10);
    c.insert((1, 2), 20);
    c.insert((1, 3), 30);
    // the oldest binding fell out; the cache stays within its bound
    assert_eq!(c.get((1, 1)), None);
    assert_eq!(c.get((1, 2)), Some(20));
    assert_eq!(c.get((1, 3)), Some(30));
    assert_eq!(c.len(), 2);
}

#[test]
fn test_cache_get_refreshes_recency() {
    let mut c: LruCache<u64> = LruCache::new(2);
    c.insert((1, 1), 10);
    c.insert((1, 2), 20);
    // touching the older entry makes the other one the eviction victim
    assert_eq!(c.get((1, 1)), Some(10));
    c.insert((1, 3), 30);
    assert_eq!(c.get((1, 1)), Some(10));
    assert_eq!(c.get((1, 2)), None);
    assert_eq!(c.get((1, 3)), Some(30));
}
