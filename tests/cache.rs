use std::collections::hash_map::DefaultHasher;
use std::hash::{Hash, Hasher};

use thumbor::cache::{fingerprint, FetchError, SourceCache};

#[test]
fn capacity_plus_one_evicts_least_recent() {
    let n: u64 = 4;
    let mut cache = SourceCache::new(n as usize);
    for k in 0..=n {
        cache.put(k, vec![k as u8]);
    }
    assert_eq!(cache.get(0), None);
    for k in 1..=n {
        assert_eq!(cache.get(k), Some(vec![k as u8]));
    }
}

#[test]
fn get_refreshes_recency() {
    let mut cache = SourceCache::new(3);
    cache.put(1, vec![1]);
    cache.put(2, vec![2]);
    cache.put(3, vec![3]);
    assert_eq!(cache.get(1), Some(vec![1]));
    cache.put(4, vec![4]);
    assert_eq!(cache.get(2), None);
    assert_eq!(cache.get(1), Some(vec![1]));
    assert_eq!(cache.get(3), Some(vec![3]));
    assert_eq!(cache.get(4), Some(vec![4]));
}

#[test]
fn put_replaces_value_without_eviction() {
    let mut cache = SourceCache::new(2);
    cache.put(1, vec![1]);
    cache.put(2, vec![2]);
    cache.put(1, vec![9]);
    assert_eq!(cache.get(1), Some(vec![9]));
    assert_eq!(cache.get(2), Some(vec![2]));
}

#[test]
fn capacity_one_keeps_last() {
    let mut cache = SourceCache::new(1);
    cache.put(1, vec![1]);
    cache.put(2, vec![2]);
    assert_eq!(cache.get(1), None);
    assert_eq!(cache.get(2), Some(vec![2]));
}

#[test]
fn stored_fetch_is_a_hit_afterwards() {
    let mut cache = SourceCache::new(8);
    let key = fingerprint("https://example.com/a.png");
    let mut fetches = 0;
    for _ in 0..3 {
        let bytes = match cache.get(key) {
            Some(v) => v,
            None => {
                fetches += 1;
                cache.store(key, Ok(vec![7, 8, 9])).unwrap()
            }
        };
        assert_eq!(bytes, vec![7, 8, 9]);
    }
    assert_eq!(fetches, 1);
}

#[test]
fn failed_fetch_is_not_cached() {
    let mut cache = SourceCache::new(8);
    assert_eq!(cache.store(5, Err(FetchError::Status(404))), Err(FetchError::Status(404)));
    assert_eq!(cache.get(5), None);
    assert_eq!(cache.store(5, Err(FetchError::Transport)), Err(FetchError::Transport));
    assert_eq!(cache.get(5), None);
}

#[test]
fn fingerprint_is_stable_and_separates_urls() {
    let a = fingerprint("https://example.com/a.png");
    assert_eq!(a, fingerprint("https://example.com/a.png"));
    assert_ne!(a, fingerprint("https://example.com/b.png"));
}

#[test]
fn fingerprint_matches_str_hash() {
    let url = "https://example.com/a.png";
    let mut h = DefaultHasher::new();
    url.hash(&mut h);
    assert_eq!(fingerprint(url), h.finish());
}
