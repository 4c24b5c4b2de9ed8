use std::collections::hash_map::RandomState;

use hash_cache::{HashCache, HashCacheConfig};

#[test]
fn empty_cache_misses() {
    let cache: HashCache<u64> = HashCache::new();
    assert!(cache.get("a").is_none());
    assert!(cache.get("").is_none());
}

#[test]
fn default_cache_starts_empty() {
    let cache: HashCache<u64> = Default::default();
    assert!(cache.get("a").is_none());
}

#[test]
fn with_capacity_starts_empty() {
    let cache: HashCache<u64> = HashCache::with_capacity(16);
    assert!(cache.get("a").is_none());
}

#[test]
fn with_hasher_starts_empty() {
    let cache: HashCache<u64, RandomState> = HashCache::with_hasher(RandomState::new());
    assert!(cache.get("a").is_none());
}

#[test]
fn hash_strategy_is_pure_configuration() {
    let mut cache: HashCache<u64, ()> = HashCache::with_hasher(());
    cache.get_or_insert_with("a", |_k| 1);
    assert_eq!(cache.get("a"), Some(&1));
}

#[test]
fn with_config_starts_empty() {
    let mut config: HashCacheConfig<RandomState, ()> = HashCacheConfig::default();
    config.capacity = 8;
    let cache: HashCache<u64, RandomState, ()> = HashCache::with_config(config);
    assert!(cache.get("a").is_none());
}

#[test]
fn insert_then_lookup() {
    let mut cache: HashCache<u64> = HashCache::new();
    let stored = *cache.get_or_insert_with("a", |_k| 1);
    assert_eq!(stored, 1);
    assert_eq!(cache.get("a"), Some(&1));
    assert!(cache.get("b").is_none());
}

#[test]
fn scenario_two_keys_no_interference() {
    let mut cache: HashCache<u64> = HashCache::new();
    let first = *cache.get_or_insert_with("a", |_k| 1);
    assert_eq!(first, 1);
    assert_eq!(cache.get("a"), Some(&1));
    let second = *cache.get_or_insert_with("b", |_k| 2);
    assert_eq!(second, 2);
    assert_eq!(cache.get("a"), Some(&1));
    assert_eq!(cache.get("b"), Some(&2));
}

#[test]
fn idempotent_hit_returns_stored_value() {
    let mut cache: HashCache<u64> = HashCache::new();
    let first = *cache.get_or_insert_with("k", |_k| 5);
    let again = *cache.get_or_insert_with("k", |_k| 7);
    assert_eq!(first, 5);
    assert_eq!(again, 5);
    assert_eq!(cache.get("k"), Some(&5));
}

#[test]
fn hit_never_calls_the_provider() {
    let mut cache: HashCache<u64> = HashCache::new();
    cache.get_or_insert_with("k", |_k| 5);
    let hit = *cache.get_or_insert_with("k", |_k: &String| -> u64 { panic!("provider ran on a hit") });
    assert_eq!(hit, 5);
}

#[test]
fn single_value_retained_for_a_key() {
    let mut cache: HashCache<u64> = HashCache::new();
    let observed = [
        *cache.get_or_insert_with("k", |_k| 10),
        *cache.get_or_insert_with("k", |_k| 11),
        *cache.get_or_insert_with("k", |_k| 12),
    ];
    assert_eq!(observed, [10, 10, 10]);
    assert_eq!(cache.get("k"), Some(&10));
}

#[test]
fn provider_receives_the_owned_key() {
    let mut cache: HashCache<usize> = HashCache::new();
    let len = *cache.get_or_insert_with("abcd", |k: &String| k.len());
    assert_eq!(len, 4);
    assert_eq!(cache.get("abcd"), Some(&4));
}

#[test]
fn default_provider_computes_on_miss() {
    let mut cache = HashCache::<usize, RandomState, _>::with_provider(|k: &String| k.len());
    assert_eq!(*cache.get_or_insert("abc"), 3);
    assert_eq!(*cache.get_or_insert("abc"), 3);
    assert_eq!(*cache.get_or_insert(""), 0);
    assert_eq!(cache.get("abc"), Some(&3));
}

#[test]
fn clear_empties_the_table() {
    let mut cache: HashCache<u64> = HashCache::new();
    cache.get_or_insert_with("a", |_k| 1);
    cache.get_or_insert_with("b", |_k| 2);
    cache.clear();
    assert!(cache.get("a").is_none());
    assert!(cache.get("b").is_none());
    let replaced = *cache.get_or_insert_with("a", |_k| 9);
    assert_eq!(replaced, 9);
}

#[test]
fn borrowed_and_owned_key_forms_agree() {
    let mut cache: HashCache<u64> = HashCache::new();
    cache.get_or_insert_with("key", |_k| 42);
    let owned = String::from("key");
    assert_eq!(cache.get(owned.as_str()), Some(&42));
    assert_eq!(cache.get("key"), Some(&42));
}

#[test]
fn distinct_unicode_keys_stay_distinct() {
    let mut cache: HashCache<u64> = HashCache::new();
    cache.get_or_insert_with("héllo", |_k| 1);
    cache.get_or_insert_with("hello", |_k| 2);
    assert_eq!(cache.get("héllo"), Some(&1));
    assert_eq!(cache.get("hello"), Some(&2));
    assert!(cache.get("h").is_none());
}

#[test]
fn empty_string_is_a_key_like_any_other() {
    let mut cache: HashCache<u64> = HashCache::new();
    cache.get_or_insert_with("", |_k| 3);
    assert_eq!(cache.get(""), Some(&3));
    assert!(cache.get("x").is_none());
}
