//! The verdict cache: lookup and idempotent upsert.

use docuforce::CacheEntry;
use docuforce::CacheStore;

fn entry(name: &str, hash: &str) -> CacheEntry {
    CacheEntry {
        name: name.to_string(),
        confidence: "0.9".to_string(),
        hash: hash.to_string(),
        errors: vec!["an error".to_string()],
        warnings: vec![],
    }
}

#[test]
fn empty_store_misses() {
    let store = CacheStore::new();
    assert!(store.get_cache_entry_by_hash("anything").is_none());
}

#[test]
fn upsert_then_lookup() {
    let mut store = CacheStore::new();
    store.insert_or_update_cache_entry(entry("f", "h1"));
    let found = store.get_cache_entry_by_hash("h1").expect("h1 should be present");
    assert_eq!(found.name, "f");
    assert_eq!(found.hash, "h1");
    assert_eq!(found.errors, vec!["an error".to_string()]);
    assert!(store.get_cache_entry_by_hash("h2").is_none());
}

#[test]
fn upsert_twice_is_idempotent() {
    let mut once = CacheStore::new();
    once.insert_or_update_cache_entry(entry("f", "h1"));

    let mut twice = CacheStore::new();
    twice.insert_or_update_cache_entry(entry("f", "h1"));
    twice.insert_or_update_cache_entry(entry("f", "h1"));

    let a = once.get_cache_entry_by_hash("h1").unwrap();
    let b = twice.get_cache_entry_by_hash("h1").unwrap();
    assert_eq!(a.name, b.name);
    assert_eq!(a.confidence, b.confidence);
    assert_eq!(a.hash, b.hash);
    assert_eq!(a.errors, b.errors);
    assert_eq!(a.warnings, b.warnings);
    assert!(once.get_cache_entry_by_hash("other").is_none());
    assert!(twice.get_cache_entry_by_hash("other").is_none());
}

#[test]
fn upsert_replaces_by_hash() {
    let mut store = CacheStore::new();
    store.insert_or_update_cache_entry(entry("old_name", "h1"));
    let mut replacement = entry("new_name", "h1");
    replacement.confidence = "0.5".to_string();
    store.insert_or_update_cache_entry(replacement);
    let found = store.get_cache_entry_by_hash("h1").unwrap();
    assert_eq!(found.name, "new_name");
    assert_eq!(found.confidence, "0.5");
}

#[test]
fn distinct_hashes_are_independent() {
    let mut store = CacheStore::new();
    store.insert_or_update_cache_entry(entry("f", "h1"));
    store.insert_or_update_cache_entry(entry("g", "h2"));
    assert_eq!(store.get_cache_entry_by_hash("h1").unwrap().name, "f");
    assert_eq!(store.get_cache_entry_by_hash("h2").unwrap().name, "g");
}
