use gh_templates::cache::{plan_cache, settle_refresh, should_update_cache, Cache, CacheAction, SlotStatus};

#[test]
fn distinct_keys_keep_their_own_values() {
    let mut c: Cache<String> = Cache::new("1");
    c.insert("mit".to_string(), "MIT License".to_string());
    c.insert("apache-2.0".to_string(), "Apache License 2.0".to_string());
    assert_eq!(c.get("mit"), Some(&"MIT License".to_string()));
    assert_eq!(c.get("apache-2.0"), Some(&"Apache License 2.0".to_string()));
    assert_eq!(c.get("gpl"), None);
    assert_eq!(c.len(), 2);
}

#[test]
fn insert_under_same_key_replaces() {
    let mut c: Cache<u32> = Cache::new("1");
    c.insert("a".to_string(), 1);
    c.insert("a".to_string(), 2);
    assert_eq!(c.get("a"), Some(&2));
    assert_eq!(c.len(), 1);
    assert!(c.entries[0].1.inserted_at > 0);
}

#[test]
fn filter_by_metadata_keeps_entry_order() {
    let mut c: Cache<u32> = Cache::new("1");
    let tag = |v: &str| vec![("category".to_string(), v.to_string())];
    c.insert_with_metadata("b".to_string(), 2, tag("popular"));
    c.insert_with_metadata("a".to_string(), 1, tag("global"));
    c.insert_with_metadata("c".to_string(), 3, tag("popular"));
    let found = c.filter_by_metadata("category", "popular");
    assert_eq!(found, vec![("b".to_string(), &2), ("c".to_string(), &3)]);
    assert!(c.filter_by_metadata("kind", "popular").is_empty());
}

#[test]
fn missing_slot_needs_update() {
    assert!(should_update_cache(&None, 100, "1"));
}

#[test]
fn fresh_slot_does_not_need_update() {
    let slot = Some(SlotStatus { age_seconds: 0, version: "1".to_string() });
    assert!(!should_update_cache(&slot, 100, "1"));
}

#[test]
fn old_or_other_version_slot_needs_update() {
    let old = Some(SlotStatus { age_seconds: 101, version: "1".to_string() });
    assert!(should_update_cache(&old, 100, "1"));
    let other = Some(SlotStatus { age_seconds: 0, version: "0".to_string() });
    assert!(should_update_cache(&other, 100, "1"));
}

#[test]
fn loaded_fresh_cache_is_used() {
    let c: Cache<u32> = Cache::new("1");
    assert!(matches!(plan_cache(false, false, Some(c)), CacheAction::Use(_)));
    assert!(matches!(plan_cache(true, false, Some(Cache::<u32>::new("1"))), CacheAction::Refresh));
    assert!(matches!(plan_cache(false, true, Some(Cache::<u32>::new("1"))), CacheAction::Refresh));
    assert!(matches!(plan_cache::<u32>(false, false, None), CacheAction::Refresh));
}

#[test]
fn failed_refresh_falls_back_to_saved_cache() {
    let mut saved: Cache<u32> = Cache::new("1");
    saved.insert("old".to_string(), 1);
    let r = settle_refresh(Err::<Cache<u32>, &str>("offline"), Some(saved)).unwrap();
    assert_eq!(r.get("old"), Some(&1));
    assert_eq!(settle_refresh(Err::<Cache<u32>, &str>("offline"), None).unwrap_err(), "offline");
    let mut fresh: Cache<u32> = Cache::new("1");
    fresh.insert("new".to_string(), 2);
    let r = settle_refresh(Ok::<Cache<u32>, &str>(fresh), Some(Cache::new("1"))).unwrap();
    assert_eq!(r.get("new"), Some(&2));
}
