use subresolver::cache::Cache;

#[test]
fn value_is_returned_before_its_ttl_elapses() {
    let mut cache = Cache::new(3600);
    cache.set("anime_1".to_string(), "payload".to_string(), 1000);
    assert_eq!(cache.get("anime_1", 1000), Some("payload".to_string()));
    assert_eq!(cache.get("anime_1", 4599), Some("payload".to_string()));
}

#[test]
fn value_lapses_once_its_ttl_elapses() {
    let mut cache = Cache::new(3600);
    cache.set("anime_1".to_string(), "payload".to_string(), 1000);
    assert_eq!(cache.get("anime_1", 4600), None);
    assert_eq!(cache.get("anime_1", 9999), None);
}

#[test]
fn absent_key_is_a_miss() {
    let cache = Cache::new(3600);
    assert_eq!(cache.get("anime_1", 0), None);
}

#[test]
fn set_overwrites_and_refreshes_expiry() {
    let mut cache = Cache::new(100);
    cache.set("k".to_string(), "old".to_string(), 0);
    cache.set("k".to_string(), "new".to_string(), 90);
    assert_eq!(cache.get("k", 150), Some("new".to_string()));
    assert_eq!(cache.get("k", 190), None);
}

#[test]
fn keys_are_independent() {
    let mut cache = Cache::new(100);
    cache.set("a".to_string(), "1".to_string(), 0);
    cache.set("b".to_string(), "2".to_string(), 0);
    assert_eq!(cache.get("a", 50), Some("1".to_string()));
    assert_eq!(cache.get("b", 50), Some("2".to_string()));
    assert_eq!(cache.get("c", 50), None);
}
