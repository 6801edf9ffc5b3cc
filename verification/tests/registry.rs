use vigilant_guard::ping_cache::PingCache;
use vigilant_guard::registry::Registry;

#[test]
fn registry_counts_each_address() {
    let mut registry = Registry::new();
    assert_eq!(registry.count("1.1.1.1"), None);
    assert_eq!(registry.len(), 0);
    registry.on_accept("1.1.1.1");
    registry.on_accept("1.1.1.1");
    registry.on_accept("2.2.2.2");
    registry.on_accept("1.1.1.1");
    assert_eq!(registry.count("1.1.1.1"), Some(3));
    assert_eq!(registry.count("2.2.2.2"), Some(1));
    assert_eq!(registry.count("3.3.3.3"), None);
    assert_eq!(registry.len(), 2);
}

#[test]
fn closing_gives_the_count_back_and_keeps_the_address() {
    let mut registry = Registry::new();
    registry.on_accept("1.1.1.1");
    registry.on_accept("2.2.2.2");
    registry.on_close("1.1.1.1");
    assert_eq!(registry.count("1.1.1.1"), Some(0));
    assert_eq!(registry.count("2.2.2.2"), Some(1));
    registry.on_close("1.1.1.1");
    assert_eq!(registry.count("1.1.1.1"), Some(0));
    registry.on_close("9.9.9.9");
    assert_eq!(registry.count("9.9.9.9"), None);
    assert_eq!(registry.len(), 2);
    registry.on_accept("1.1.1.1");
    assert_eq!(registry.count("1.1.1.1"), Some(1));
}

#[test]
fn accept_and_close_in_any_order_balance() {
    let mut registry = Registry::new();
    for _ in 0..5 {
        registry.on_accept("a");
        registry.on_accept("b");
    }
    for _ in 0..5 {
        registry.on_close("a");
    }
    assert_eq!(registry.count("a"), Some(0));
    assert_eq!(registry.count("b"), Some(5));
}

#[test]
fn ping_cache_remembers_an_address_once() {
    let mut cache = PingCache::new();
    assert!(!cache.contains_ip("1.1.1.1"));
    assert!(cache.remember(100, "1.1.1.1"));
    assert!(cache.contains_ip("1.1.1.1"));
    assert!(!cache.remember(101, "1.1.1.1"));
    assert_eq!(cache.since("1.1.1.1"), Some(100));
    assert_eq!(cache.len(), 1);
    assert!(cache.remember(101, "2.2.2.2"));
    assert_eq!(cache.len(), 2);
    assert!(!cache.contains_ip("3.3.3.3"));
    assert_eq!(cache.since("3.3.3.3"), None);
}

#[test]
fn ping_cache_forgets_on_eviction() {
    let mut cache = PingCache::new();
    cache.remember(100, "1.1.1.1");
    cache.remember(200, "2.2.2.2");
    cache.remove("1.1.1.1");
    assert!(!cache.contains_ip("1.1.1.1"));
    assert!(cache.contains_ip("2.2.2.2"));
    cache.remove("1.1.1.1");
    cache.remove("5.5.5.5");
    assert_eq!(cache.len(), 1);
    assert!(cache.remember(300, "1.1.1.1"));
    assert_eq!(cache.since("1.1.1.1"), Some(300));
}

#[test]
fn two_addresses_in_one_second_are_both_cached() {
    let mut cache = PingCache::new();
    assert!(cache.remember(100, "1.1.1.1"));
    assert!(cache.remember(100, "2.2.2.2"));
    assert!(cache.remember(-5, "3.3.3.3"));
    assert_eq!(cache.len(), 3);
    assert!(cache.contains_ip("1.1.1.1"));
    assert!(cache.contains_ip("2.2.2.2"));
    assert_eq!(cache.since("1.1.1.1"), Some(100));
    assert_eq!(cache.since("2.2.2.2"), Some(100));
    cache.remove("1.1.1.1");
    assert!(cache.contains_ip("2.2.2.2"));
    assert!(cache.contains_ip("3.3.3.3"));
}

#[test]
fn snapshot_lists_every_address_once() {
    let mut registry = Registry::new();
    assert_eq!(registry.snapshot(), vec![]);
    registry.on_accept("b");
    registry.on_accept("a");
    registry.on_accept("b");
    registry.on_close("a");
    let mut snapshot = registry.snapshot();
    snapshot.sort();
    assert_eq!(snapshot, vec![("a".to_string(), 0), ("b".to_string(), 2)]);
}
