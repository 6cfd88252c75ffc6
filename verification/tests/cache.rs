use quote_tables::cache::{CacheKey, TimeWindowCache, DEFAULT_CAPACITY, DEFAULT_TTL_MILLIS};
use quote_tables::calendar::DateTime;

fn instant(seconds: i64) -> DateTime {
    DateTime::new(seconds, 0, 0).unwrap()
}

fn key(ticker: &str) -> CacheKey {
    CacheKey::new(vec![ticker.to_string()], &instant(0), &instant(100), None)
}

#[test]
fn a_value_stored_is_given_back() {
    let mut cache: TimeWindowCache<u32> = TimeWindowCache::new(4, 1000);
    assert_eq!(cache.get(&key("A"), 0), None);
    cache.insert(key("A"), 7, 0);
    assert_eq!(cache.get(&key("A"), 1), Some(7));
    assert_eq!(cache.get(&key("B"), 1), None);
    assert_eq!(cache.len(), 1);
    assert_eq!(cache.capacity(), 4);
    assert_eq!(cache.ttl(), 1000);
}

#[test]
fn storing_twice_is_storing_once() {
    let mut cache: TimeWindowCache<u32> = TimeWindowCache::new(4, 1000);
    cache.insert(key("A"), 7, 0);
    cache.insert(key("A"), 7, 5);
    assert_eq!(cache.len(), 1);
    assert_eq!(cache.get(&key("A"), 10), Some(7));
    assert_eq!(cache.get(&key("A"), 1005), Some(7));
    assert_eq!(cache.get(&key("A"), 1006), None);
}

#[test]
fn an_entry_lives_up_to_the_end_of_its_time() {
    let mut cache: TimeWindowCache<u32> = TimeWindowCache::new(4, 300);
    cache.insert(key("A"), 1, 1000);
    assert_eq!(cache.get(&key("A"), 1300), Some(1));
    assert_eq!(cache.get(&key("A"), 1301), None);
    assert_eq!(cache.len(), 0);
    // Once dropped it stays dropped, also for a reader whose clock is late.
    assert_eq!(cache.get(&key("A"), 1000), None);
}

#[test]
fn a_new_value_after_the_time_is_the_one_given() {
    let mut cache: TimeWindowCache<u32> = TimeWindowCache::new(4, 300);
    cache.insert(key("A"), 1, 1000);
    cache.insert(key("A"), 2, 2000);
    assert_eq!(cache.get(&key("A"), 2001), Some(2));
    assert_eq!(cache.get(&key("A"), 2300), Some(2));
    assert_eq!(cache.get(&key("A"), 2301), None);
    cache.insert(key("B"), 1, 1000);
    assert_eq!(cache.get(&key("B"), 5000), None);
    cache.insert(key("B"), 2, 5000);
    assert_eq!(cache.get(&key("B"), 5000), Some(2));
}

#[test]
fn one_key_over_the_capacity_evicts_the_first() {
    let capacity = 10;
    let mut cache: TimeWindowCache<usize> = TimeWindowCache::new(capacity, 1000);
    for i in 0..=capacity {
        cache.insert(key(&format!("T{}", i)), i, i as u64);
    }
    assert_eq!(cache.len(), capacity);
    assert_eq!(cache.get(&key("T0"), 20), None);
    let held = (1..=capacity)
        .filter(|i| cache.get(&key(&format!("T{}", i)), 20) == Some(*i))
        .count();
    assert_eq!(held, capacity);
}

#[test]
fn the_entry_used_least_recently_leaves() {
    let mut cache: TimeWindowCache<u32> = TimeWindowCache::new(3, 1000);
    cache.insert(key("A"), 1, 0);
    cache.insert(key("B"), 2, 1);
    cache.insert(key("C"), 3, 2);
    assert_eq!(cache.get(&key("A"), 3), Some(1));
    cache.insert(key("D"), 4, 4);
    assert_eq!(cache.get(&key("B"), 5), None);
    assert_eq!(cache.get(&key("A"), 5), Some(1));
    assert_eq!(cache.get(&key("C"), 5), Some(3));
    assert_eq!(cache.get(&key("D"), 5), Some(4));
    // To store again is a use too.
    cache.insert(key("A"), 10, 6);
    cache.insert(key("E"), 5, 7);
    assert_eq!(cache.get(&key("C"), 8), None);
    assert_eq!(cache.get(&key("A"), 8), Some(10));
    assert_eq!(cache.len(), 3);
}

#[test]
fn a_cache_without_room_holds_nothing() {
    let mut cache: TimeWindowCache<u32> = TimeWindowCache::new(0, 1000);
    cache.insert(key("A"), 1, 0);
    assert_eq!(cache.len(), 0);
    assert_eq!(cache.get(&key("A"), 0), None);
}

#[test]
fn defaults_are_ten_entries_and_five_minutes() {
    assert_eq!(DEFAULT_CAPACITY, 10);
    assert_eq!(DEFAULT_TTL_MILLIS, 5 * 60 * 1000);
    let mut cache: TimeWindowCache<u32> = TimeWindowCache::default();
    assert_eq!(cache.capacity(), 10);
    assert_eq!(cache.ttl(), 300_000);
    assert_eq!(cache.len(), 0);
    for i in 0..11u32 {
        cache.insert(key(&i.to_string()), i, 0);
    }
    assert_eq!(cache.len(), 10);
    assert_eq!(cache.get(&key("0"), 300_000), None);
    assert_eq!(cache.get(&key("1"), 300_000), Some(1));
    assert_eq!(cache.get(&key("2"), 300_001), None);
}

#[test]
fn keys_tell_requests_apart() {
    let tickers = |list: &[&str]| list.iter().map(|s| s.to_string()).collect::<Vec<String>>();
    let base = CacheKey::new(tickers(&["A", "B"]), &instant(0), &instant(100), None);
    let same = CacheKey::new(tickers(&["A", "B"]), &instant(0), &instant(100), None);
    assert!(base.same_as(&same));
    assert!(base.same_as(&base.clone()));
    let other_offset = CacheKey::new(
        tickers(&["A", "B"]),
        &DateTime::new(0, 0, 3600).unwrap(),
        &DateTime::new(100, 0, -7200).unwrap(),
        None,
    );
    assert!(base.same_as(&other_offset));
    let different = [
        CacheKey::new(tickers(&["B", "A"]), &instant(0), &instant(100), None),
        CacheKey::new(tickers(&["A"]), &instant(0), &instant(100), None),
        CacheKey::new(tickers(&["A", "B", "C"]), &instant(0), &instant(100), None),
        CacheKey::new(tickers(&["A", "B"]), &instant(1), &instant(100), None),
        CacheKey::new(tickers(&["A", "B"]), &instant(0), &instant(101), None),
        CacheKey::new(tickers(&["A", "B"]), &DateTime::new(0, 1, 0).unwrap(), &instant(100), None),
        CacheKey::new(tickers(&["A", "B"]), &instant(0), &instant(100), Some(tickers(&["open"]))),
        CacheKey::new(tickers(&["A", "B"]), &instant(0), &instant(100), Some(Vec::new())),
    ];
    for k in &different {
        assert!(!base.same_as(k));
        assert!(!k.same_as(&base));
    }
    let open = CacheKey::new(tickers(&["A"]), &instant(0), &instant(1), Some(tickers(&["open"])));
    let close = CacheKey::new(tickers(&["A"]), &instant(0), &instant(1), Some(tickers(&["close"])));
    let both =
        CacheKey::new(tickers(&["A"]), &instant(0), &instant(1), Some(tickers(&["open", "close"])));
    assert!(!open.same_as(&close));
    assert!(!open.same_as(&both));
    assert!(both.same_as(&both.clone()));
}
