use vnts::expire::ExpireMap;

#[test]
fn test_expire_map() {
    let mut t1: ExpireMap<String, &str> = ExpireMap::new();
    let keys = [
        "a1", "a2", "a3", "a4", "a5", "a6", "a7", "a8", "a9", "aa", "ab",
    ];
    for k in keys.iter() {
        t1.insert(0, k.to_string(), "v1", 2000);
    }
    assert_eq!(t1.size(), 11);
    let v = t1.get_val(&"a1".to_string()).copied();
    println!("a: {}", v.unwrap());
    assert_eq!(v, Some("v1"));
    // thirty-five seconds later every entry has expired
    let gone = t1.take_expired(35_000);
    assert_eq!(gone.len(), 11);
    assert_eq!(t1.size(), 0);
}

#[test]
fn renewal_defers_eviction() {
    let mut m: ExpireMap<String, u32> = ExpireMap::new();
    m.insert(0, "k".to_string(), 7, 1000);
    // renewed at 900: the new deadline is 1900
    assert!(m.get_and_renew(900, &"k".to_string()).is_some());
    let gone = m.take_expired(1800);
    assert!(gone.is_empty());
    assert_eq!(m.size(), 1);
    // one period after the last renewal the entry goes
    let gone2 = m.take_expired(1900);
    assert_eq!(gone2.len(), 1);
    assert_eq!(gone2[0].val, 7);
    assert_eq!(m.size(), 0);
}

#[test]
fn scheduled_check_respects_pushed_deadline() {
    let mut m: ExpireMap<String, u32> = ExpireMap::new();
    m.insert(0, "k".to_string(), 1, 1000);
    // a check that fires before the deadline does nothing
    assert!(m.check_expired(999, &"k".to_string()).is_none());
    assert_eq!(m.size(), 1);
    // the deadline is pushed by a renewal; the old check must not evict
    assert!(m.get_and_renew(999, &"k".to_string()).is_some());
    assert!(m.check_expired(1000, &"k".to_string()).is_none());
    // the pushed deadline passes: the entry is evicted and handed back
    let e = m.check_expired(1999, &"k".to_string()).unwrap();
    assert_eq!(e.val, 1);
    assert_eq!(m.size(), 0);
}

#[test]
fn insert_replaces_and_keeps_others() {
    let mut m: ExpireMap<String, u32> = ExpireMap::new();
    m.insert(0, "x".to_string(), 1, 100);
    m.insert(0, "y".to_string(), 2, 100);
    m.insert(50, "x".to_string(), 3, 200);
    assert_eq!(m.size(), 2);
    assert_eq!(m.get_val(&"x".to_string()), Some(&3));
    assert_eq!(m.get_val(&"y".to_string()), Some(&2));
    // x now expires at 250, y still at 100
    let gone = m.take_expired(150);
    assert_eq!(gone.len(), 1);
    assert_eq!(gone[0].val, 2);
    assert_eq!(m.get_val(&"x".to_string()), Some(&3));
}

#[test]
fn optionally_get_with_keeps_existing() {
    let mut m: ExpireMap<String, u32> = ExpireMap::new();
    let i = m.optionally_get_with(0, "g".to_string(), 1000, 41);
    assert_eq!(*m.val_at(i), 41);
    // a second call renews but does not replace
    let j = m.optionally_get_with(500, "g".to_string(), 9999, 42);
    assert_eq!(*m.val_at(j), 41);
    assert_eq!(m.size(), 1);
    // renewed at 500 with the original period: alive at 1400, gone at 1500
    assert!(m.take_expired(1400).is_empty());
    assert_eq!(m.take_expired(1500).len(), 1);
}

#[test]
fn remove_hands_entry_back() {
    let mut m: ExpireMap<String, u32> = ExpireMap::new();
    m.insert(0, "k".to_string(), 9, 100);
    let e = m.remove(&"k".to_string()).unwrap();
    assert_eq!(e.val, 9);
    assert!(m.remove(&"k".to_string()).is_none());
    assert_eq!(m.size(), 0);
}

#[test]
fn key_values_snapshots_entries() {
    let mut m: ExpireMap<String, u32> = ExpireMap::new();
    m.insert(0, "a".to_string(), 1, 100);
    m.insert(0, "b".to_string(), 2, 100);
    let kv = m.key_values();
    assert_eq!(kv.len(), 2);
    assert_eq!(kv[0], ("a".to_string(), 1));
    assert_eq!(kv[1], ("b".to_string(), 2));
}
