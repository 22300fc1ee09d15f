use kvforge::{Duration, Store};

/// Waits until a number of milliseconds has passed.
fn wait_millis(millis: u128) {
    let start = std::time::Instant::now();
    while start.elapsed().as_millis() < millis {}
}

fn key(s: &str) -> Vec<u8> {
    s.as_bytes().to_vec()
}

#[test]
fn set_then_get_returns_value() {
    let mut store = Store::new();
    store.set(key("a"), b"1".to_vec());
    assert_eq!(store.get(&key("a")), Some(b"1".to_vec()));
}

#[test]
fn get_missing_key_returns_none() {
    let mut store = Store::new();
    assert_eq!(store.get(&key("missing")), None);
}

#[test]
fn set_overwrites_existing_value() {
    let mut store = Store::new();
    store.set(key("a"), b"1".to_vec());
    store.set(key("a"), b"2".to_vec());
    assert_eq!(store.get(&key("a")), Some(b"2".to_vec()));
}

#[test]
fn del_removes_key_and_reports_presence() {
    let mut store = Store::new();
    store.set(key("a"), b"1".to_vec());
    assert!(store.del(&key("a")));
    assert!(!store.del(&key("a")));
    assert_eq!(store.get(&key("a")), None);
}

#[test]
fn exists_reflects_current_state() {
    let mut store = Store::new();
    assert!(!store.contains_key(&key("a")));
    store.set(key("a"), b"1".to_vec());
    assert!(store.contains_key(&key("a")));
}

#[test]
fn ttl_of_key_without_expiry_is_some_none() {
    let mut store = Store::new();
    store.set(key("a"), b"1".to_vec());
    assert_eq!(store.ttl(&key("a")), Some(None));
}

#[test]
fn ttl_of_missing_key_is_none() {
    let mut store = Store::new();
    assert_eq!(store.ttl(&key("a")), None);
}

#[test]
fn set_with_ttl_expires_key() {
    let mut store = Store::new();
    store.set_with_ttl(key("a"), b"1".to_vec(), Duration::from_millis(20));
    assert_eq!(store.get(&key("a")), Some(b"1".to_vec()));
    wait_millis(40);
    assert_eq!(store.get(&key("a")), None);
}

#[test]
fn expire_sets_ttl_on_existing_key() {
    let mut store = Store::new();
    store.set(key("a"), b"1".to_vec());
    assert!(store.expire(&key("a"), Duration::from_millis(20)));
    assert!(store.ttl(&key("a")).unwrap().is_some());
    wait_millis(40);
    assert_eq!(store.get(&key("a")), None);
}

#[test]
fn expire_on_missing_key_returns_false() {
    let mut store = Store::new();
    assert!(!store.expire(&key("a"), Duration::from_secs(1)));
}

#[test]
fn len_and_is_empty_track_live_entries() {
    let mut store = Store::new();
    assert!(store.is_empty());
    store.set(key("a"), b"1".to_vec());
    store.set(key("b"), b"2".to_vec());
    assert_eq!(store.len(), 2);
    store.del(&key("a"));
    assert_eq!(store.len(), 1);
    assert!(!store.is_empty());
}

#[test]
fn flush_clears_all_entries() {
    let mut store = Store::new();
    store.set(key("a"), b"1".to_vec());
    store.set(key("b"), b"2".to_vec());
    store.flush();
    assert!(store.is_empty());
}

#[test]
fn purge_expired_removes_only_expired_entries() {
    let mut store = Store::new();
    store.set(key("live"), b"1".to_vec());
    store.set_with_ttl(key("dead"), b"2".to_vec(), Duration::from_millis(10));
    wait_millis(30);
    let removed = store.purge_expired();
    assert_eq!(removed, 1);
    assert_eq!(store.len(), 1);
    assert!(store.contains_key(&key("live")));
}

fn at(millis: u64) -> Duration {
    Duration::from_millis(millis)
}

#[test]
fn a_key_expires_when_its_time_to_live_has_passed() {
    let mut store = Store::default();
    store.set_with_ttl_at(key("a"), key("1"), at(10), at(5));
    assert_eq!(store.get_at(&key("a"), at(14)), Some(key("1")));
    assert!(store.contains_key_at(&key("a"), at(14)));
    assert_eq!(store.ttl_at(&key("a"), at(14)), Some(Some(at(1))));
    assert_eq!(store.ttl_at(&key("a"), at(15)), None);
    assert!(!store.expire_at(&key("a"), at(10), at(15)));
    assert_eq!(store.len(), 1);
    assert_eq!(store.get_at(&key("a"), at(15)), None);
    assert_eq!(store.len(), 0);
}

#[test]
fn a_read_removes_what_has_expired() {
    let mut store = Store::new();
    store.set_with_ttl_at(key("a"), key("1"), at(10), at(0));
    assert!(!store.contains_key_at(&key("a"), at(10)));
    assert!(store.is_empty());
    assert!(!store.del(&key("a")));
}

#[test]
fn a_delete_reports_what_has_expired_but_is_still_there() {
    let mut store = Store::new();
    store.set_with_ttl_at(key("a"), key("1"), at(10), at(0));
    assert_eq!(store.ttl_at(&key("a"), at(20)), None);
    assert!(store.del(&key("a")));
}

#[test]
fn a_new_time_to_live_counts_from_when_it_is_given() {
    let mut store = Store::new();
    store.set_with_ttl_at(key("a"), key("1"), at(10), at(0));
    assert!(store.expire_at(&key("a"), at(100), at(9)));
    assert_eq!(store.get_at(&key("a"), at(108)), Some(key("1")));
    assert_eq!(store.get_at(&key("a"), at(109)), None);
}

#[test]
fn setting_a_key_again_takes_its_time_to_live_away() {
    let mut store = Store::new();
    store.set_with_ttl_at(key("a"), key("1"), at(10), at(0));
    store.set(key("a"), key("2"));
    assert_eq!(store.ttl_at(&key("a"), at(1000)), Some(None));
    assert_eq!(store.get_at(&key("a"), at(1000)), Some(key("2")));
}

#[test]
fn a_time_to_live_of_nothing_expires_at_once() {
    let mut store = Store::new();
    store.set_with_ttl_at(key("a"), key("1"), at(0), at(7));
    assert_eq!(store.get_at(&key("a"), at(7)), None);
}

#[test]
fn the_longest_time_to_live_is_reported_in_full() {
    let mut store = Store::new();
    let longest = Duration::from_nanos_saturating(u128::MAX);
    store.set_with_ttl_at(key("a"), key("1"), longest, at(7));
    assert_eq!(store.ttl_at(&key("a"), at(7)), Some(Some(longest)));
    assert_eq!(store.ttl_at(&key("a"), at(6)), Some(Some(longest)));
}

#[test]
fn a_sweep_takes_what_has_expired_and_leaves_the_rest() {
    let mut store = Store::new();
    for n in 0..100u64 {
        let name = format!("key {n}");
        store.set_with_ttl_at(key(&name), key(&name), at(n), at(0));
    }
    store.set(key("stays"), key("1"));
    assert_eq!(store.purge_expired_at(at(49)), 50);
    assert_eq!(store.purge_expired_at(at(49)), 0);
    assert_eq!(store.len(), 51);
    for n in 0..100u64 {
        let name = format!("key {n}");
        let expected = if n > 49 { Some(key(&name)) } else { None };
        assert_eq!(store.get_at(&key(&name), at(49)), expected);
    }
    assert_eq!(store.get_at(&key("stays"), at(1_000_000)), Some(key("1")));
}

#[test]
fn keys_do_not_disturb_each_other() {
    let mut store = Store::new();
    for n in 0..500u32 {
        store.set(n.to_le_bytes().to_vec(), vec![1]);
    }
    for n in (0..500u32).step_by(3) {
        assert!(store.del(&n.to_le_bytes()));
    }
    for n in 0..500u32 {
        let expected = if n % 3 == 0 { None } else { Some(vec![1]) };
        assert_eq!(store.get(&n.to_le_bytes()), expected);
    }
    store.flush();
    assert!(store.is_empty());
    assert_eq!(store.get(&1u32.to_le_bytes()), None);
}
