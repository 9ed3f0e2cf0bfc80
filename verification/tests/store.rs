use redis_core::rdb::RedisData;
use redis_core::store::Store;

fn text(s: &str) -> String {
    s.to_string()
}

#[test]
fn new_store_holds_nothing() {
    let store = Store::new();
    assert_eq!(store.get("a", 0), None);
    assert_eq!(store.snapshot().store.len(), 0);
    assert_eq!(store.snapshot().expiry.len(), 0);
}

#[test]
fn value_without_ttl_is_read_back_at_any_time() {
    let mut store = Store::new();
    store.set(text("k"), text("v1"), None, 1_000);
    store.set(text("k"), text("v2"), None, 2_000);
    assert_eq!(store.get("k", 2_000), Some(text("v2")));
    assert_eq!(store.get("k", u64::MAX), Some(text("v2")));
    assert_eq!(store.delete_if_expired(u64::MAX), Vec::<String>::new());
    assert_eq!(store.get("k", u64::MAX), Some(text("v2")));
}

#[test]
fn value_with_ttl_is_read_back_until_the_deadline() {
    let mut store = Store::new();
    store.set(text("k"), text("v"), Some(3), 10_000);
    assert_eq!(store.get("k", 10_000), Some(text("v")));
    assert_eq!(store.get("k", 12_999), Some(text("v")));
    assert_eq!(store.get("k", 13_000), None);
    assert_eq!(store.get("k", 13_001), None);
}

#[test]
fn ttl_of_zero_expires_at_once() {
    let mut store = Store::new();
    store.set(text("k"), text("v"), Some(0), 500);
    assert_eq!(store.get("k", 500), None);
}

#[test]
fn largest_ttl_at_the_latest_instant_does_not_overflow() {
    let mut store = Store::new();
    store.set(text("k"), text("v"), Some(u64::MAX), u64::MAX);
    assert_eq!(store.get("k", u64::MAX), Some(text("v")));
    let data = store.snapshot();
    assert_eq!(
        data.expiry,
        vec![(text("k"), Some(u64::MAX as u128 + u64::MAX as u128 * 1000))]
    );
}

#[test]
fn write_without_ttl_clears_an_earlier_deadline() {
    let mut store = Store::new();
    store.set(text("k"), text("v"), Some(1), 0);
    store.set(text("k"), text("w"), None, 10);
    assert_eq!(store.get("k", 5_000), Some(text("w")));
    assert_eq!(store.snapshot().expiry, vec![(text("k"), None)]);
}

#[test]
fn write_with_ttl_replaces_value_and_deadline() {
    let mut store = Store::new();
    store.set(text("k"), text("v"), None, 0);
    store.set(text("k"), text("w"), Some(2), 100);
    assert_eq!(store.get("k", 2_099), Some(text("w")));
    assert_eq!(store.get("k", 2_100), None);
    assert_eq!(store.snapshot().store, vec![(text("k"), text("w"))]);
}

#[test]
fn same_write_twice_is_as_once() {
    let mut once = Store::new();
    once.set(text("k"), text("v"), None, 7);
    let mut twice = Store::new();
    twice.set(text("k"), text("v"), None, 7);
    twice.set(text("k"), text("v"), None, 9);
    assert_eq!(once.snapshot().store, twice.snapshot().store);
    assert_eq!(once.snapshot().expiry, twice.snapshot().expiry);
    assert_eq!(twice.get("k", 100), Some(text("v")));
}

#[test]
fn writes_to_distinct_keys_do_not_disturb_each_other() {
    let mut store = Store::new();
    for i in 0..50u64 {
        store.set(format!("key{}", i), format!("value{}", i), None, i);
    }
    for i in (0..50u64).rev() {
        assert_eq!(store.get(&format!("key{}", i), 1_000), Some(format!("value{}", i)));
    }
    assert_eq!(store.snapshot().store.len(), 50);
    assert_eq!(store.snapshot().expiry.len(), 50);
}

#[test]
fn keys_are_told_apart_exactly() {
    let mut store = Store::new();
    store.set(text("key"), text("1"), None, 0);
    assert_eq!(store.get("ke", 0), None);
    assert_eq!(store.get("keys", 0), None);
    assert_eq!(store.get("Key", 0), None);
    assert_eq!(store.get("", 0), None);
    store.set(text(""), text("empty"), None, 0);
    assert_eq!(store.get("", 0), Some(text("empty")));
    store.set(text("k\u{e9}"), text("accent"), None, 0);
    assert_eq!(store.get("k\u{e9}", 0), Some(text("accent")));
    assert_eq!(store.get("ke", 0), None);
}

#[test]
fn sweep_removes_exactly_the_expired() {
    let mut store = Store::new();
    store.set(text("a"), text("1"), Some(1), 0);
    store.set(text("b"), text("2"), Some(2), 0);
    store.set(text("c"), text("3"), None, 0);
    store.set(text("d"), text("4"), Some(1), 0);
    store.set(text("e"), text("5"), Some(3), 0);
    let mut removed = store.delete_if_expired(1_000);
    removed.sort();
    assert_eq!(removed, vec![text("a"), text("d")]);
    assert_eq!(store.get("a", 0), None);
    assert_eq!(store.get("d", 0), None);
    assert_eq!(store.get("b", 1_000), Some(text("2")));
    assert_eq!(store.get("c", 1_000), Some(text("3")));
    assert_eq!(store.get("e", 1_000), Some(text("5")));
    let mut keys: Vec<String> = store.snapshot().store.into_iter().map(|p| p.0).collect();
    keys.sort();
    assert_eq!(keys, vec![text("b"), text("c"), text("e")]);
}

#[test]
fn sweep_before_any_deadline_removes_nothing() {
    let mut store = Store::new();
    store.set(text("a"), text("1"), Some(1), 0);
    assert_eq!(store.delete_if_expired(999), Vec::<String>::new());
    assert_eq!(store.get("a", 999), Some(text("1")));
}

#[test]
fn sweep_of_everything_leaves_an_empty_store() {
    let mut store = Store::new();
    store.set(text("a"), text("1"), Some(1), 0);
    store.set(text("b"), text("2"), Some(1), 0);
    store.set(text("c"), text("3"), Some(1), 0);
    let mut removed = store.delete_if_expired(5_000);
    removed.sort();
    assert_eq!(removed, vec![text("a"), text("b"), text("c")]);
    assert_eq!(store.snapshot().store.len(), 0);
    assert_eq!(store.delete_if_expired(5_000), Vec::<String>::new());
}

#[test]
fn snapshot_lists_each_key_with_value_and_deadline() {
    let mut store = Store::new();
    store.set(text("a"), text("1"), None, 0);
    store.set(text("b"), text("2"), Some(5), 1_000);
    let data = store.snapshot();
    let mut values = data.store.clone();
    values.sort();
    let mut deadlines = data.expiry.clone();
    deadlines.sort();
    assert_eq!(values, vec![(text("a"), text("1")), (text("b"), text("2"))]);
    assert_eq!(deadlines, vec![(text("a"), None), (text("b"), Some(6_000u128))]);
}

#[test]
fn snapshot_round_trip_keeps_values_and_deadlines() {
    let mut store = Store::new();
    store.set(text("a"), text("1"), None, 0);
    store.set(text("b"), text("2"), Some(5), 1_000);
    store.set(text("c"), text("3"), Some(1), 1_000);
    let data = store.snapshot();
    let mut other = Store::new();
    other.set(text("old"), text("gone"), None, 0);
    other.restore(&data);
    assert_eq!(other.get("old", 0), None);
    for now in [0u64, 1_999, 2_000, 5_999, 6_000, 1_000_000] {
        for key in ["a", "b", "c", "missing"] {
            assert_eq!(other.get(key, now), store.get(key, now));
        }
    }
    let mut first = data.expiry.clone();
    first.sort();
    let mut second = other.snapshot().expiry;
    second.sort();
    assert_eq!(first, second);
}

#[test]
fn restore_takes_the_last_of_repeated_keys() {
    let data = RedisData {
        store: vec![(text("k"), text("first")), (text("j"), text("x")), (text("k"), text("last"))],
        expiry: vec![(text("k"), Some(10)), (text("k"), Some(20))],
    };
    let mut store = Store::new();
    store.restore(&data);
    assert_eq!(store.get("k", 19), Some(text("last")));
    assert_eq!(store.get("k", 20), None);
    assert_eq!(store.get("j", u64::MAX), Some(text("x")));
    assert_eq!(store.snapshot().store.len(), 2);
}

#[test]
fn restore_ignores_a_deadline_without_a_value() {
    let data = RedisData {
        store: vec![(text("a"), text("1"))],
        expiry: vec![(text("ghost"), Some(10)), (text("a"), None)],
    };
    let mut store = Store::new();
    store.restore(&data);
    assert_eq!(store.get("ghost", 0), None);
    assert_eq!(store.get("a", 1_000), Some(text("1")));
    assert_eq!(store.snapshot().store, vec![(text("a"), text("1"))]);
    assert_eq!(store.snapshot().expiry, vec![(text("a"), None)]);
}

#[test]
fn restore_gives_no_deadline_to_a_value_without_one() {
    let data = RedisData { store: vec![(text("a"), text("1"))], expiry: vec![] };
    let mut store = Store::new();
    store.restore(&data);
    assert_eq!(store.get("a", u64::MAX), Some(text("1")));
}

#[test]
fn restored_entry_past_its_deadline_is_expired() {
    let data = RedisData {
        store: vec![(text("a"), text("1"))],
        expiry: vec![(text("a"), Some(5_000))],
    };
    let mut store = Store::new();
    store.restore(&data);
    assert_eq!(store.get("a", 5_000), None);
    assert_eq!(store.get("a", 9_000), None);
    assert_eq!(store.delete_if_expired(9_000), vec![text("a")]);
}
