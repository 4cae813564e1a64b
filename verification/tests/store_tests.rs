use pingd::measurement::Measurement;
use pingd::store::Store;

fn row(t: i64, missing: bool, latency_us: u64) -> Measurement {
    Measurement::new(String::from("example.net"), t, missing, latency_us)
}

#[test]
fn fresh_store_is_empty() {
    let store = Store::open_in_memory().unwrap();
    let rows = store.query(None).unwrap();
    assert_eq!(rows.len(), 0);
}

#[test]
fn each_insert_adds_one_row() {
    let mut store = Store::open_in_memory().unwrap();
    for n in 1..=5i64 {
        store.insert(&row(1_000 + n, false, 42_000)).unwrap();
        let rows = store.query(None).unwrap();
        assert_eq!(rows.len(), n as usize);
    }
}

#[test]
fn chronological_inserts_come_back_newest_first() {
    let mut store = Store::open_in_memory().unwrap();
    for t in [100i64, 200, 200, 300] {
        store.insert(&row(t, false, 10_000)).unwrap();
    }
    let rows = store.query(None).unwrap();
    assert_eq!(rows.len(), 4);
    let stamps: Vec<i64> = rows.iter().map(|m| m.timestamp).collect();
    assert_eq!(stamps, vec![300, 200, 200, 100]);
}

#[test]
fn query_limit_takes_the_most_recent() {
    let mut store = Store::open_in_memory().unwrap();
    for t in [500i64, 100, 400, 200, 300] {
        store.insert(&row(t, false, 1_000)).unwrap();
    }
    let rows = store.query(Some(3)).unwrap();
    let stamps: Vec<i64> = rows.iter().map(|m| m.timestamp).collect();
    assert_eq!(stamps, vec![500, 400, 300]);
}

#[test]
fn query_limit_beyond_total_returns_all() {
    let mut store = Store::open_in_memory().unwrap();
    for t in [7i64, 9, 8] {
        store.insert(&row(t, false, 1_000)).unwrap();
    }
    let rows = store.query(Some(100)).unwrap();
    let stamps: Vec<i64> = rows.iter().map(|m| m.timestamp).collect();
    assert_eq!(stamps, vec![9, 8, 7]);
}

#[test]
fn query_limit_zero_returns_nothing() {
    let mut store = Store::open_in_memory().unwrap();
    store.insert(&row(1, false, 1_000)).unwrap();
    let rows = store.query(Some(0)).unwrap();
    assert_eq!(rows.len(), 0);
}

#[test]
fn unstorable_latency_fails_and_changes_nothing() {
    // a latency beyond the row store's integer range is refused by the
    // backend, and a failed insert leaves the log unchanged
    let mut store = Store::open_in_memory().unwrap();
    store.insert(&row(1, false, 1_000)).unwrap();
    let r = store.insert(&row(2, false, u64::MAX));
    assert!(r.is_err());
    assert!(!r.unwrap_err().message.is_empty());
    let rows = store.query(None).unwrap();
    assert_eq!(rows.len(), 1);
    assert_eq!(rows[0].timestamp, 1);
}

#[test]
fn rows_keep_their_fields() {
    let mut store = Store::open_in_memory().unwrap();
    store.insert(&row(123, true, 0)).unwrap();
    store.insert(&row(456, false, 98_765)).unwrap();
    let rows = store.query(None).unwrap();
    assert_eq!(rows[0].host, "example.net");
    assert_eq!(rows[0].timestamp, 456);
    assert!(!rows[0].missing);
    assert_eq!(rows[0].latency_us, 98_765);
    assert_eq!(rows[1].timestamp, 123);
    assert!(rows[1].missing);
    assert_eq!(rows[1].latency_us, 0);
}
