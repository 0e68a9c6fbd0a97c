use daily_recap::record::{Digest, Summary};
use daily_recap::store::{Store, StoreError};

fn summary(id: i64, text: &str, timestamp: i64) -> Summary {
    Summary::new(id, text.to_string(), timestamp)
}

fn store_with(rows: Vec<Summary>) -> Store {
    let mut store = Store::new();
    for row in rows {
        assert_eq!(store.add_summary(row), Ok(()));
    }
    store
}

#[test]
fn new_store_is_empty() {
    let store = Store::new();
    assert!(store.summaries().is_empty());
    assert!(store.digests().is_empty());
    assert_eq!(store.latest_digest(), None);
}

#[test]
fn summaries_are_kept_in_order_of_arrival() {
    let store = store_with(vec![summary(2, "b", 20), summary(1, "a", 10)]);
    assert_eq!(store.summaries(), &vec![summary(2, "b", 20), summary(1, "a", 10)]);
    assert!(store.holds(1));
    assert!(store.holds(2));
    assert!(!store.holds(3));
}

#[test]
fn duplicate_summary_is_refused() {
    let mut store = store_with(vec![summary(1, "a", 10)]);
    assert_eq!(store.add_summary(summary(1, "other", 11)), Err(StoreError::DuplicateSummary));
    assert_eq!(store.summaries(), &vec![summary(1, "a", 10)]);
}

#[test]
fn summaries_since_is_inclusive_and_ascending() {
    let store = store_with(vec![summary(3, "c", 30), summary(1, "a", 10), summary(2, "b", 20)]);
    assert_eq!(store.summaries_since(Some(20)), vec![summary(2, "b", 20), summary(3, "c", 30)]);
    assert_eq!(
        store.summaries_since(None),
        vec![summary(1, "a", 10), summary(2, "b", 20), summary(3, "c", 30)]
    );
    assert!(store.summaries_since(Some(31)).is_empty());
}

#[test]
fn insert_digest_writes_text_and_linkage_together() {
    let mut store = store_with(vec![summary(1, "a", 10), summary(2, "b", 20)]);
    assert_eq!(store.insert_digest("ab".to_string(), vec![1, 2], 25), Ok(1));
    assert_eq!(
        store.digests(),
        &vec![Digest { id: 1, text: "ab".to_string(), timestamp: 25, covers: vec![1, 2] }]
    );
    assert_eq!(store.latest_digest(), Some((1, 25)));
}

#[test]
fn digests_are_numbered_in_order() {
    let mut store = store_with(vec![summary(1, "a", 10)]);
    assert_eq!(store.insert_digest("x".to_string(), vec![1], 11), Ok(1));
    assert_eq!(store.insert_digest("y".to_string(), vec![1], 11), Ok(2));
    assert_eq!(store.insert_digest("z".to_string(), vec![], 12), Ok(3));
    assert_eq!(store.latest_digest(), Some((3, 12)));
    assert_eq!(store.digests().len(), 3);
}

#[test]
fn interrupted_write_leaves_no_partial_digest() {
    let mut store = store_with(vec![summary(1, "a", 10), summary(2, "b", 20)]);
    assert_eq!(store.insert_digest("first".to_string(), vec![1], 15), Ok(1));
    // The second linkage row cannot be written: nothing of the digest stays.
    assert_eq!(
        store.insert_digest("second".to_string(), vec![2, 99, 1], 30),
        Err(StoreError::UnknownSummary)
    );
    assert_eq!(
        store.digests(),
        &vec![Digest { id: 1, text: "first".to_string(), timestamp: 15, covers: vec![1] }]
    );
    assert_eq!(store.latest_digest(), Some((1, 15)));
    assert_eq!(store.summaries().len(), 2);
}

#[test]
fn clock_moving_back_is_refused() {
    let mut store = store_with(vec![summary(1, "a", 10)]);
    assert_eq!(store.insert_digest("x".to_string(), vec![1], 50), Ok(1));
    assert_eq!(store.insert_digest("y".to_string(), vec![1], 49), Err(StoreError::ClockRegressed));
    assert_eq!(store.digests().len(), 1);
    assert_eq!(store.latest_digest(), Some((1, 50)));
}

#[test]
fn unknown_summary_is_reported_before_the_clock() {
    let mut store = store_with(vec![summary(1, "a", 10)]);
    assert_eq!(store.insert_digest("x".to_string(), vec![1], 50), Ok(1));
    assert_eq!(store.insert_digest("y".to_string(), vec![2], 0), Err(StoreError::UnknownSummary));
}

#[test]
fn cursor_never_moves_back() {
    let mut store = store_with(vec![summary(1, "a", 10)]);
    let mut last = i64::MIN;
    for now in [5, 5, 9, 3, 12, 11, 12] {
        let _ = store.insert_digest("t".to_string(), vec![1], now);
        let (_, cursor) = store.latest_digest().unwrap();
        assert!(cursor >= last);
        last = cursor;
    }
    assert_eq!(last, 12);
    assert_eq!(store.digests().len(), 5);
}

#[test]
fn digest_clone_is_equal() {
    let d = Digest { id: 3, text: "t".to_string(), timestamp: 9, covers: vec![4, 5] };
    assert_eq!(d.clone(), d);
}
