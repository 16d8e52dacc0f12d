use song_catalog::catalog::{Catalog, CatalogError, Query};
use song_catalog::store::Store;

#[test]
fn scenario_insert_play_search_not_found() {
    let mut store = Store::new(Catalog::new());
    let r = store.insert("Rocket Man".to_string(), "Elton John".to_string(), "Rock".to_string());
    assert_eq!(r.id, 1);
    assert_eq!(r.play_count, 0);
    let played = store.increment_play(1).unwrap();
    assert_eq!(played.play_count, 1);
    let q = Query { title: None, artist: None, genre: Some("rock".to_string()) };
    let found = store.search(&q);
    assert_eq!(found.len(), 1);
    assert_eq!(found[0].title, "Rocket Man");
    assert!(matches!(store.increment_play(999), Err(CatalogError::NotFound)));
}

fn fresh_store() -> Store {
    Store::new(Catalog::new())
}

#[test]
fn new_store_is_clean() {
    let store = fresh_store();
    assert!(!store.dirty);
    assert!(!store.flushing);
    assert!(!store.should_flush(0));
}

#[test]
fn mutations_mark_dirty() {
    let mut store = fresh_store();
    store.insert("t".to_string(), "a".to_string(), "g".to_string());
    assert!(store.dirty);
}

#[test]
fn failed_increment_does_not_mark_dirty() {
    let mut store = fresh_store();
    assert!(store.increment_play(4).is_err());
    assert!(!store.dirty);
}

#[test]
fn flush_fires_only_when_dirty_and_at_threshold() {
    let mut store = fresh_store();
    // clean store at size 0: no flush however small the threshold
    assert!(!store.should_flush(0));
    store.insert("t".to_string(), "a".to_string(), "g".to_string());
    // dirty but below threshold
    assert!(!store.should_flush(2));
    assert!(store.poll_flush(2).is_none());
    assert!(store.dirty);
    // dirty and at threshold
    assert!(store.should_flush(1));
    let snap = store.poll_flush(1);
    assert!(snap.is_some());
    assert_eq!(snap.unwrap().records.len(), 1);
    store.end_flush(true);
    // clean again: size alone does not trigger a flush
    assert!(!store.should_flush(1));
    assert!(store.poll_flush(1).is_none());
}

#[test]
fn scenario_thousand_below_threshold_then_one_flush() {
    let mut store = fresh_store();
    let threshold = 1001;
    for i in 0..1000 {
        store.insert(format!("song {}", i), "a".to_string(), "g".to_string());
        assert!(store.dirty);
        assert!(store.poll_flush(threshold).is_none());
        assert!(store.dirty);
    }
    // the store crosses the threshold: exactly one flush fires
    store.insert("one more".to_string(), "a".to_string(), "g".to_string());
    let snap = store.poll_flush(threshold);
    assert!(snap.is_some());
    assert_eq!(snap.unwrap().records.len(), 1001);
    assert!(!store.dirty);
    store.end_flush(true);
    assert!(!store.dirty);
    assert!(store.poll_flush(threshold).is_none());
}

#[test]
fn failed_flush_restores_dirty_and_retries() {
    let mut store = fresh_store();
    store.insert("t".to_string(), "a".to_string(), "g".to_string());
    let snap = store.poll_flush(1);
    assert!(snap.is_some());
    assert!(!store.dirty);
    store.end_flush(false);
    assert!(store.dirty);
    // the next poll retries
    let again = store.poll_flush(1);
    assert!(again.is_some());
    store.end_flush(true);
    assert!(!store.dirty);
}

#[test]
fn mutation_during_flush_is_kept_for_the_next_cycle() {
    let mut store = fresh_store();
    store.insert("t".to_string(), "a".to_string(), "g".to_string());
    let snap = store.poll_flush(1).unwrap();
    assert_eq!(snap.records.len(), 1);
    // a mutation lands while the write is out
    store.insert("u".to_string(), "a".to_string(), "g".to_string());
    assert!(store.dirty);
    store.end_flush(true);
    // the store stays dirty: the late mutation awaits the next flush
    assert!(store.dirty);
    assert_eq!(store.len(), 2);
    let next = store.poll_flush(1);
    assert!(next.is_some());
    assert_eq!(next.unwrap().records.len(), 2);
}

#[test]
fn snapshot_leaves_live_store_usable() {
    let mut store = fresh_store();
    store.insert("t".to_string(), "a".to_string(), "g".to_string());
    let snap = store.poll_flush(1).unwrap();
    assert_eq!(snap.next_id, 2);
    // foreground reads and writes go on while flushing
    assert!(store.get(1).is_some());
    let played = store.increment_play(1).unwrap();
    assert_eq!(played.play_count, 1);
    store.end_flush(true);
    assert_eq!(store.get(1).unwrap().play_count, 1);
}
