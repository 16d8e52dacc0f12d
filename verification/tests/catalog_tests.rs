use song_catalog::catalog::{Catalog, CatalogError, Query};
use song_catalog::record::Record;

fn query(title: Option<&str>, artist: Option<&str>, genre: Option<&str>) -> Query {
    Query {
        title: title.map(|s| s.to_string()),
        artist: artist.map(|s| s.to_string()),
        genre: genre.map(|s| s.to_string()),
    }
}

fn sample_catalog() -> Catalog {
    let mut c = Catalog::new();
    c.insert("Rocket Man".to_string(), "Elton John".to_string(), "Rock".to_string());
    c.insert("Tiny Dancer".to_string(), "Elton John".to_string(), "Rock".to_string());
    c.insert("Take Five".to_string(), "Dave Brubeck".to_string(), "Jazz".to_string());
    c
}

#[test]
fn insert_assigns_distinct_increasing_ids() {
    let mut c = Catalog::new();
    let mut prev: u64 = 0;
    for i in 0..5 {
        let r = c.insert(format!("song {}", i), "a".to_string(), "g".to_string());
        assert!(r.id > prev);
        prev = r.id;
    }
    assert_eq!(prev, 5);
}

#[test]
fn insert_returns_stored_record() {
    let mut c = Catalog::new();
    let r = c.insert("Rocket Man".to_string(), "Elton John".to_string(), "Rock".to_string());
    assert_eq!(r.id, 1);
    assert_eq!(r.title, "Rocket Man");
    assert_eq!(r.artist, "Elton John");
    assert_eq!(r.genre, "Rock");
    assert_eq!(r.play_count, 0);
}

#[test]
fn get_finds_by_id() {
    let c = sample_catalog();
    let r = c.get(2).unwrap();
    assert_eq!(r.title, "Tiny Dancer");
    assert!(c.get(99).is_none());
}

#[test]
fn increment_play_adds_exactly_one() {
    let mut c = sample_catalog();
    let r = c.increment_play(1).unwrap();
    assert_eq!(r.id, 1);
    assert_eq!(r.play_count, 1);
    let r = c.increment_play(1).unwrap();
    assert_eq!(r.play_count, 2);
    // the other records are untouched
    assert_eq!(c.get(2).unwrap().play_count, 0);
    assert_eq!(c.get(3).unwrap().play_count, 0);
}

#[test]
fn n_increments_accumulate() {
    let mut c = sample_catalog();
    for _ in 0..10 {
        c.increment_play(3).unwrap();
    }
    assert_eq!(c.get(3).unwrap().play_count, 10);
}

#[test]
fn increment_play_missing_id_is_not_found() {
    let mut c = sample_catalog();
    let r = c.increment_play(999);
    assert!(matches!(r, Err(CatalogError::NotFound)));
    // nothing changed
    assert_eq!(c.get(1).unwrap().play_count, 0);
}

#[test]
fn search_no_filters_returns_all() {
    let c = sample_catalog();
    let found = c.search(&query(None, None, None));
    assert_eq!(found.len(), 3);
    assert_eq!(found[0].id, 1);
    assert_eq!(found[1].id, 2);
    assert_eq!(found[2].id, 3);
}

#[test]
fn search_is_case_insensitive() {
    let c = sample_catalog();
    let found = c.search(&query(None, None, Some("ROCK")));
    assert_eq!(found.len(), 2);
    let found = c.search(&query(Some("rocket man"), None, None));
    assert_eq!(found.len(), 1);
    assert_eq!(found[0].id, 1);
}

#[test]
fn search_matches_substrings() {
    let c = sample_catalog();
    let found = c.search(&query(None, Some("elton"), None));
    assert_eq!(found.len(), 2);
    let found = c.search(&query(Some("ive"), None, None));
    assert_eq!(found.len(), 1);
    assert_eq!(found[0].title, "Take Five");
}

#[test]
fn search_filters_conjoin() {
    let c = sample_catalog();
    let found = c.search(&query(Some("tiny"), None, Some("rock")));
    assert_eq!(found.len(), 1);
    assert_eq!(found[0].id, 2);
    let found = c.search(&query(Some("tiny"), None, Some("jazz")));
    assert_eq!(found.len(), 0);
}

#[test]
fn search_empty_filter_matches_everything() {
    let c = sample_catalog();
    let found = c.search(&query(Some(""), None, None));
    assert_eq!(found.len(), 3);
}

#[test]
fn search_no_match_returns_empty() {
    let c = sample_catalog();
    let found = c.search(&query(None, None, Some("polka")));
    assert!(found.is_empty());
}

#[test]
fn search_on_empty_catalog() {
    let c = Catalog::new();
    let found = c.search(&query(None, None, None));
    assert!(found.is_empty());
}

#[test]
fn records_compare_by_fields() {
    let a = Record {
        id: 1,
        title: "t".to_string(),
        artist: "a".to_string(),
        genre: "g".to_string(),
        play_count: 0,
    };
    let b = a.clone();
    assert_eq!(a, b);
}
