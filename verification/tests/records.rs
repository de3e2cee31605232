//! The metadata store: slot names, discovery, ordering and idempotent writes.

use feedme::error::ErrorKind;
use feedme::store::{entry_slot_name, is_entry_record_name, playlist_record_name, MetadataStore};

#[test]
fn slot_names_are_zero_padded_to_five_digits() {
    assert_eq!(entry_slot_name(0), "playlist-entry00000.feedme");
    assert_eq!(entry_slot_name(7), "playlist-entry00007.feedme");
    assert_eq!(entry_slot_name(123), "playlist-entry00123.feedme");
    assert_eq!(entry_slot_name(99999), "playlist-entry99999.feedme");
    assert_eq!(entry_slot_name(1234567), "playlist-entry1234567.feedme");
}

#[test]
fn discovery_pattern_matches_entry_records_only() {
    assert!(is_entry_record_name("playlist-entry00000.feedme"));
    assert!(is_entry_record_name("playlist-entry-anything.feedme"));
    assert!(!is_entry_record_name("playlist-meta.feedme"));
    assert!(!is_entry_record_name("playlist-entry00000.feedme.bak"));
    assert!(!is_entry_record_name("other-file.mp4"));
    assert!(!is_entry_record_name(""));
}

#[test]
fn playlist_record_has_its_fixed_name() {
    assert_eq!(playlist_record_name(), "playlist-meta.feedme");
}

#[test]
fn writing_an_occupied_slot_is_a_no_op() {
    let mut store = MetadataStore::new();
    assert!(store.write_entry(3, b"first record".to_vec()));
    assert!(!store.write_entry(3, b"second record".to_vec()));
    store.write_playlist(b"playlist".to_vec());
    let (_, entries) = store.collect().unwrap();
    assert_eq!(entries.len(), 1);
    assert_eq!(entries[0].0, "playlist-entry00003.feedme");
    assert_eq!(entries[0].1, b"first record".to_vec());
}

#[test]
fn rewriting_the_playlist_overwrites_it() {
    let mut store = MetadataStore::new();
    store.write_playlist(b"old".to_vec());
    store.write_playlist(b"new".to_vec());
    let (playlist, entries) = store.collect().unwrap();
    assert_eq!(playlist, b"new".to_vec());
    assert!(entries.is_empty());
}

#[test]
fn collect_without_a_playlist_record_is_not_found() {
    let mut store = MetadataStore::new();
    store.write_entry(0, b"entry".to_vec());
    let err = store.collect().unwrap_err();
    assert_eq!(err.kind, ErrorKind::NotFound);
}

#[test]
fn collect_orders_entries_by_name_lexicographically() {
    let mut store = MetadataStore::new();
    store.write_entry(10, b"j".to_vec());
    store.write_entry(2, b"c".to_vec());
    store.write_entry(0, b"a".to_vec());
    store.write_entry(7, b"h".to_vec());
    store.write_playlist(b"playlist".to_vec());
    let (_, entries) = store.collect().unwrap();
    let names: Vec<&str> = entries.iter().map(|e| e.0.as_str()).collect();
    assert_eq!(
        names,
        vec![
            "playlist-entry00000.feedme",
            "playlist-entry00002.feedme",
            "playlist-entry00007.feedme",
            "playlist-entry00010.feedme",
        ]
    );
    let bodies: Vec<&[u8]> = entries.iter().map(|e| e.1.as_slice()).collect();
    assert_eq!(bodies, vec![b"a" as &[u8], b"c", b"h", b"j"]);
}

#[test]
fn sparse_slot_indices_are_tolerated() {
    let mut store = MetadataStore::new();
    store.write_entry(5, b"five".to_vec());
    store.write_entry(90000, b"large".to_vec());
    store.write_playlist(b"playlist".to_vec());
    let (_, entries) = store.collect().unwrap();
    assert_eq!(entries.len(), 2);
    assert_eq!(entries[0].0, "playlist-entry00005.feedme");
    assert_eq!(entries[1].0, "playlist-entry90000.feedme");
}

#[test]
fn directory_listing_routes_records_by_name() {
    let mut store = MetadataStore::new();
    store.insert_record("playlist-entry00001.feedme".to_string(), b"one".to_vec());
    store.insert_record("playlist-meta.feedme".to_string(), b"playlist".to_vec());
    store.insert_record("unrelated.mp4".to_string(), b"noise".to_vec());
    store.insert_record("playlist-entry00000.feedme".to_string(), b"zero".to_vec());
    let (playlist, entries) = store.collect().unwrap();
    assert_eq!(playlist, b"playlist".to_vec());
    assert_eq!(entries.len(), 2);
    assert_eq!(entries[0].0, "playlist-entry00000.feedme");
    assert_eq!(entries[1].0, "playlist-entry00001.feedme");
}

#[test]
fn batch_fills_free_slots_and_keeps_occupied_ones() {
    let mut store = MetadataStore::new();
    store.write_entry(1, b"existing".to_vec());
    let written = store.batch_process(
        b"playlist".to_vec(),
        vec![b"zero".to_vec(), b"one".to_vec(), b"two".to_vec()],
    );
    assert_eq!(written, vec![true, false, true]);
    let (playlist, entries) = store.collect().unwrap();
    assert_eq!(playlist, b"playlist".to_vec());
    let names: Vec<&str> = entries.iter().map(|e| e.0.as_str()).collect();
    assert_eq!(
        names,
        vec![
            "playlist-entry00000.feedme",
            "playlist-entry00001.feedme",
            "playlist-entry00002.feedme",
        ]
    );
    let bodies: Vec<&[u8]> = entries.iter().map(|e| e.1.as_slice()).collect();
    assert_eq!(bodies, vec![b"zero" as &[u8], b"existing", b"two"]);
}

#[test]
fn batch_overwrites_the_playlist_record() {
    let mut store = MetadataStore::new();
    store.write_playlist(b"old".to_vec());
    store.batch_process(b"new".to_vec(), Vec::new());
    let (playlist, _) = store.collect().unwrap();
    assert_eq!(playlist, b"new".to_vec());
}

#[test]
fn directory_listing_keeps_the_first_record_per_name() {
    let mut store = MetadataStore::new();
    store.insert_record("playlist-entry00000.feedme".to_string(), b"first".to_vec());
    store.insert_record("playlist-entry00000.feedme".to_string(), b"second".to_vec());
    store.write_playlist(b"playlist".to_vec());
    let (_, entries) = store.collect().unwrap();
    assert_eq!(entries.len(), 1);
    assert_eq!(entries[0].1, b"first".to_vec());
}
