use qable::codec::{StoreError, decode_store, encode_store};
use qable::record::{Record, Status};
use qable::store::{RecordStore, UpsertMode, WriteGuard};

fn rec(id: &str, title: &str, status: Status) -> Record {
    Record { id: String::from(id), title: String::from(title), status }
}

fn store_of(records: Vec<Record>) -> RecordStore {
    let mut store = RecordStore::new();
    for r in records {
        store.upsert(r, UpsertMode::Upsert, WriteGuard::Always);
    }
    store
}

fn triples(store: &RecordStore) -> Vec<(String, String, Status)> {
    let mut out: Vec<(String, String, Status)> = store
        .all()
        .into_iter()
        .map(|r| (r.id, r.title, r.status))
        .collect();
    out.sort_by(|a, b| a.0.cmp(&b.0));
    out
}

#[test]
fn empty_store_round_trips() {
    let store = RecordStore::new();
    let text = encode_store(&store);
    assert_eq!(text, "{\"records\":{}}");
    let reloaded = decode_store(&text).expect("empty document loads");
    assert_eq!(reloaded.len(), 0);
}

#[test]
fn one_record_has_exact_document_text() {
    let store = store_of(vec![rec("tt0137523", "Fight Club", Status::Downloading)]);
    let text = encode_store(&store);
    assert_eq!(
        text,
        "{\"records\":{\"tt0137523\":{\"id\":\"tt0137523\",\"title\":\"Fight Club\",\"status\":\"Downloading\"}}}"
    );
}

#[test]
fn several_records_round_trip() {
    let store = store_of(vec![
        rec("tt1", "One", Status::Downloading),
        rec("tt2", "Two", Status::Downloaded),
        rec("tt3", "Three", Status::Cleaned),
        rec("tt4", "Four", Status::Missing),
    ]);
    let text = encode_store(&store);
    let reloaded = decode_store(&text).expect("document loads");
    assert_eq!(triples(&store), triples(&reloaded));
}

#[test]
fn titles_with_quotes_and_backslashes_round_trip() {
    let store = store_of(vec![
        rec("tt1", "A \"quoted\" title", Status::Downloaded),
        rec("tt2", "Back\\slash \\\" mix", Status::Downloading),
        rec("tt3", "", Status::Cleaned),
    ]);
    let text = encode_store(&store);
    let reloaded = decode_store(&text).expect("document loads");
    assert_eq!(triples(&store), triples(&reloaded));
}

#[test]
fn empty_input_is_corrupt() {
    assert_eq!(decode_store("").unwrap_err(), StoreError::CorruptState);
}

#[test]
fn bare_object_is_corrupt() {
    assert_eq!(decode_store("{}").unwrap_err(), StoreError::CorruptState);
}

#[test]
fn truncated_document_is_corrupt() {
    assert_eq!(decode_store("{\"records\":{").unwrap_err(), StoreError::CorruptState);
    assert_eq!(
        decode_store("{\"records\":{\"tt1\":{\"id\":\"tt1\",\"title\":\"T\"").unwrap_err(),
        StoreError::CorruptState
    );
}

#[test]
fn trailing_text_is_corrupt() {
    assert_eq!(decode_store("{\"records\":{}} ").unwrap_err(), StoreError::CorruptState);
}

#[test]
fn mismatched_key_and_id_field_is_corrupt() {
    let text = "{\"records\":{\"tt1\":{\"id\":\"tt2\",\"title\":\"T\",\"status\":\"Downloading\"}}}";
    assert_eq!(decode_store(text).unwrap_err(), StoreError::CorruptState);
}

#[test]
fn unknown_status_is_corrupt() {
    let text = "{\"records\":{\"tt1\":{\"id\":\"tt1\",\"title\":\"T\",\"status\":\"Sideways\"}}}";
    assert_eq!(decode_store(text).unwrap_err(), StoreError::CorruptState);
}

#[test]
fn duplicate_ids_are_corrupt() {
    let text = "{\"records\":{\"tt1\":{\"id\":\"tt1\",\"title\":\"A\",\"status\":\"Downloading\"},\"tt1\":{\"id\":\"tt1\",\"title\":\"B\",\"status\":\"Downloaded\"}}}";
    assert_eq!(decode_store(text).unwrap_err(), StoreError::CorruptState);
}

#[test]
fn non_normalized_id_is_corrupt() {
    let text = "{\"records\":{\"TT1\":{\"id\":\"TT1\",\"title\":\"T\",\"status\":\"Downloading\"}}}";
    assert_eq!(decode_store(text).unwrap_err(), StoreError::CorruptState);
}

#[test]
fn valid_document_loads_to_matching_store() {
    let text = "{\"records\":{\"tt1\":{\"id\":\"tt1\",\"title\":\"Fight Club\",\"status\":\"Cleaned\"}}}";
    let store = decode_store(text).expect("document loads");
    assert_eq!(store.len(), 1);
    let r = store.get("tt1").unwrap();
    assert_eq!(r.title, "Fight Club");
    assert_eq!(r.status, Status::Cleaned);
}
