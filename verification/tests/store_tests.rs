use qable::record::{Record, Status};
use qable::store::{RecordStore, UpsertMode, WriteGuard};
use qable::text::normalize_id;

fn rec(id: &str, title: &str, status: Status) -> Record {
    Record { id: String::from(id), title: String::from(title), status }
}

#[test]
fn normalize_id_lowercases_ascii() {
    assert_eq!(normalize_id("TT0137523"), "tt0137523");
    assert_eq!(normalize_id("tt0137523"), "tt0137523");
    assert_eq!(normalize_id("AbC-123"), "abc-123");
    assert_eq!(normalize_id(""), "");
}

#[test]
fn normalized_ids_resolve_to_identical_record() {
    let mut store = RecordStore::new();
    store.upsert(
        rec("TT0137523", "Fight Club", Status::Downloading),
        UpsertMode::Upsert,
        WriteGuard::Always,
    );
    let a = store.get("TT0137523").expect("uppercase lookup");
    assert_eq!(a.id, "tt0137523");
    assert_eq!(a.title, "Fight Club");
    assert_eq!(a.status, Status::Downloading);
    let b = store.get("tt0137523").expect("lowercase lookup");
    assert_eq!(a.id, b.id);
    assert_eq!(a.title, b.title);
    assert_eq!(a.status, b.status);
    assert_eq!(store.len(), 1);
}

#[test]
fn upsert_insert_only_noops_when_present() {
    let mut store = RecordStore::new();
    store.upsert(rec("tt1", "One", Status::Downloading), UpsertMode::Upsert, WriteGuard::Always);
    let wrote = store.upsert(
        rec("tt1", "Other", Status::Downloaded),
        UpsertMode::InsertOnly,
        WriteGuard::Always,
    );
    assert!(!wrote);
    let r = store.get("tt1").unwrap();
    assert_eq!(r.title, "One");
    assert_eq!(r.status, Status::Downloading);
}

#[test]
fn upsert_update_only_noops_when_absent() {
    let mut store = RecordStore::new();
    let wrote = store.upsert(
        rec("tt1", "One", Status::Downloading),
        UpsertMode::UpdateOnly,
        WriteGuard::Always,
    );
    assert!(!wrote);
    assert_eq!(store.len(), 0);
    assert!(store.get("tt1").is_none());
}

#[test]
fn upsert_is_last_write_wins() {
    let mut store = RecordStore::new();
    store.upsert(rec("tt1", "One", Status::Downloading), UpsertMode::Upsert, WriteGuard::Always);
    let wrote = store.upsert(
        rec("tt1", "Two", Status::Downloaded),
        UpsertMode::Upsert,
        WriteGuard::Always,
    );
    assert!(wrote);
    assert_eq!(store.len(), 1);
    let r = store.get("tt1").unwrap();
    assert_eq!(r.title, "Two");
    assert_eq!(r.status, Status::Downloaded);
}

#[test]
fn preserve_cleaned_guard_blocks_downgrade() {
    let mut store = RecordStore::new();
    store.upsert(rec("tt1", "Canon", Status::Cleaned), UpsertMode::Upsert, WriteGuard::Always);
    let wrote = store.upsert(
        rec("tt1", "Fresh", Status::Downloaded),
        UpsertMode::Upsert,
        WriteGuard::PreserveCleaned,
    );
    assert!(!wrote);
    let r = store.get("tt1").unwrap();
    assert_eq!(r.title, "Canon");
    assert_eq!(r.status, Status::Cleaned);
    // the Always guard does overwrite
    let wrote = store.upsert(
        rec("tt1", "Fresh", Status::Downloaded),
        UpsertMode::Upsert,
        WriteGuard::Always,
    );
    assert!(wrote);
    assert_eq!(store.get("tt1").unwrap().status, Status::Downloaded);
}

#[test]
fn remove_drops_only_the_named_record() {
    let mut store = RecordStore::new();
    store.upsert(rec("tt1", "One", Status::Downloading), UpsertMode::Upsert, WriteGuard::Always);
    store.upsert(rec("tt2", "Two", Status::Downloaded), UpsertMode::Upsert, WriteGuard::Always);
    assert!(store.remove("TT1"));
    assert!(!store.remove("tt1"));
    assert_eq!(store.len(), 1);
    assert!(store.get("tt1").is_none());
    assert!(store.get("tt2").is_some());
}

#[test]
fn all_returns_records_in_order() {
    let mut store = RecordStore::new();
    store.upsert(rec("tt1", "One", Status::Downloading), UpsertMode::Upsert, WriteGuard::Always);
    store.upsert(rec("tt2", "Two", Status::Downloaded), UpsertMode::Upsert, WriteGuard::Always);
    let all = store.all();
    assert_eq!(all.len(), 2);
    assert_eq!(all[0].id, "tt1");
    assert_eq!(all[1].id, "tt2");
}
