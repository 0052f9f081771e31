use qable::catalog::CatalogEntry;
use qable::config::{Config, SeederRule};
use qable::engine::{
    AcquireGate, AcquireOutcome, CleanAction, MediaManager, SkipReason, skip_message,
};
use qable::record::{Record, Status};
use qable::selector::Candidate;
use qable::store::{RecordStore, UpsertMode, WriteGuard};

fn test_config() -> Config {
    Config {
        plex_url: String::from("http://plex.local/library/"),
        plex_token: String::from("token"),
        retries: 3,
        api_backoff_millis: 250,
        tmdb_v4_api_key: String::from("key"),
        deluge_url: String::from("http://deluge.local/json"),
        password: String::from("password"),
        download_location: String::from("/downloads"),
        move_completed_path: String::from("/movies"),
        target_categories: vec![String::from("x264/1080")],
        min_file_size: 1_000_000_000,
        ideal_file_size: 8_589_934_592,
        seeders: vec![SeederRule { available_magnets: 1, min_seeders: 1 }],
    }
}

fn entry(id: &str, title: &str, key: &str) -> CatalogEntry {
    CatalogEntry {
        id: String::from(id),
        title: String::from(title),
        catalog_key: String::from(key),
    }
}

fn rec(id: &str, title: &str, status: Status) -> Record {
    Record { id: String::from(id), title: String::from(title), status }
}

fn cand(download: &str, seeders: i32, size: i64) -> Candidate {
    Candidate {
        title: String::from(download),
        category: String::from("Movies/x264/1080"),
        download: String::from(download),
        seeders,
        leechers: 0,
        size,
    }
}

#[test]
fn is_dirty() {
    assert!(MediaManager::is_dirty(
        "Eight.and.a.Half.1963.ITALIAN.1080p.BluRay.H264.AAC-VXT",
        "8Â½"
    ))
}

#[test]
fn is_dirty_counts_special_characters_exactly() {
    // four separators against zero: more than three apart
    assert!(MediaManager::is_dirty("a.b.c.d.e", "abcde"));
    // three apart is not dirty
    assert!(!MediaManager::is_dirty("a.b.c.d", "abcde"));
    assert!(!MediaManager::is_dirty("same title", "same title"));
    // the comparison is symmetric in the counts
    assert!(MediaManager::is_dirty("abcde", "a.b.c.d.e"));
}

#[test]
fn acquire_twice_yields_already_exists() {
    let manager = MediaManager::new(test_config(), Vec::new(), RecordStore::new(), false, false);
    let mut manager = manager;
    let title = match manager.acquire_plan("tt0137523", Some(String::from("Fight Club"))) {
        AcquireGate::Proceed { title } => title,
        AcquireGate::Skip { .. } => panic!("first acquisition must proceed"),
    };
    let results = vec![cand("magnet:?xt=urn:btih:aaa", 10, 8_000_000_000)];
    match manager.acquire_with_candidates("tt0137523", title, &results) {
        AcquireOutcome::Submitted { download } => assert_eq!(download, "magnet:?xt=urn:btih:aaa"),
        AcquireOutcome::Skipped { .. } => panic!("a candidate was available"),
    }
    assert_eq!(manager.store.len(), 1);
    let r = manager.store.get("tt0137523").unwrap();
    assert_eq!(r.status, Status::Downloading);
    assert_eq!(r.title, "Fight Club");
    // the second acquisition of the same id is refused, no duplicate record
    match manager.acquire_plan("tt0137523", Some(String::from("Fight Club"))) {
        AcquireGate::Skip { reason } => assert_eq!(reason, SkipReason::AlreadyExists),
        AcquireGate::Proceed { .. } => panic!("second acquisition must be refused"),
    }
    // a differently-cased spelling is the same id
    match manager.acquire_plan("TT0137523", Some(String::from("Fight Club"))) {
        AcquireGate::Skip { reason } => assert_eq!(reason, SkipReason::AlreadyExists),
        AcquireGate::Proceed { .. } => panic!("case must not matter"),
    }
    assert_eq!(manager.store.len(), 1);
}

#[test]
fn unresolved_title_skips_before_anything_else() {
    let manager = MediaManager::new(test_config(), Vec::new(), RecordStore::new(), false, false);
    match manager.acquire_plan("tt0137523", None) {
        AcquireGate::Skip { reason } => assert_eq!(reason, SkipReason::TitleNotFound),
        AcquireGate::Proceed { .. } => panic!("no resolved title"),
    }
}

#[test]
fn no_surviving_candidate_skips_as_magnet_not_found() {
    let mut manager =
        MediaManager::new(test_config(), Vec::new(), RecordStore::new(), false, false);
    let results: Vec<Candidate> = Vec::new();
    match manager.acquire_with_candidates("tt0137523", String::from("Fight Club"), &results) {
        AcquireOutcome::Skipped { reason } => assert_eq!(reason, SkipReason::MagnetNotFound),
        AcquireOutcome::Submitted { .. } => panic!("nothing to submit"),
    }
    assert_eq!(manager.store.len(), 0);
}

#[test]
fn missing_record_is_evicted_before_reacquisition() {
    let mut store = RecordStore::new();
    store.upsert(rec("tt1", "One", Status::Downloading), UpsertMode::Upsert, WriteGuard::Always);
    // the snapshot no longer reports tt1: reconciliation marks it Missing
    let mut manager = MediaManager::new(test_config(), Vec::new(), store, false, false);
    assert_eq!(manager.store.get("tt1").unwrap().status, Status::Missing);
    let ids = manager.evict_missing();
    assert_eq!(ids, vec![String::from("tt1")]);
    assert!(manager.store.get("tt1").is_none());
    assert_eq!(manager.store.len(), 0);
    // the re-acquisition then starts from scratch and cannot duplicate
    let title = match manager.acquire_plan("tt1", Some(String::from("One"))) {
        AcquireGate::Proceed { title } => title,
        AcquireGate::Skip { .. } => panic!("the id was evicted"),
    };
    let results = vec![cand("magnet:?xt=urn:btih:bbb", 10, 8_000_000_000)];
    match manager.acquire_with_candidates("tt1", title, &results) {
        AcquireOutcome::Submitted { .. } => {},
        AcquireOutcome::Skipped { .. } => panic!("a candidate was available"),
    }
    assert_eq!(manager.store.len(), 1);
    assert_eq!(manager.store.get("tt1").unwrap().status, Status::Downloading);
}

#[test]
fn reconciliation_aligns_store_with_snapshot() {
    let mut store = RecordStore::new();
    store.upsert(rec("tt1", "Old One", Status::Downloading), UpsertMode::Upsert, WriteGuard::Always);
    store.upsert(rec("tt2", "Two", Status::Cleaned), UpsertMode::Upsert, WriteGuard::Always);
    store.upsert(rec("tt3", "Three", Status::Downloaded), UpsertMode::Upsert, WriteGuard::Always);
    let movies = vec![
        entry("tt1", "New One", "101"),
        entry("tt2", "Two Fresh", "102"),
        entry("tt4", "Four", "104"),
    ];
    let manager = MediaManager::new(test_config(), movies, store, false, false);
    // present in the snapshot, not Cleaned: upserted as Downloaded
    let r1 = manager.store.get("tt1").unwrap();
    assert_eq!(r1.status, Status::Downloaded);
    assert_eq!(r1.title, "New One");
    // Cleaned is never overwritten by reconciliation
    let r2 = manager.store.get("tt2").unwrap();
    assert_eq!(r2.status, Status::Cleaned);
    assert_eq!(r2.title, "Two");
    // absent from the snapshot: marked Missing, title kept
    let r3 = manager.store.get("tt3").unwrap();
    assert_eq!(r3.status, Status::Missing);
    assert_eq!(r3.title, "Three");
    // new in the snapshot: created as Downloaded
    let r4 = manager.store.get("tt4").unwrap();
    assert_eq!(r4.status, Status::Downloaded);
    assert_eq!(r4.title, "Four");
    assert_eq!(manager.store.len(), 4);
}

#[test]
fn downloaded_records_lists_exactly_the_downloaded() {
    let mut store = RecordStore::new();
    store.upsert(rec("tt1", "One", Status::Downloaded), UpsertMode::Upsert, WriteGuard::Always);
    store.upsert(rec("tt2", "Two", Status::Cleaned), UpsertMode::Upsert, WriteGuard::Always);
    store.upsert(rec("tt3", "Three", Status::Downloaded), UpsertMode::Upsert, WriteGuard::Always);
    let movies = vec![
        entry("tt1", "One", "101"),
        entry("tt2", "Two", "102"),
        entry("tt3", "Three", "103"),
    ];
    let manager = MediaManager::new(test_config(), movies, store, false, false);
    let downloaded = manager.downloaded_records();
    assert_eq!(downloaded.len(), 2);
    assert_eq!(downloaded[0].id, "tt1");
    assert_eq!(downloaded[1].id, "tt3");
}

#[test]
fn clean_plan_follows_title_equality() {
    match MediaManager::clean_downloaded_plan("Stored.Title", None) {
        CleanAction::LeaveAlone => {},
        _ => panic!("no resolution: leave the record"),
    }
    match MediaManager::clean_downloaded_plan("Fight Club", Some(String::from("Fight Club"))) {
        CleanAction::MarkCleaned => {},
        _ => panic!("equal titles: clean directly"),
    }
    // any difference at all calls for a correction, however slight
    match MediaManager::clean_downloaded_plan("Fight Club", Some(String::from("Fight Club!"))) {
        CleanAction::CorrectTitle { new_title } => assert_eq!(new_title, "Fight Club!"),
        _ => panic!("differing titles: ask for a correction"),
    }
    match MediaManager::clean_downloaded_plan(
        "Eight.and.a.Half.1963.ITALIAN.1080p.BluRay.H264.AAC-VXT",
        Some(String::from("8 and a Half")),
    ) {
        CleanAction::CorrectTitle { new_title } => assert_eq!(new_title, "8 and a Half"),
        _ => panic!("differing titles: ask for a correction"),
    }
}

#[test]
fn finish_cleaned_settles_title_and_status() {
    let mut store = RecordStore::new();
    store.upsert(
        rec("tt1", "Old.Dirty.Title", Status::Downloaded),
        UpsertMode::Upsert,
        WriteGuard::Always,
    );
    let movies = vec![entry("tt1", "Old.Dirty.Title", "101")];
    let mut manager = MediaManager::new(test_config(), movies, store, false, false);
    manager.finish_cleaned("tt1", String::from("Canonical Title"));
    let r = manager.store.get("tt1").unwrap();
    assert_eq!(r.status, Status::Cleaned);
    assert_eq!(r.title, "Canonical Title");
    assert_eq!(manager.store.len(), 1);
    // an id the store does not hold is left alone
    manager.finish_cleaned("tt9", String::from("Nothing"));
    assert_eq!(manager.store.len(), 1);
}

#[test]
fn skip_messages_name_each_reason() {
    assert_eq!(skip_message(SkipReason::TitleNotFound), "no unambiguous title match");
    assert_eq!(skip_message(SkipReason::AlreadyExists), "already tracked");
    assert_eq!(skip_message(SkipReason::MagnetNotFound), "no suitable magnet found");
    assert_eq!(skip_message(SkipReason::RetriesExhausted), "retries exhausted");
}
