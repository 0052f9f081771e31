use qable::config::{Config, SeederRule};
use qable::selector::{Candidate, filter_magnets, magnet_search_step, match_magnet, select_magnet};

fn base_config() -> Config {
    Config {
        plex_url: String::from("http://plex.local/library/"),
        plex_token: String::from("token"),
        retries: 3,
        api_backoff_millis: 250,
        tmdb_v4_api_key: String::from("key"),
        deluge_url: String::from("http://deluge.local/json"),
        password: String::from("password"),
        download_location: String::from("/downloads"),
        move_completed_path: String::from("/movies"),
        target_categories: vec![String::from("x264/1080")],
        min_file_size: 1_000_000_000,
        ideal_file_size: 8_589_934_592,
        seeders: vec![SeederRule { available_magnets: 1, min_seeders: 1 }],
    }
}

fn cand(download: &str, category: &str, seeders: i32, size: i64) -> Candidate {
    Candidate {
        title: String::from(download),
        category: String::from(category),
        download: String::from(download),
        seeders,
        leechers: 0,
        size,
    }
}

#[test]
fn tie_break_prefers_size_closest_to_ideal() {
    let config = base_config();
    let results = vec![
        cand("small", "Movies/x264/1080", 10, 4_000_000_000),
        cand("large", "Movies/x264/1080", 10, 9_000_000_000),
    ];
    let picked = select_magnet(&config, &results).expect("a candidate survives");
    assert_eq!(picked.download, "large");
    assert_eq!(picked.size, 9_000_000_000);
}

#[test]
fn exact_distance_tie_keeps_first_candidate() {
    let mut config = base_config();
    config.ideal_file_size = 5_000_000_000;
    let results = vec![
        cand("below", "Movies/x264/1080", 10, 4_999_999_000),
        cand("above", "Movies/x264/1080", 10, 5_000_001_000),
    ];
    let picked = select_magnet(&config, &results).expect("a candidate survives");
    assert_eq!(picked.download, "below");
}

#[test]
fn tiering_advances_to_stricter_tier_while_counts_hold() {
    let mut config = base_config();
    config.seeders = vec![
        SeederRule { available_magnets: 2, min_seeders: 5 },
        SeederRule { available_magnets: 1, min_seeders: 10 },
    ];
    let results = vec![
        cand("a", "Movies/x264/1080", 6, 5_000_000_000),
        cand("b", "Movies/x264/1080", 6, 6_000_000_000),
        cand("c", "Movies/x264/1080", 11, 7_000_000_000),
    ];
    // one candidate with 11 seeders satisfies the second tier's required=1,
    // and the first tier's count of 2 also held: the second tier applies
    let kept = filter_magnets(&config, &results);
    assert_eq!(kept.len(), 1);
    assert_eq!(kept[0].download, "c");
    let picked = select_magnet(&config, &results).unwrap();
    assert_eq!(picked.download, "c");
}

#[test]
fn tiering_stays_on_first_tier_when_stricter_fails() {
    let mut config = base_config();
    config.seeders = vec![
        SeederRule { available_magnets: 2, min_seeders: 5 },
        SeederRule { available_magnets: 1, min_seeders: 10 },
    ];
    let results = vec![
        cand("a", "Movies/x264/1080", 6, 5_000_000_000),
        cand("b", "Movies/x264/1080", 6, 6_000_000_000),
        cand("c", "Movies/x264/1080", 3, 7_000_000_000),
    ];
    // no candidate reaches 10 seeders, so the first tier remains selected
    let kept = filter_magnets(&config, &results);
    assert_eq!(kept.len(), 2);
    assert_eq!(kept[0].download, "a");
    assert_eq!(kept[1].download, "b");
    // among the survivors the size closest to the ideal wins
    let picked = select_magnet(&config, &results).unwrap();
    assert_eq!(picked.download, "b");
}

#[test]
fn first_tier_threshold_applies_even_when_its_count_fails() {
    let mut config = base_config();
    config.seeders = vec![SeederRule { available_magnets: 5, min_seeders: 4 }];
    let results = vec![
        cand("a", "Movies/x264/1080", 6, 5_000_000_000),
        cand("b", "Movies/x264/1080", 2, 6_000_000_000),
    ];
    // only one candidate has 4 seeders or more, fewer than required=5, yet
    // the first tier's threshold is applied anyway
    let kept = filter_magnets(&config, &results);
    assert_eq!(kept.len(), 1);
    assert_eq!(kept[0].download, "a");
}

#[test]
fn filter_requires_category_suffix_and_strict_minimum_size() {
    let config = base_config();
    let results = vec![
        cand("wrong-category", "Movies/XVID", 10, 5_000_000_000),
        cand("at-minimum", "Movies/x264/1080", 10, 1_000_000_000),
        cand("keeper", "Movies/x264/1080", 10, 5_000_000_000),
    ];
    let kept = filter_magnets(&config, &results);
    assert_eq!(kept.len(), 1);
    assert_eq!(kept[0].download, "keeper");
}

#[test]
fn empty_survivors_yield_no_result() {
    let config = base_config();
    let results = vec![cand("tiny", "Movies/x264/1080", 10, 5)];
    assert!(select_magnet(&config, &results).is_none());
    let (done, data) = magnet_search_step(&config, &results);
    assert!(!done);
    assert!(data.is_none());
}

#[test]
fn search_step_hands_back_winning_download_reference() {
    let config = base_config();
    let results = vec![
        cand("magnet:?xt=urn:btih:aaa", "Movies/x264/1080", 10, 8_000_000_000),
        cand("magnet:?xt=urn:btih:bbb", "Movies/x264/1080", 10, 2_000_000_000),
    ];
    let (done, data) = magnet_search_step(&config, &results);
    assert!(done);
    assert_eq!(data.unwrap(), "magnet:?xt=urn:btih:aaa");
}

#[test]
fn match_magnet_minimizes_distance_over_given_list() {
    let config = base_config();
    let magnets = vec![
        cand("a", "Movies/x264/1080", 10, 1_000_000_000),
        cand("b", "Movies/x264/1080", 10, 8_000_000_000),
        cand("c", "Movies/x264/1080", 10, 20_000_000_000),
    ];
    let best = match_magnet(&config, &magnets);
    assert_eq!(best.download, "b");
}
