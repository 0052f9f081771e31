//! Runtime configuration: provider endpoints, credentials, the retry policy
//! knobs, and the acquisition policy driving the candidate selector.

use vstd::prelude::*;

verus! {

/// One seeder tier of the acquisition policy: the tier applies only while at
/// least `available_magnets` filtered candidates have `min_seeders` seeders
/// or more.
#[derive(Clone, Copy, PartialEq, Eq, Structural, Debug)]
pub struct SeederRule {
    pub available_magnets: usize,
    pub min_seeders: i32,
}

/// Runtime configuration.  Loaded from a configuration document outside the
/// library and handed in as plain values.
pub struct Config {
    /// Base URL of the media-library catalog.
    pub plex_url: String,
    /// Access token for the catalog.
    pub plex_token: String,
    /// Maximum attempts of the retry executor.
    pub retries: u8,
    /// Backoff step of the retry executor, in milliseconds.
    pub api_backoff_millis: u64,
    /// Key for the title-resolution service.
    pub tmdb_v4_api_key: String,
    /// URL of the download-queue service.
    pub deluge_url: String,
    /// Password for the download-queue service.
    pub password: String,
    /// Where the download queue stores incoming data.
    pub download_location: String,
    /// Where the download queue moves completed data.
    pub move_completed_path: String,
    /// A candidate survives filtering only if its category ends with one of
    /// these.
    pub target_categories: Vec<String>,
    /// A candidate survives filtering only if its size exceeds this.
    pub min_file_size: i64,
    /// Among the survivors the candidate closest to this size wins.
    pub ideal_file_size: i64,
    /// Seeder tiers, ordered from most permissive to strictest.
    pub seeders: Vec<SeederRule>,
}

impl Config {
    /// The acquisition policy is usable: there is at least one seeder tier
    /// to fall back on.
    pub open spec fn has_tier(&self) -> bool {
        self.seeders@.len() > 0
    }
}

} // verus!
