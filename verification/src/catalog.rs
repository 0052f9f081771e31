//! The media-library catalog as the engine sees it: read-only snapshot
//! entries, the extraction of a normalized identifier from a catalog guid,
//! and the unambiguous-match rule of title resolution.

use vstd::prelude::*;
use crate::text::{normalize_id, spec_norm};

verus! {

/// One title the catalog reports as present.
pub struct CatalogEntry {
    /// Canonical external identifier, normalized to lowercase.
    pub id: String,
    /// Display title as the catalog knows it.
    pub title: String,
    /// The catalog's own key for the entry, used for title corrections.
    pub catalog_key: String,
}

/// Mathematical value of a catalog entry.
pub ghost struct CatalogEntryV {
    pub id: Seq<char>,
    pub title: Seq<char>,
    pub catalog_key: Seq<char>,
}

impl View for CatalogEntry {
    type V = CatalogEntryV;

    open spec fn view(&self) -> CatalogEntryV {
        CatalogEntryV { id: self.id@, title: self.title@, catalog_key: self.catalog_key@ }
    }
}

/// The values of a snapshot.
pub open spec fn entry_views(s: Seq<CatalogEntry>) -> Seq<CatalogEntryV> {
    s.map_values(|e: CatalogEntry| e@)
}

/// Number of characters of the guid scheme prefix in front of the
/// identifier.
pub open spec fn guid_id_start() -> int {
    26
}

/// Number of characters of the guid prefix plus the identifier.
pub open spec fn guid_id_end() -> int {
    35
}

/// Extract the normalized identifier embedded in a catalog guid: the nine
/// characters following the 26-character scheme prefix, lowercased.  A guid
/// too short to carry them yields nothing.
pub fn guid_to_id(guid: &str) -> (r: Option<String>)
    ensures
        match r {
            Some(s) => guid@.len() >= guid_id_end() && s@ == spec_norm(
                guid@.subrange(guid_id_start(), guid_id_end()),
            ),
            None => guid@.len() < guid_id_end(),
        },
{
    let n = guid.unicode_len();
    if n < 35 {
        None
    } else {
        let raw = guid.substring_char(26, 35);
        Some(normalize_id(raw))
    }
}

/// Decision step of one title-resolution attempt: done exactly when the
/// lookup produced a single, unambiguous match, and then its title is
/// handed on.
pub fn title_resolution_step(titles: Vec<String>) -> (r: (bool, Option<String>))
    ensures
        r.0 == (titles@.len() == 1),
        titles@.len() == 1 ==> (r.1 matches Some(t) && t@ == titles@[0]@),
        titles@.len() != 1 ==> r.1 is None,
{
    if titles.len() == 1 {
        let mut titles = titles;
        match titles.pop() {
            Some(t) => (true, Some(t)),
            None => (false, None),
        }
    } else {
        (false, None)
    }
}

} // verus!
