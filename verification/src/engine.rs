//! The reconciliation engine: it aligns the record store with the catalog
//! snapshot at construction, performs idempotent acquisitions through
//! guarded checks, and runs the cleanup pass that settles canonical titles
//! and reclaims missing records.  Every provider call happens outside the
//! library; the engine's functions take the call results as plain values
//! and decide, with proved contracts, what the store becomes and what the
//! caller must do next.

use vstd::prelude::*;
use crate::catalog::{CatalogEntry, entry_views};
use crate::config::Config;
use crate::reconcile::{
    apply_snapshot, mark_missing, snap_contains, spec_reconcile, upsert_downloaded, wf_snapshot,
};
use crate::record::{Record, RecordV, Status, wf_record};
use crate::selector::{Candidate, cand_views, select_magnet, spec_best_index, spec_filter_magnets};
use crate::store::{
    RecordStore, UpsertMode, WriteGuard, contains_id, lemma_unique_index, spec_get, unique_ids,
    wf_store,
};
use crate::text::{count_special, spec_count_special, spec_norm};

verus! {

/// Why an acquisition was skipped: the guarded checks fail in this order,
/// and a provider call whose retries ran out reports the last reason.
#[derive(Clone, Copy, PartialEq, Eq, Structural, Debug)]
pub enum SkipReason {
    /// Title resolution returned no unambiguous match.
    TitleNotFound,
    /// The id is already tracked, under any status.
    AlreadyExists,
    /// The selector returned no candidate.
    MagnetNotFound,
    /// The provider call gave up after its last retry.
    RetriesExhausted,
}

/// User-visible message for a skip reason.
pub open spec fn spec_skip_message(reason: SkipReason) -> Seq<char> {
    match reason {
        SkipReason::TitleNotFound => "no unambiguous title match"@,
        SkipReason::AlreadyExists => "already tracked"@,
        SkipReason::MagnetNotFound => "no suitable magnet found"@,
        SkipReason::RetriesExhausted => "retries exhausted"@,
    }
}

/// The message table mapping each skip reason to its report line.
pub fn skip_message(reason: SkipReason) -> (r: &'static str)
    ensures
        r@ == spec_skip_message(reason),
{
    match reason {
        SkipReason::TitleNotFound => "no unambiguous title match",
        SkipReason::AlreadyExists => "already tracked",
        SkipReason::MagnetNotFound => "no suitable magnet found",
        SkipReason::RetriesExhausted => "retries exhausted",
    }
}

/// Outcome of the checks that precede the torrent search.
pub enum AcquireGate {
    /// All checks passed: search for candidates of this resolved title.
    Proceed { title: String },
    /// A check failed; the whole acquisition is skipped.
    Skip { reason: SkipReason },
}

/// Outcome of an acquisition attempt once search results are in.
pub enum AcquireOutcome {
    /// The winning candidate's download reference, to be submitted to the
    /// download queue.
    Submitted { download: String },
    /// No candidate survived; the acquisition is skipped.
    Skipped { reason: SkipReason },
}

/// What the cleanup pass must do for one Downloaded record.
pub enum CleanAction {
    /// No unambiguous canonical title: leave the record for a future pass.
    LeaveAlone,
    /// The canonical title equals the stored one: mark Cleaned directly.
    MarkCleaned,
    /// The canonical title differs from the stored one: ask the catalog to
    /// correct it, and mark Cleaned only if the catalog accepts.
    CorrectTitle { new_title: String },
}

/// Coarse title-similarity measure: the two titles' counts of
/// non-alphanumeric characters are more than three apart.
pub open spec fn spec_is_dirty(plex_title: Seq<char>, tmdb_title: Seq<char>) -> bool {
    let a = spec_count_special(plex_title) as int;
    let b = spec_count_special(tmdb_title) as int;
    (if a >= b {
        a - b
    } else {
        b - a
    }) > 3
}

/// The records of `s` that are not Missing, in order.
pub open spec fn drop_missing(s: Seq<RecordV>) -> Seq<RecordV>
    decreases s.len(),
{
    if s.len() == 0 {
        Seq::empty()
    } else {
        let rest = drop_missing(s.drop_last());
        if s.last().status == Status::Missing {
            rest
        } else {
            rest.push(s.last())
        }
    }
}

/// The ids of the Missing records of `s`, in order.
pub open spec fn missing_ids(s: Seq<RecordV>) -> Seq<Seq<char>>
    decreases s.len(),
{
    if s.len() == 0 {
        Seq::empty()
    } else {
        let rest = missing_ids(s.drop_last());
        if s.last().status == Status::Missing {
            rest.push(s.last().id)
        } else {
            rest
        }
    }
}

/// The records of `s` whose status is Downloaded, in order.
pub open spec fn keep_downloaded(s: Seq<RecordV>) -> Seq<RecordV>
    decreases s.len(),
{
    if s.len() == 0 {
        Seq::empty()
    } else {
        let rest = keep_downloaded(s.drop_last());
        if s.last().status == Status::Downloaded {
            rest.push(s.last())
        } else {
            rest
        }
    }
}

/// Whether the snapshot reports this (already normalized) id present.
fn snapshot_contains(movies: &Vec<CatalogEntry>, id: &String) -> (r: bool)
    ensures
        r == snap_contains(entry_views(movies@), id@),
{
    let n = movies.len();
    let mut i: usize = 0;
    while i < n
        invariant
            n == movies@.len(),
            i <= n,
            forall|j: int| 0 <= j < i ==> (#[trigger] entry_views(movies@)[j]).id != id@,
        decreases n - i,
    {
        if movies[i].id == *id {
            proof {
                assert(entry_views(movies@)[i as int].id == id@);
            }
            return true;
        }
        proof {
            assert(entry_views(movies@)[i as int].id == movies@[i as int].id@);
        }
        i = i + 1;
    }
    false
}

/// The reconciliation engine: the catalog snapshot it was built from, the
/// record store it keeps current, and the run's configuration.
pub struct MediaManager {
    pub config: Config,
    /// Catalog snapshot fetched at construction.
    pub movies: Vec<CatalogEntry>,
    /// The durable record store, reconciled against the snapshot.
    pub store: RecordStore,
    /// Dry-run flag: the caller performs no outward change when set.
    pub test: bool,
    /// Prompt-before-change flag, honored by the caller.
    pub validate: bool,
}

impl MediaManager {
    /// The engine's invariant: a well-formed store and a snapshot of
    /// normalized, non-empty ids.
    pub open spec fn wf(&self) -> bool {
        self.store.wf() && wf_snapshot(entry_views(self.movies@))
    }

    /// Build the engine from the fetched snapshot and the loaded store, and
    /// reconcile the two: every stored id absent from the snapshot is
    /// marked Missing; every snapshot entry is upserted as Downloaded,
    /// never overwriting an existing Cleaned record.  The caller persists
    /// the result once.
    pub fn new(
        config: Config,
        movies: Vec<CatalogEntry>,
        store: RecordStore,
        test: bool,
        validate: bool,
    ) -> (m: MediaManager)
        requires
            store.wf(),
            wf_snapshot(entry_views(movies@)),
        ensures
            m.config == config,
            m.movies == movies,
            m.test == test,
            m.validate == validate,
            m.wf(),
            m.store@ == spec_reconcile(store@, entry_views(movies@)),
    {
        let ghost origv = store@;
        let ghost snapv = entry_views(movies@);
        let mut st = store;
        // mark Missing every stored id absent from the snapshot
        let orig = st.all();
        let n = orig.len();
        let mut j: usize = 0;
        while j < n
            invariant
                st.wf(),
                n == orig@.len(),
                orig@.map_values(|r: Record| r@) == origv,
                wf_store(origv),
                snapv == entry_views(movies@),
                wf_snapshot(snapv),
                j <= n,
                st@.len() == origv.len(),
                forall|k: int| 0 <= k < origv.len() ==> (#[trigger] st@[k]).id == origv[k].id,
                forall|k: int| 0 <= k < j ==> #[trigger] st@[k] == mark_missing(origv, snapv)[k],
                forall|k: int| j <= k < origv.len() ==> #[trigger] st@[k] == origv[k],
            decreases n - j,
        {
            proof {
                assert(orig@.map_values(|r: Record| r@)[j as int] == origv[j as int]);
                assert(wf_record(origv[j as int]));
            }
            let absent = !snapshot_contains(&movies, &orig[j].id);
            if absent {
                let rec = Record {
                    id: orig[j].id.clone(),
                    title: orig[j].title.clone(),
                    status: Status::Missing,
                };
                let ghost pre = st@;
                proof {
                    assert(spec_norm(rec.id@) == rec.id@);
                    assert(pre[j as int].id == origv[j as int].id);
                    assert(contains_id(pre, spec_norm(rec.id@))) by {
                        assert(pre[j as int].id == spec_norm(rec.id@));
                    }
                }
                let _ = st.upsert(rec, UpsertMode::UpdateOnly, WriteGuard::Always);
                proof {
                    let key = spec_norm(origv[j as int].id);
                    let newv = RecordV {
                        id: key,
                        title: origv[j as int].title,
                        status: Status::Missing,
                    };
                    let i: int = choose|i: int|
                        0 <= i < pre.len() && pre[i].id == key && st@ == pre.update(i, newv);
                    lemma_unique_index(pre, i, j as int);
                    assert(st@ == pre.update(j as int, newv));
                    assert(mark_missing(origv, snapv)[j as int] == newv);
                }
            } else {
                proof {
                    assert(mark_missing(origv, snapv)[j as int] == origv[j as int]);
                }
            }
            j = j + 1;
        }
        proof {
            assert(st@ =~= mark_missing(origv, snapv));
        }
        // upsert every snapshot entry as Downloaded, preserving Cleaned
        let ghost mid = st@;
        let m = movies.len();
        let mut k: usize = 0;
        while k < m
            invariant
                st.wf(),
                m == movies@.len(),
                snapv == entry_views(movies@),
                wf_snapshot(snapv),
                k <= m,
                st@ == apply_snapshot(mid, snapv.subrange(0, k as int)),
            decreases m - k,
        {
            proof {
                assert(entry_views(movies@)[k as int] == movies@[k as int]@);
            }
            let e = Record {
                id: movies[k].id.clone(),
                title: movies[k].title.clone(),
                status: Status::Downloaded,
            };
            let ghost pre = st@;
            proof {
                assert(spec_norm(e.id@) == e.id@);
                assert(e.id@.len() > 0);
            }
            let _ = st.upsert(e, UpsertMode::Upsert, WriteGuard::PreserveCleaned);
            proof {
                let ev = snapv[k as int];
                let newv = RecordV { id: ev.id, title: ev.title, status: Status::Downloaded };
                if contains_id(pre, ev.id) {
                    if spec_get(pre, ev.id).status == Status::Cleaned {
                        assert(st@ == pre);
                        assert(upsert_downloaded(pre, ev) == pre);
                    } else {
                        let i: int = choose|i: int|
                            0 <= i < pre.len() && pre[i].id == ev.id && st@ == pre.update(i, newv);
                        let i2: int = choose|i: int| 0 <= i < pre.len() && pre[i].id == ev.id;
                        lemma_unique_index(pre, i, i2);
                        assert(upsert_downloaded(pre, ev) == pre.update(i2, newv));
                        assert(st@ == upsert_downloaded(pre, ev));
                    }
                } else {
                    assert(upsert_downloaded(pre, ev) == pre.push(newv));
                }
                assert(snapv.subrange(0, k + 1).drop_last() =~= snapv.subrange(0, k as int));
                assert(snapv.subrange(0, k + 1).last() == snapv[k as int]);
                assert(apply_snapshot(mid, snapv.subrange(0, k + 1)) == upsert_downloaded(
                    apply_snapshot(mid, snapv.subrange(0, k as int)),
                    snapv[k as int],
                ));
            }
            k = k + 1;
        }
        proof {
            assert(snapv.subrange(0, m as int) =~= snapv);
        }
        MediaManager { config, movies, store: st, test, validate }
    }

    /// Coarse title-similarity measure: true when the two titles' counts
    /// of non-alphanumeric characters are more than three apart.  A
    /// diagnostic over titles; the cleanup transition itself is decided by
    /// title equality (see `clean_downloaded_plan`).
    pub fn is_dirty(plex_title: &str, tmdb_title: &str) -> (r: bool)
        ensures
            r == spec_is_dirty(plex_title@, tmdb_title@),
    {
        let a = count_special(plex_title);
        let b = count_special(tmdb_title);
        let diff = if a >= b {
            a - b
        } else {
            b - a
        };
        diff > 3
    }

    /// The guarded checks of an acquisition that precede the torrent
    /// search, failing in order with a distinct skip reason: no unambiguous
    /// resolved title, then an id that is already tracked.
    pub fn acquire_plan(&self, id: &str, resolved: Option<String>) -> (r: AcquireGate)
        requires
            self.wf(),
        ensures
            resolved is None ==> r == (AcquireGate::Skip { reason: SkipReason::TitleNotFound }),
            resolved is Some && contains_id(self.store@, spec_norm(id@)) ==> r == (AcquireGate::Skip {
                reason: SkipReason::AlreadyExists,
            }),
            resolved is Some && !contains_id(self.store@, spec_norm(id@)) ==> r == (AcquireGate::Proceed {
                title: resolved->0,
            }),
    {
        match resolved {
            None => AcquireGate::Skip { reason: SkipReason::TitleNotFound },
            Some(title) => {
                if self.store.contains(id) {
                    AcquireGate::Skip { reason: SkipReason::AlreadyExists }
                } else {
                    AcquireGate::Proceed { title }
                }
            },
        }
    }

    /// Conclude an acquisition once the search results are in: when a
    /// candidate survives the selector, the id is recorded as Downloading
    /// under the resolved title and the winner's download reference is
    /// handed back for submission; otherwise the acquisition is skipped as
    /// Magnet-Not-Found and the store is untouched.
    pub fn acquire_with_candidates(
        &mut self,
        id: &str,
        title: String,
        results: &Vec<Candidate>,
    ) -> (r: AcquireOutcome)
        requires
            old(self).wf(),
            old(self).config.has_tier(),
            !contains_id(old(self).store@, spec_norm(id@)),
            id@.len() > 0,
        ensures
            final(self).wf(),
            final(self).config == old(self).config,
            final(self).movies == old(self).movies,
            final(self).test == old(self).test,
            final(self).validate == old(self).validate,
            ({
                let surv = spec_filter_magnets(&old(self).config, cand_views(results@));
                if surv.len() == 0 {
                    r == (AcquireOutcome::Skipped { reason: SkipReason::MagnetNotFound })
                        && final(self).store@ == old(self).store@
                } else {
                    let win = surv[spec_best_index(old(self).config.ideal_file_size, surv)];
                    (r matches AcquireOutcome::Submitted { download } && download@ == win.download)
                        && final(self).store@ == old(self).store@.push(
                        RecordV { id: spec_norm(id@), title: title@, status: Status::Downloading },
                    )
                }
            }),
    {
        match select_magnet(&self.config, results) {
            None => AcquireOutcome::Skipped { reason: SkipReason::MagnetNotFound },
            Some(c) => {
                let rec = Record { id: id.to_owned(), title, status: Status::Downloading };
                let _ = self.store.upsert(rec, UpsertMode::Upsert, WriteGuard::Always);
                AcquireOutcome::Submitted { download: c.download }
            },
        }
    }

    /// Evict every Missing record and hand back their ids, in store order,
    /// for fresh acquisition attempts.
    pub fn evict_missing(&mut self) -> (r: Vec<String>)
        requires
            old(self).wf(),
        ensures
            final(self).wf(),
            final(self).config == old(self).config,
            final(self).movies == old(self).movies,
            final(self).test == old(self).test,
            final(self).validate == old(self).validate,
            final(self).store@ == drop_missing(old(self).store@),
            r@.map_values(|s: String| s@) == missing_ids(old(self).store@),
    {
        let ghost origv = old(self).store@;
        let orig = self.store.all();
        let n = orig.len();
        let mut out: Vec<String> = Vec::new();
        let mut j: usize = 0;
        while j < n
            invariant
                self.store.wf(),
                self.config == old(self).config,
                self.movies == old(self).movies,
                self.test == old(self).test,
                self.validate == old(self).validate,
                wf_snapshot(entry_views(self.movies@)),
                n == orig@.len(),
                orig@.map_values(|r: Record| r@) == origv,
                wf_store(origv),
                j <= n,
                self.store@ =~= drop_missing(origv.subrange(0, j as int)) + origv.subrange(
                    j as int,
                    origv.len() as int,
                ),
                out@.map_values(|s: String| s@) =~= missing_ids(origv.subrange(0, j as int)),
            decreases n - j,
        {
            proof {
                assert(orig@.map_values(|r: Record| r@)[j as int] == origv[j as int]);
                assert(wf_record(origv[j as int]));
                assert(origv.subrange(0, j + 1).drop_last() =~= origv.subrange(0, j as int));
                assert(origv.subrange(0, j + 1).last() == origv[j as int]);
            }
            let is_missing = matches!(orig[j].status, Status::Missing);
            if is_missing {
                let ghost pre = self.store@;
                let ghost dmp = drop_missing(origv.subrange(0, j as int));
                proof {
                    crate::text::lemma_norm_idempotent(origv[j as int].id);
                    assert(pre[dmp.len() as int] == origv[j as int]);
                }
                let _ = self.store.remove(orig[j].id.as_str());
                proof {
                    let key = spec_norm(origv[j as int].id);
                    assert(key == origv[j as int].id);
                    assert(contains_id(pre, key)) by {
                        assert(pre[dmp.len() as int].id == key);
                    }
                    let i: int = choose|i: int|
                        0 <= i < pre.len() && pre[i].id == key && self.store@ == pre.remove(i);
                    lemma_unique_index(pre, i, dmp.len() as int);
                    assert(self.store@ == pre.remove(dmp.len() as int));
                    assert(self.store@ =~= dmp + origv.subrange(j + 1, origv.len() as int));
                    assert(drop_missing(origv.subrange(0, j + 1)) == dmp);
                }
                out.push(orig[j].id.clone());
                proof {
                    assert(out@.map_values(|s: String| s@) =~= missing_ids(
                        origv.subrange(0, j + 1),
                    ));
                }
            } else {
                proof {
                    assert(drop_missing(origv.subrange(0, j + 1)) == drop_missing(
                        origv.subrange(0, j as int),
                    ).push(origv[j as int]));
                    assert(self.store@ =~= drop_missing(origv.subrange(0, j + 1))
                        + origv.subrange(j + 1, origv.len() as int));
                    assert(missing_ids(origv.subrange(0, j + 1)) == missing_ids(
                        origv.subrange(0, j as int),
                    ));
                }
            }
            j = j + 1;
        }
        proof {
            assert(origv.subrange(0, n as int) =~= origv);
            assert(origv.subrange(n as int, origv.len() as int) =~= Seq::<RecordV>::empty());
            assert(self.store@ =~= drop_missing(origv));
        }
        out
    }

    /// The records currently Downloaded, in store order: the cleanup pass
    /// visits exactly these.
    pub fn downloaded_records(&self) -> (r: Vec<Record>)
        ensures
            r@.map_values(|rec: Record| rec@) == keep_downloaded(self.store@),
    {
        let all = self.store.all();
        let n = all.len();
        let mut out: Vec<Record> = Vec::new();
        let mut j: usize = 0;
        while j < n
            invariant
                n == all@.len(),
                all@.map_values(|rec: Record| rec@) == self.store@,
                j <= n,
                out@.map_values(|rec: Record| rec@) =~= keep_downloaded(
                    self.store@.subrange(0, j as int),
                ),
            decreases n - j,
        {
            proof {
                assert(all@.map_values(|rec: Record| rec@)[j as int] == self.store@[j as int]);
                assert(self.store@.subrange(0, j + 1).drop_last() =~= self.store@.subrange(
                    0,
                    j as int,
                ));
                assert(self.store@.subrange(0, j + 1).last() == self.store@[j as int]);
            }
            if matches!(all[j].status, Status::Downloaded) {
                out.push(all[j].duplicate());
            }
            j = j + 1;
        }
        proof {
            assert(self.store@.subrange(0, n as int) =~= self.store@);
        }
        out
    }

    /// What the cleanup pass must do for one Downloaded record, given the
    /// re-resolved canonical title: nothing without an unambiguous title;
    /// mark Cleaned directly when the canonical title equals the stored
    /// one; when it differs in any way, ask for a catalog correction to the
    /// canonical title (Cleaned is then reached only if the catalog
    /// accepts).
    pub fn clean_downloaded_plan(stored_title: &str, resolved: Option<String>) -> (r: CleanAction)
        ensures
            resolved is None ==> r == CleanAction::LeaveAlone,
            resolved is Some && resolved->0@ == stored_title@ ==> r == CleanAction::MarkCleaned,
            resolved is Some && resolved->0@ != stored_title@ ==> r == (CleanAction::CorrectTitle {
                new_title: resolved->0,
            }),
    {
        match resolved {
            None => CleanAction::LeaveAlone,
            Some(title) => {
                if crate::text::str_eq(stored_title, title.as_str()) {
                    CleanAction::MarkCleaned
                } else {
                    CleanAction::CorrectTitle { new_title: title }
                }
            },
        }
    }

    /// The catalog's own key for an id, as needed to request a title
    /// correction: the key of the first snapshot entry carrying the
    /// normalized id, or nothing when the catalog does not report the id.
    pub fn catalog_key_for(&self, id: &str) -> (r: Option<&String>)
        ensures
            match r {
                Some(k) => exists|i: int|
                    0 <= i < entry_views(self.movies@).len() && (#[trigger] entry_views(
                        self.movies@,
                    )[i]).id == spec_norm(id@) && k@ == entry_views(self.movies@)[i].catalog_key
                        && (forall|j: int|
                        0 <= j < i ==> (#[trigger] entry_views(self.movies@)[j]).id != spec_norm(
                            id@,
                        )),
                None => !snap_contains(entry_views(self.movies@), spec_norm(id@)),
            },
    {
        let key = crate::text::normalize_id(id);
        let n = self.movies.len();
        let mut i: usize = 0;
        while i < n
            invariant
                n == self.movies@.len(),
                i <= n,
                key@ == spec_norm(id@),
                forall|j: int| 0 <= j < i ==> (#[trigger] entry_views(self.movies@)[j]).id != key@,
            decreases n - i,
        {
            proof {
                assert(entry_views(self.movies@)[i as int] == self.movies@[i as int]@);
            }
            if self.movies[i].id == key {
                return Some(&self.movies[i].catalog_key);
            }
            i = i + 1;
        }
        None
    }

    /// Record that a title finished cleanup: its stored title is replaced
    /// by the canonical one and its status becomes Cleaned.  Only a
    /// Downloaded record takes this step; any other id is left alone, so
    /// the status paths stay the defined ones.
    pub fn finish_cleaned(&mut self, id: &str, title: String)
        requires
            old(self).wf(),
            id@.len() > 0,
        ensures
            final(self).wf(),
            final(self).config == old(self).config,
            final(self).movies == old(self).movies,
            final(self).test == old(self).test,
            final(self).validate == old(self).validate,
            !(contains_id(old(self).store@, spec_norm(id@)) && spec_get(
                old(self).store@,
                spec_norm(id@),
            ).status == Status::Downloaded) ==> final(self).store@ == old(self).store@,
            contains_id(old(self).store@, spec_norm(id@)) && spec_get(
                old(self).store@,
                spec_norm(id@),
            ).status == Status::Downloaded ==> exists|i: int|
                0 <= i < old(self).store@.len() && old(self).store@[i].id == spec_norm(id@)
                    && final(self).store@ == old(self).store@.update(
                    i,
                    RecordV { id: spec_norm(id@), title: title@, status: Status::Cleaned },
                ),
    {
        let downloaded = match self.store.get(id) {
            Some(existing) => matches!(existing.status, Status::Downloaded),
            None => false,
        };
        if downloaded {
            let rec = Record { id: id.to_owned(), title, status: Status::Cleaned };
            let _ = self.store.upsert(rec, UpsertMode::UpdateOnly, WriteGuard::Always);
        }
    }
}

/// Idempotent acquisition: a successful acquisition adds the id exactly
/// once, so the store stays well-formed (no duplicate record) and the id is
/// tracked; by the contract of `acquire_plan`, acquiring it again with no
/// external state change is then refused as Already-Exists.
pub proof fn lemma_acquire_idempotent(s: Seq<RecordV>, id: Seq<char>, title: Seq<char>)
    requires
        wf_store(s),
        !contains_id(s, spec_norm(id)),
        id.len() > 0,
    ensures
        contains_id(
            s.push(RecordV { id: spec_norm(id), title, status: Status::Downloading }),
            spec_norm(id),
        ),
        wf_store(s.push(RecordV { id: spec_norm(id), title, status: Status::Downloading })),
{
    let newv = RecordV { id: spec_norm(id), title, status: Status::Downloading };
    let t = s.push(newv);
    assert(t[s.len() as int] == newv);
    crate::text::lemma_norm_idempotent(id);
    assert(spec_norm(id).len() == id.len());
    assert forall|a: int, b: int| 0 <= a < b < t.len() implies t[a].id != t[b].id by {
        if b < s.len() {
            assert(s[a].id != s[b].id);
        } else {
            assert(t[a] == s[a]);
            if s[a].id == spec_norm(id) {
                assert(contains_id(s, spec_norm(id)));
            }
        }
    }
    assert forall|i: int| 0 <= i < t.len() implies wf_record(#[trigger] t[i]) by {
        if i < s.len() {
            assert(wf_record(s[i]));
        }
    }
}

/// Membership in the eviction split: the kept records are exactly the
/// non-Missing ones, and every queued id belongs to a Missing record.
proof fn lemma_missing_split(s: Seq<RecordV>)
    ensures
        forall|id: Seq<char>|
            #[trigger] contains_id(drop_missing(s), id) <==> exists|i: int|
                0 <= i < s.len() && (#[trigger] s[i]).id == id && s[i].status != Status::Missing,
        forall|k: int|
            0 <= k < missing_ids(s).len() ==> exists|i: int|
                0 <= i < s.len() && (#[trigger] s[i]).id == (#[trigger] missing_ids(s)[k])
                    && s[i].status == Status::Missing,
    decreases s.len(),
{
    if s.len() > 0 {
        let dl = s.drop_last();
        lemma_missing_split(dl);
        assert forall|id: Seq<char>| #[trigger] contains_id(drop_missing(s), id) implies exists|
            i: int,
        |
            0 <= i < s.len() && (#[trigger] s[i]).id == id && s[i].status != Status::Missing by {
            if s.last().status == Status::Missing {
                assert(drop_missing(s) == drop_missing(dl));
                let i: int = choose|i: int|
                    0 <= i < dl.len() && (#[trigger] dl[i]).id == id && dl[i].status
                        != Status::Missing;
                assert(s[i].id == id && s[i].status != Status::Missing);
            } else {
                let dm = drop_missing(dl);
                let k: int = choose|k: int|
                    0 <= k < drop_missing(s).len() && drop_missing(s)[k].id == id;
                if k < dm.len() {
                    assert(contains_id(dm, id)) by {
                        assert(dm[k].id == id);
                    }
                    let i: int = choose|i: int|
                        0 <= i < dl.len() && (#[trigger] dl[i]).id == id && dl[i].status
                            != Status::Missing;
                    assert(s[i].id == id && s[i].status != Status::Missing);
                } else {
                    assert(drop_missing(s)[k] == s.last());
                    assert(s[s.len() - 1].id == id && s[s.len() - 1].status != Status::Missing);
                }
            }
        }
        assert forall|id: Seq<char>|
            (exists|i: int|
                0 <= i < s.len() && (#[trigger] s[i]).id == id && s[i].status
                    != Status::Missing) implies #[trigger] contains_id(drop_missing(s), id) by {
            let i: int = choose|i: int|
                0 <= i < s.len() && (#[trigger] s[i]).id == id && s[i].status != Status::Missing;
            if i < dl.len() {
                assert(dl[i].id == id && dl[i].status != Status::Missing);
                assert(contains_id(drop_missing(dl), id));
                let k: int = choose|k: int|
                    0 <= k < drop_missing(dl).len() && drop_missing(dl)[k].id == id;
                if s.last().status == Status::Missing {
                    assert(drop_missing(s)[k].id == id);
                } else {
                    assert(drop_missing(s)[k].id == id);
                }
            } else {
                assert(s.last().status != Status::Missing);
                assert(drop_missing(s).last().id == id);
            }
        }
        assert forall|k: int| 0 <= k < missing_ids(s).len() implies exists|i: int|
            0 <= i < s.len() && (#[trigger] s[i]).id == (#[trigger] missing_ids(s)[k])
                && s[i].status == Status::Missing by {
            if s.last().status == Status::Missing && k == missing_ids(s).len() - 1 {
                assert(missing_ids(s)[k] == s.last().id);
                assert(s[s.len() - 1].id == missing_ids(s)[k] && s[s.len() - 1].status
                    == Status::Missing);
            } else {
                assert(missing_ids(s)[k] == missing_ids(dl)[k]);
                let i: int = choose|i: int|
                    0 <= i < dl.len() && (#[trigger] dl[i]).id == missing_ids(dl)[k]
                        && dl[i].status == Status::Missing;
                assert(s[i].id == missing_ids(s)[k] && s[i].status == Status::Missing);
            }
        }
    }
}

/// Missing-reclaim: after eviction none of the queued ids is still in the
/// store, and no id is queued twice, so a re-acquisition can never
/// duplicate a record.
pub proof fn lemma_missing_reclaim(s: Seq<RecordV>)
    requires
        unique_ids(s),
    ensures
        forall|k: int|
            0 <= k < missing_ids(s).len() ==> !contains_id(
                drop_missing(s),
                #[trigger] missing_ids(s)[k],
            ),
        forall|k: int, l: int|
            0 <= k < l < missing_ids(s).len() ==> missing_ids(s)[k] != missing_ids(s)[l],
    decreases s.len(),
{
    lemma_missing_split(s);
    assert forall|k: int| 0 <= k < missing_ids(s).len() implies !contains_id(
        drop_missing(s),
        #[trigger] missing_ids(s)[k],
    ) by {
        let id = missing_ids(s)[k];
        if contains_id(drop_missing(s), id) {
            let i: int = choose|i: int|
                0 <= i < s.len() && (#[trigger] s[i]).id == id && s[i].status != Status::Missing;
            let i2: int = choose|i: int|
                0 <= i < s.len() && (#[trigger] s[i]).id == id && s[i].status == Status::Missing;
            lemma_unique_index(s, i, i2);
        }
    }
    if s.len() > 0 {
        let dl = s.drop_last();
        lemma_missing_reclaim(dl);
        lemma_missing_split(dl);
        assert forall|k: int, l: int|
            0 <= k < l < missing_ids(s).len() implies missing_ids(s)[k] != missing_ids(
            s,
        )[l] by {
            if s.last().status == Status::Missing && l == missing_ids(s).len() - 1 {
                assert(missing_ids(s)[l] == s.last().id);
                assert(missing_ids(s)[k] == missing_ids(dl)[k]);
                if missing_ids(dl)[k] == s.last().id {
                    let i: int = choose|i: int|
                        0 <= i < dl.len() && (#[trigger] dl[i]).id == missing_ids(dl)[k]
                            && dl[i].status == Status::Missing;
                    assert(s[i].id == s[s.len() - 1].id);
                    lemma_unique_index(s, i, s.len() - 1);
                }
            } else {
                assert(missing_ids(s)[k] == missing_ids(dl)[k]);
                assert(missing_ids(s)[l] == missing_ids(dl)[l]);
            }
        }
    }
}

} // verus!
