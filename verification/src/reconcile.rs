//! The reconciliation model: how a store's contents are aligned with a
//! catalog snapshot.  First every stored id absent from the snapshot is
//! marked Missing; then every snapshot entry is upserted as Downloaded,
//! never overwriting an existing Cleaned record.  The functions here are
//! the mathematical model; `engine` implements them over the store.

use vstd::prelude::*;
use crate::catalog::CatalogEntryV;
use crate::record::{RecordV, Status, status_transition_allowed};
use crate::store::{contains_id, spec_get, unique_ids};
use crate::text::is_normalized;

verus! {

/// Every snapshot entry carries a non-empty, normalized id.
pub open spec fn wf_snapshot(s: Seq<CatalogEntryV>) -> bool {
    forall|i: int|
        0 <= i < s.len() ==> (#[trigger] s[i]).id.len() > 0 && is_normalized(s[i].id)
}

/// Some snapshot entry carries this id.
pub open spec fn snap_contains(s: Seq<CatalogEntryV>, id: Seq<char>) -> bool {
    exists|i: int| 0 <= i < s.len() && s[i].id == id
}

/// The last snapshot entry carrying this id (snapshot writes are
/// last-write-wins).
pub open spec fn snap_last(s: Seq<CatalogEntryV>, id: Seq<char>) -> CatalogEntryV
    recommends
        snap_contains(s, id),
    decreases s.len(),
{
    if s.len() == 0 {
        arbitrary()
    } else if s.last().id == id {
        s.last()
    } else {
        snap_last(s.drop_last(), id)
    }
}

/// Every stored id absent from the snapshot marked Missing, in place; all
/// other records kept as they are.
pub open spec fn mark_missing(s: Seq<RecordV>, snap: Seq<CatalogEntryV>) -> Seq<RecordV> {
    Seq::new(
        s.len(),
        |j: int|
            if snap_contains(snap, s[j].id) {
                s[j]
            } else {
                RecordV { id: s[j].id, title: s[j].title, status: Status::Missing }
            },
    )
}

/// One snapshot entry upserted as Downloaded: an absent id is appended, a
/// present non-Cleaned record is overwritten in place, a Cleaned record is
/// left untouched.
pub open spec fn upsert_downloaded(s: Seq<RecordV>, e: CatalogEntryV) -> Seq<RecordV> {
    if contains_id(s, e.id) {
        let i = choose|i: int| 0 <= i < s.len() && s[i].id == e.id;
        if s[i].status == Status::Cleaned {
            s
        } else {
            s.update(i, RecordV { id: e.id, title: e.title, status: Status::Downloaded })
        }
    } else {
        s.push(RecordV { id: e.id, title: e.title, status: Status::Downloaded })
    }
}

/// All snapshot entries upserted as Downloaded, in snapshot order.
pub open spec fn apply_snapshot(s: Seq<RecordV>, snap: Seq<CatalogEntryV>) -> Seq<RecordV>
    decreases snap.len(),
{
    if snap.len() == 0 {
        s
    } else {
        upsert_downloaded(apply_snapshot(s, snap.drop_last()), snap.last())
    }
}

/// The whole reconciliation: mark absentees Missing, then ingest the
/// snapshot.
pub open spec fn spec_reconcile(s: Seq<RecordV>, snap: Seq<CatalogEntryV>) -> Seq<RecordV> {
    apply_snapshot(mark_missing(s, snap), snap)
}

/// Marking absentees preserves ids in place; each record either stays or
/// only changes status to Missing.
pub proof fn lemma_mark_missing_props(s: Seq<RecordV>, snap: Seq<CatalogEntryV>)
    requires
        unique_ids(s),
    ensures
        mark_missing(s, snap).len() == s.len(),
        forall|j: int| 0 <= j < s.len() ==> (#[trigger] mark_missing(s, snap)[j]).id == s[j].id,
        unique_ids(mark_missing(s, snap)),
        forall|id: Seq<char>|
            contains_id(mark_missing(s, snap), id) == #[trigger] contains_id(s, id),
        forall|id: Seq<char>|
            #[trigger] contains_id(s, id) && snap_contains(snap, id) ==> spec_get(
                mark_missing(s, snap),
                id,
            ) == spec_get(s, id),
        forall|id: Seq<char>|
            #[trigger] contains_id(s, id) && !snap_contains(snap, id) ==> spec_get(
                mark_missing(s, snap),
                id,
            ) == (RecordV {
                id: spec_get(s, id).id,
                title: spec_get(s, id).title,
                status: Status::Missing,
            }),
{
    let m = mark_missing(s, snap);
    assert forall|id: Seq<char>| contains_id(m, id) == #[trigger] contains_id(s, id) by {
        if contains_id(s, id) {
            let i = choose|i: int| 0 <= i < s.len() && s[i].id == id;
            assert(m[i].id == id);
        }
        if contains_id(m, id) {
            let i = choose|i: int| 0 <= i < m.len() && m[i].id == id;
            assert(s[i].id == id);
        }
    }
    assert forall|id: Seq<char>| #[trigger] contains_id(s, id) implies ({
        &&& snap_contains(snap, id) ==> spec_get(m, id) == spec_get(s, id)
        &&& !snap_contains(snap, id) ==> spec_get(m, id) == (RecordV {
            id: spec_get(s, id).id,
            title: spec_get(s, id).title,
            status: Status::Missing,
        })
    }) by {
        let i = choose|i: int| 0 <= i < s.len() && s[i].id == id;
        crate::store::lemma_get_at(s, i);
        assert(m[i].id == id);
        crate::store::lemma_get_at(m, i);
    }
}

/// Pointwise effect of one snapshot upsert.
pub proof fn lemma_upsert_downloaded_props(s: Seq<RecordV>, e: CatalogEntryV)
    requires
        unique_ids(s),
    ensures
        unique_ids(upsert_downloaded(s, e)),
        forall|id: Seq<char>|
            #[trigger] contains_id(upsert_downloaded(s, e), id) <==> (contains_id(s, id) || id
                == e.id),
        forall|id: Seq<char>|
            id != e.id && #[trigger] contains_id(s, id) ==> spec_get(upsert_downloaded(s, e), id)
                == spec_get(s, id),
        contains_id(s, e.id) && spec_get(s, e.id).status == Status::Cleaned ==> upsert_downloaded(
            s,
            e,
        ) == s,
        !(contains_id(s, e.id) && spec_get(s, e.id).status == Status::Cleaned) ==> spec_get(
            upsert_downloaded(s, e),
            e.id,
        ) == (RecordV { id: e.id, title: e.title, status: Status::Downloaded }),
{
    let u = upsert_downloaded(s, e);
    let newv = RecordV { id: e.id, title: e.title, status: Status::Downloaded };
    if contains_id(s, e.id) {
        let i = choose|i: int| 0 <= i < s.len() && s[i].id == e.id;
        crate::store::lemma_get_at(s, i);
        if s[i].status == Status::Cleaned {
            assert forall|id: Seq<char>| #[trigger]
                contains_id(u, id) <==> (contains_id(s, id) || id == e.id) by {
                if id == e.id {
                    assert(contains_id(s, e.id));
                }
            }
        } else {
            let t = s.update(i, newv);
            assert(t[i] == newv);
            assert forall|a: int, b: int| 0 <= a < b < t.len() implies t[a].id != t[b].id by {
                assert(s[a].id != s[b].id);
                assert(t[a] == if a == i {
                    newv
                } else {
                    s[a]
                });
                assert(t[b] == if b == i {
                    newv
                } else {
                    s[b]
                });
            }
            assert forall|id: Seq<char>| #[trigger] contains_id(t, id) implies (contains_id(s, id)
                || id == e.id) by {
                let k = choose|k: int| 0 <= k < t.len() && t[k].id == id;
                if k != i {
                    assert(s[k].id == id);
                }
            }
            assert forall|id: Seq<char>|
                contains_id(s, id) || id == e.id implies #[trigger] contains_id(t, id) by {
                if id == e.id {
                    assert(t[i].id == e.id);
                } else {
                    let k = choose|k: int| 0 <= k < s.len() && s[k].id == id;
                    assert(k != i);
                    assert(t[k].id == id);
                }
            }
            assert forall|id: Seq<char>|
                id != e.id && #[trigger] contains_id(s, id) implies spec_get(t, id) == spec_get(
                s,
                id,
            ) by {
                let k = choose|k: int| 0 <= k < s.len() && s[k].id == id;
                crate::store::lemma_get_at(s, k);
                assert(k != i);
                assert(t[k] == s[k]);
                crate::store::lemma_get_at(t, k);
            }
            assert(contains_id(t, e.id)) by {
                assert(t[i].id == e.id);
            }
            crate::store::lemma_get_at(t, i);
        }
    } else {
        let t = s.push(newv);
        assert(t[s.len() as int] == newv);
        assert forall|a: int, b: int| 0 <= a < b < t.len() implies t[a].id != t[b].id by {
            if b < s.len() {
                assert(s[a].id != s[b].id);
            } else {
                assert(t[b] == newv);
                assert(t[a] == s[a]);
                assert(!contains_id(s, e.id));
                if s[a].id == e.id {
                    assert(contains_id(s, e.id));
                }
            }
        }
        assert forall|id: Seq<char>| #[trigger] contains_id(t, id) implies (contains_id(s, id)
            || id == e.id) by {
            let k = choose|k: int| 0 <= k < t.len() && t[k].id == id;
            if k < s.len() {
                assert(s[k].id == id);
            }
        }
        assert forall|id: Seq<char>|
            contains_id(s, id) || id == e.id implies #[trigger] contains_id(t, id) by {
            if id == e.id {
                assert(t[s.len() as int].id == e.id);
            } else {
                let k = choose|k: int| 0 <= k < s.len() && s[k].id == id;
                assert(t[k].id == id);
            }
        }
        assert forall|id: Seq<char>|
            id != e.id && #[trigger] contains_id(s, id) implies spec_get(t, id) == spec_get(
            s,
            id,
        ) by {
            let k = choose|k: int| 0 <= k < s.len() && s[k].id == id;
            crate::store::lemma_get_at(s, k);
            assert(t[k] == s[k]);
            crate::store::lemma_get_at(t, k);
        }
        crate::store::lemma_get_at(t, s.len() as int);
    }
}

/// Pointwise effect of ingesting a whole snapshot.
pub proof fn lemma_apply_snapshot_props(s: Seq<RecordV>, snap: Seq<CatalogEntryV>)
    requires
        unique_ids(s),
    ensures
        unique_ids(apply_snapshot(s, snap)),
        forall|id: Seq<char>|
            #[trigger] contains_id(apply_snapshot(s, snap), id) <==> (contains_id(s, id)
                || snap_contains(snap, id)),
        forall|id: Seq<char>|
            !snap_contains(snap, id) && #[trigger] contains_id(s, id) ==> spec_get(
                apply_snapshot(s, snap),
                id,
            ) == spec_get(s, id),
        forall|id: Seq<char>|
            #[trigger] snap_contains(snap, id) && contains_id(s, id) && spec_get(s, id).status
                == Status::Cleaned ==> spec_get(apply_snapshot(s, snap), id) == spec_get(s, id),
        forall|id: Seq<char>|
            #[trigger] snap_contains(snap, id) && !(contains_id(s, id) && spec_get(s, id).status
                == Status::Cleaned) ==> spec_get(apply_snapshot(s, snap), id) == (RecordV {
                id: id,
                title: snap_last(snap, id).title,
                status: Status::Downloaded,
            }),
    decreases snap.len(),
{
    if snap.len() == 0 {
    } else {
        let dl = snap.drop_last();
        let e = snap.last();
        let a = apply_snapshot(s, dl);
        lemma_apply_snapshot_props(s, dl);
        lemma_upsert_downloaded_props(a, e);
        let u = upsert_downloaded(a, e);
        assert(u == apply_snapshot(s, snap));
        // membership of the snapshot extends its prefix by the last entry
        assert forall|id: Seq<char>| #[trigger]
            snap_contains(snap, id) implies (snap_contains(dl, id) || id == e.id) by {
            let k = choose|k: int| 0 <= k < snap.len() && snap[k].id == id;
            if k < dl.len() {
                assert(dl[k].id == id);
            }
        }
        assert forall|id: Seq<char>|
            snap_contains(dl, id) || id == e.id implies #[trigger] snap_contains(snap, id) by {
            if snap_contains(dl, id) {
                let k = choose|k: int| 0 <= k < dl.len() && dl[k].id == id;
                assert(snap[k].id == id);
            } else {
                assert(snap.last().id == id);
            }
        }
        // membership of the result
        assert forall|id: Seq<char>| #[trigger]
            contains_id(u, id) <==> (contains_id(s, id) || snap_contains(snap, id)) by {
            assert(contains_id(u, id) <==> (contains_id(a, id) || id == e.id));
            assert(contains_id(a, id) <==> (contains_id(s, id) || snap_contains(dl, id)));
        }
        // ids outside the snapshot pass through untouched
        assert forall|id: Seq<char>|
            !snap_contains(snap, id) && #[trigger] contains_id(s, id) implies spec_get(u, id)
                == spec_get(s, id) by {
            assert(!snap_contains(dl, id));
            assert(id != e.id);
            assert(spec_get(a, id) == spec_get(s, id));
            assert(contains_id(a, id));
        }
        // Cleaned records are never overwritten
        assert forall|id: Seq<char>| #[trigger]
            snap_contains(snap, id) && contains_id(s, id) && spec_get(s, id).status
                == Status::Cleaned implies spec_get(u, id) == spec_get(s, id) by {
            if snap_contains(dl, id) {
                assert(spec_get(a, id) == spec_get(s, id));
            } else {
                assert(spec_get(a, id) == spec_get(s, id));
            }
            assert(contains_id(a, id));
            if id == e.id {
                assert(spec_get(a, e.id).status == Status::Cleaned);
                assert(u == a);
            } else {
                assert(spec_get(u, id) == spec_get(a, id));
            }
        }
        // every other snapshot id ends as the last snapshot entry, Downloaded
        assert forall|id: Seq<char>| #[trigger]
            snap_contains(snap, id) && !(contains_id(s, id) && spec_get(s, id).status
                == Status::Cleaned) implies spec_get(u, id) == (RecordV {
            id: id,
            title: snap_last(snap, id).title,
            status: Status::Downloaded,
        }) by {
            if id == e.id {
                assert(snap_last(snap, id) == e);
                if contains_id(a, id) && spec_get(a, id).status == Status::Cleaned {
                    // the record ingested so far cannot be Cleaned: it came
                    // from s non-Cleaned or from the snapshot as Downloaded
                    if snap_contains(dl, id) {
                        assert(spec_get(a, id) == (RecordV {
                            id: id,
                            title: snap_last(dl, id).title,
                            status: Status::Downloaded,
                        }));
                        assert(false);
                    } else {
                        assert(contains_id(a, id) <==> (contains_id(s, id) || snap_contains(
                            dl,
                            id,
                        )));
                        assert(contains_id(s, id));
                        assert(spec_get(a, id) == spec_get(s, id));
                        assert(false);
                    }
                }
                assert(spec_get(u, e.id) == (RecordV {
                    id: e.id,
                    title: e.title,
                    status: Status::Downloaded,
                }));
            } else {
                assert(snap_contains(dl, id));
                assert(snap_last(snap, id) == snap_last(dl, id));
                assert(spec_get(a, id) == (RecordV {
                    id: id,
                    title: snap_last(dl, id).title,
                    status: Status::Downloaded,
                }));
                assert(contains_id(a, id));
                assert(spec_get(u, id) == spec_get(a, id));
            }
        }
    }
}

/// The reconciled store relates to the old store and the snapshot pointwise:
/// membership is the union; absentees are the old record marked Missing;
/// Cleaned records are untouched; every other snapshot id holds the last
/// snapshot title with status Downloaded.
pub proof fn lemma_reconcile_props(s: Seq<RecordV>, snap: Seq<CatalogEntryV>)
    requires
        unique_ids(s),
    ensures
        unique_ids(spec_reconcile(s, snap)),
        forall|id: Seq<char>|
            #[trigger] contains_id(spec_reconcile(s, snap), id) <==> (contains_id(s, id)
                || snap_contains(snap, id)),
        forall|id: Seq<char>|
            #[trigger] contains_id(s, id) && !snap_contains(snap, id) ==> spec_get(
                spec_reconcile(s, snap),
                id,
            ) == (RecordV {
                id: spec_get(s, id).id,
                title: spec_get(s, id).title,
                status: Status::Missing,
            }),
        forall|id: Seq<char>|
            #[trigger] snap_contains(snap, id) && contains_id(s, id) && spec_get(s, id).status
                == Status::Cleaned ==> spec_get(spec_reconcile(s, snap), id) == spec_get(s, id),
        forall|id: Seq<char>|
            #[trigger] snap_contains(snap, id) && !(contains_id(s, id) && spec_get(s, id).status
                == Status::Cleaned) ==> spec_get(spec_reconcile(s, snap), id) == (RecordV {
                id: id,
                title: snap_last(snap, id).title,
                status: Status::Downloaded,
            }),
{
    let m = mark_missing(s, snap);
    lemma_mark_missing_props(s, snap);
    lemma_apply_snapshot_props(m, snap);
}

/// Reconciliation only moves records along allowed status transitions.
pub proof fn lemma_reconcile_transitions(s: Seq<RecordV>, snap: Seq<CatalogEntryV>)
    requires
        unique_ids(s),
    ensures
        forall|id: Seq<char>|
            #[trigger] contains_id(s, id) && contains_id(spec_reconcile(s, snap), id)
                ==> status_transition_allowed(
                spec_get(s, id).status,
                spec_get(spec_reconcile(s, snap), id).status,
            ),
{
    lemma_reconcile_props(s, snap);
}

} // verus!
