//! The record store: a durable keyed set of title records.  Keys are
//! normalized identifiers, unique by invariant; insertion order carries no
//! meaning.  Writes go through `upsert` with an explicit mode and guard;
//! persistence itself is a separate, explicit step (see `codec`).

use vstd::prelude::*;
use crate::record::{Record, RecordV, wf_record};
use crate::text::{normalize_id, spec_norm};

verus! {

/// Write mode of `upsert`: `Upsert` always writes, `InsertOnly` no-ops when
/// the id already exists, `UpdateOnly` no-ops when it is absent.
#[derive(Clone, Copy, PartialEq, Eq, Structural, Debug)]
pub enum UpsertMode {
    Upsert,
    InsertOnly,
    UpdateOnly,
}

/// Guard gating a write to an existing record: `Always` lets it through,
/// `PreserveCleaned` refuses to overwrite a record whose status is
/// `Cleaned`.
#[derive(Clone, Copy, PartialEq, Eq, Structural, Debug)]
pub enum WriteGuard {
    Always,
    PreserveCleaned,
}

/// Some record of `s` carries this id.
pub open spec fn contains_id(s: Seq<RecordV>, id: Seq<char>) -> bool {
    exists|i: int| 0 <= i < s.len() && s[i].id == id
}

/// The record of `s` carrying this id (meaningful when ids are unique and
/// the id is present).
pub open spec fn spec_get(s: Seq<RecordV>, id: Seq<char>) -> RecordV
    recommends
        contains_id(s, id),
{
    s[choose|i: int| 0 <= i < s.len() && s[i].id == id]
}

/// No two records of `s` share an id.
pub open spec fn unique_ids(s: Seq<RecordV>) -> bool {
    forall|i: int, j: int| 0 <= i < j < s.len() ==> s[i].id != s[j].id
}

/// Well-formed store contents: unique keys, every record well-formed.
pub open spec fn wf_store(s: Seq<RecordV>) -> bool {
    unique_ids(s) && forall|i: int| 0 <= i < s.len() ==> wf_record(#[trigger] s[i])
}

/// With unique ids, any record carrying the looked-up id is the result of
/// `spec_get`.
pub proof fn lemma_get_at(s: Seq<RecordV>, i: int)
    requires
        unique_ids(s),
        0 <= i < s.len(),
    ensures
        contains_id(s, s[i].id),
        spec_get(s, s[i].id) == s[i],
{
    let id = s[i].id;
    let j = choose|j: int| 0 <= j < s.len() && s[j].id == id;
    if i != j {
        if i < j {
            assert(s[i].id != s[j].id);
        } else {
            assert(s[j].id != s[i].id);
        }
    }
}

/// Normalization law: two spellings of an id that normalize alike resolve
/// to the identical record, since every lookup and write goes through the
/// normalized key alone.
pub proof fn lemma_normalized_lookup(s: Seq<RecordV>, a: Seq<char>, b: Seq<char>)
    requires
        spec_norm(a) == spec_norm(b),
    ensures
        contains_id(s, spec_norm(a)) == contains_id(s, spec_norm(b)),
        spec_get(s, spec_norm(a)) == spec_get(s, spec_norm(b)),
{
}

/// Two positions carrying the same id coincide when ids are unique.
pub proof fn lemma_unique_index(s: Seq<RecordV>, i: int, j: int)
    requires
        unique_ids(s),
        0 <= i < s.len(),
        0 <= j < s.len(),
        s[i].id == s[j].id,
    ensures
        i == j,
{
    if i < j {
        assert(s[i].id != s[j].id);
    } else if j < i {
        assert(s[j].id != s[i].id);
    }
}

/// Durable keyed set of title records.
#[derive(Debug)]
pub struct RecordStore {
    records: Vec<Record>,
}

impl View for RecordStore {
    type V = Seq<RecordV>;

    closed spec fn view(&self) -> Seq<RecordV> {
        self.records@.map_values(|r: Record| r@)
    }
}

impl RecordStore {
    /// The store's invariant: well-formed contents.
    pub open spec fn wf(&self) -> bool {
        wf_store(self@)
    }

    /// An empty store.
    pub fn new() -> (s: Self)
        ensures
            s@ =~= Seq::<RecordV>::empty(),
            s.wf(),
    {
        RecordStore { records: Vec::new() }
    }

    /// Build a store directly from a record list with unique, well-formed
    /// ids (used when reloading a persisted document).
    pub fn from_records(records: Vec<Record>) -> (s: Self)
        requires
            wf_store(records@.map_values(|r: Record| r@)),
        ensures
            s@ == records@.map_values(|r: Record| r@),
            s.wf(),
    {
        RecordStore { records }
    }

    /// How many records the store holds.
    pub fn len(&self) -> (n: usize)
        ensures
            n == self@.len(),
    {
        self.records.len()
    }

    /// All records, in the store's internal order.
    pub fn all(&self) -> (r: Vec<Record>)
        ensures
            r@.map_values(|rec: Record| rec@) == self@,
    {
        let mut out: Vec<Record> = Vec::new();
        let n = self.records.len();
        let mut i: usize = 0;
        while i < n
            invariant
                n == self.records@.len(),
                i <= n,
                out@.len() == i,
                forall|j: int| 0 <= j < i ==> out@[j]@ == self@[j],
            decreases n - i,
        {
            out.push(self.records[i].duplicate());
            i = i + 1;
        }
        proof {
            assert(out@.map_values(|rec: Record| rec@) =~= self@);
        }
        out
    }

    /// Index of the record carrying this (already normalized) id, if any.
    fn find_index(&self, id: &String) -> (r: Option<usize>)
        ensures
            match r {
                Some(i) => i < self@.len() && self@[i as int].id == id@,
                None => !contains_id(self@, id@),
            },
    {
        let n = self.records.len();
        let mut i: usize = 0;
        while i < n
            invariant
                n == self.records@.len(),
                i <= n,
                forall|j: int| 0 <= j < i ==> self@[j].id != id@,
            decreases n - i,
        {
            if self.records[i].id == *id {
                return Some(i);
            }
            i = i + 1;
        }
        None
    }

    /// Look up a record.  The id is normalized before the lookup; the result
    /// is exactly the store's record under that key, or `None` when the key
    /// is absent.
    pub fn get(&self, id: &str) -> (r: Option<&Record>)
        requires
            self.wf(),
        ensures
            match r {
                Some(rec) => contains_id(self@, spec_norm(id@)) && rec@ == spec_get(
                    self@,
                    spec_norm(id@),
                ),
                None => !contains_id(self@, spec_norm(id@)),
            },
    {
        let key = normalize_id(id);
        match self.find_index(&key) {
            Some(i) => {
                proof {
                    lemma_get_at(self@, i as int);
                }
                Some(&self.records[i])
            },
            None => None,
        }
    }

    /// Whether the store holds a record under this id (normalized first).
    pub fn contains(&self, id: &str) -> (r: bool)
        requires
            self.wf(),
        ensures
            r == contains_id(self@, spec_norm(id@)),
    {
        self.get(id).is_some()
    }

    /// Write a record.  Its id is normalized first; the write is gated by
    /// the mode (insert/update/either) and the guard (an existing `Cleaned`
    /// record can be protected).  Last write wins.  Returns whether the
    /// store changed.
    pub fn upsert(&mut self, rec: Record, mode: UpsertMode, guard: WriteGuard) -> (wrote: bool)
        requires
            old(self).wf(),
            rec.id@.len() > 0,
        ensures
            final(self).wf(),
            ({
                let key = spec_norm(rec.id@);
                let newv = RecordV { id: key, title: rec.title@, status: rec.status };
                if contains_id(old(self)@, key) {
                    if mode == UpsertMode::InsertOnly || (guard == WriteGuard::PreserveCleaned
                        && spec_get(old(self)@, key).status == crate::record::Status::Cleaned) {
                        final(self)@ == old(self)@ && !wrote
                    } else {
                        wrote && exists|i: int|
                            0 <= i < old(self)@.len() && old(self)@[i].id == key && final(self)@
                                == old(self)@.update(i, newv)
                    }
                } else {
                    if mode == UpsertMode::UpdateOnly {
                        final(self)@ == old(self)@ && !wrote
                    } else {
                        final(self)@ == old(self)@.push(newv) && wrote
                    }
                }
            }),
    {
        let key = normalize_id(rec.id.as_str());
        proof {
            crate::text::lemma_norm_idempotent(rec.id@);
        }
        let newrec = Record { id: key, title: rec.title, status: rec.status };
        let ghost newv = newrec@;
        match self.find_index(&newrec.id) {
            Some(i) => {
                proof {
                    lemma_get_at(self@, i as int);
                    let k = choose|k: int|
                        0 <= k < self@.len() && self@[k].id == spec_norm(rec.id@);
                    if k != i {
                        if k < i {
                            assert(self@[k].id != self@[i as int].id);
                        } else {
                            assert(self@[i as int].id != self@[k].id);
                        }
                    }
                }
                let skip = match mode {
                    UpsertMode::InsertOnly => true,
                    _ => match guard {
                        WriteGuard::PreserveCleaned => matches!(
                            self.records[i].status,
                            crate::record::Status::Cleaned
                        ),
                        WriteGuard::Always => false,
                    },
                };
                if skip {
                    false
                } else {
                    self.records.set(i, newrec);
                    proof {
                        assert(final(self)@ =~= old(self)@.update(i as int, newv));
                        assert forall|a: int, b: int|
                            0 <= a < b < final(self)@.len() implies final(self)@[a].id
                            != final(self)@[b].id by {
                            assert(old(self)@[a].id != old(self)@[b].id);
                        }
                    }
                    true
                }
            },
            None => {
                match mode {
                    UpsertMode::UpdateOnly => false,
                    _ => {
                        self.records.push(newrec);
                        proof {
                            assert(final(self)@ =~= old(self)@.push(newv));
                            assert forall|a: int, b: int|
                                0 <= a < b < final(self)@.len() implies final(self)@[a].id
                                != final(self)@[b].id by {
                                if b < old(self)@.len() {
                                    assert(old(self)@[a].id != old(self)@[b].id);
                                } else {
                                    assert(final(self)@[b].id == newv.id);
                                }
                            }
                        }
                        true
                    },
                }
            },
        }
    }

    /// Remove the record under this id (normalized first).  Returns whether
    /// a record was removed; every other record is kept.
    pub fn remove(&mut self, id: &str) -> (removed: bool)
        requires
            old(self).wf(),
        ensures
            final(self).wf(),
            removed == contains_id(old(self)@, spec_norm(id@)),
            !contains_id(final(self)@, spec_norm(id@)),
            removed ==> exists|i: int|
                0 <= i < old(self)@.len() && old(self)@[i].id == spec_norm(id@) && final(self)@
                    == old(self)@.remove(i),
            !removed ==> final(self)@ == old(self)@,
    {
        let key = normalize_id(id);
        match self.find_index(&key) {
            Some(i) => {
                self.records.remove(i);
                proof {
                    assert(final(self)@ =~= old(self)@.remove(i as int));
                    let s = old(self)@;
                    let t = final(self)@;
                    assert forall|a: int, b: int| 0 <= a < b < t.len() implies t[a].id
                        != t[b].id by {
                        let a0 = if a < i as int {
                            a
                        } else {
                            a + 1
                        };
                        let b0 = if b < i as int {
                            b
                        } else {
                            b + 1
                        };
                        assert(t[a] == s[a0] && t[b] == s[b0]);
                        assert(s[a0].id != s[b0].id);
                    }
                    assert forall|j: int| 0 <= j < t.len() implies t[j].id != spec_norm(
                        id@,
                    ) by {
                        let j0 = if j < i as int {
                            j
                        } else {
                            j + 1
                        };
                        assert(t[j] == s[j0]);
                        if j0 < i as int {
                            assert(s[j0].id != s[i as int].id);
                        } else if j0 > i as int {
                            assert(s[i as int].id != s[j0].id);
                        }
                    }
                }
                true
            },
            None => false,
        }
    }
}

} // verus!
