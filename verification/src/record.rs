//! The title record: identifier, display title, and lifecycle status, with
//! the allowed status transitions.

use vstd::prelude::*;
use crate::text::is_normalized;

verus! {

/// Lifecycle status of a tracked title.
///
/// `Downloading` is the initial status, set on first successful acquisition.
/// A title reported present by the catalog becomes `Downloaded`; once its
/// canonical title has been confirmed or corrected it becomes `Cleaned`,
/// which is terminal.  A title that disappears from the catalog becomes
/// `Missing`, is evicted, and is re-acquired from scratch.
#[derive(Clone, Copy, PartialEq, Eq, Structural, Debug)]
pub enum Status {
    Missing,
    Downloading,
    Downloaded,
    Cleaned,
}

/// The status paths a record may take, besides staying put:
/// `Downloading -> Downloaded` when the catalog reports the title present,
/// `Downloaded -> Cleaned` after its canonical title is settled,
/// any status `-> Missing` when the title is absent from the snapshot, and
/// `Missing -> Downloaded` when a title marked missing reappears in the
/// snapshot before its eviction.
pub open spec fn status_transition_allowed(from: Status, to: Status) -> bool {
    ||| from == to
    ||| to == Status::Missing
    ||| (from == Status::Downloading && to == Status::Downloaded)
    ||| (from == Status::Downloaded && to == Status::Cleaned)
    ||| (from == Status::Missing && to == Status::Downloaded)
}

/// `Cleaned` is terminal: no allowed transition leaves it except the Missing
/// path, which evicts the record rather than regressing it.
pub proof fn lemma_cleaned_terminal(to: Status)
    ensures
        status_transition_allowed(Status::Cleaned, to) ==> (to == Status::Cleaned || to
            == Status::Missing),
{
}

/// One tracked title.
#[derive(Debug)]
pub struct Record {
    /// Canonical external identifier, normalized to lowercase.
    pub id: String,
    /// Display title.
    pub title: String,
    /// Current lifecycle status.
    pub status: Status,
}

/// Mathematical value of a record: both strings as character sequences.
pub ghost struct RecordV {
    pub id: Seq<char>,
    pub title: Seq<char>,
    pub status: Status,
}

impl View for Record {
    type V = RecordV;

    open spec fn view(&self) -> RecordV {
        RecordV { id: self.id@, title: self.title@, status: self.status }
    }
}

/// A well-formed record carries a non-empty, normalized identifier.
pub open spec fn wf_record(r: RecordV) -> bool {
    r.id.len() > 0 && is_normalized(r.id)
}

impl Record {
    /// Build a record from its parts.
    pub fn make(id: String, title: String, status: Status) -> (r: Record)
        ensures
            r@ == (RecordV { id: id@, title: title@, status }),
    {
        Record { id, title, status }
    }

    /// An exact copy of the record.
    pub fn duplicate(&self) -> (r: Record)
        ensures
            r@ == self@,
    {
        Record { id: self.id.clone(), title: self.title.clone(), status: self.status }
    }
}

/// Printable name of a status, as it appears in the durable document.
pub open spec fn spec_status_label(s: Status) -> Seq<char> {
    match s {
        Status::Missing => "Missing"@,
        Status::Downloading => "Downloading"@,
        Status::Downloaded => "Downloaded"@,
        Status::Cleaned => "Cleaned"@,
    }
}

/// The four status labels are pairwise distinct.
pub proof fn lemma_status_labels_distinct(a: Status, b: Status)
    ensures
        spec_status_label(a) == spec_status_label(b) ==> a == b,
{
    reveal_strlit("Missing");
    reveal_strlit("Downloading");
    reveal_strlit("Downloaded");
    reveal_strlit("Cleaned");
    if a != b && spec_status_label(a) == spec_status_label(b) {
        assert(spec_status_label(Status::Missing).len() == 7);
        assert(spec_status_label(Status::Downloading).len() == 11);
        assert(spec_status_label(Status::Downloaded).len() == 10);
        assert(spec_status_label(Status::Cleaned).len() == 7);
        assert(spec_status_label(Status::Missing)[0] == 'M');
        assert(spec_status_label(Status::Cleaned)[0] == 'C');
    }
}

/// Executable status label.
pub fn status_label(s: Status) -> (r: &'static str)
    ensures
        r@ == spec_status_label(s),
{
    match s {
        Status::Missing => "Missing",
        Status::Downloading => "Downloading",
        Status::Downloaded => "Downloaded",
        Status::Cleaned => "Cleaned",
    }
}

} // verus!
