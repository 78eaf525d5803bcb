//! The list of finished transfers shown in the history view, newest first.

use vstd::prelude::*;

verus! {

#[derive(Debug, Clone)]
pub struct HistoryRecord {
    pub id: String,
    pub transfer_id: String,
    pub file_name: String,
    pub file_size: u64,
    pub direction: String,
    pub target_device_id: String,
    pub target_device_name: String,
    pub status: String,
    pub timestamp: String,
    pub duration_seconds: u64,
}

/// Finished transfers, newest first. Persisting the list is the caller's
/// part: after each change the application writes `records` out.
pub struct HistoryManager {
    pub records: Vec<HistoryRecord>,
}

impl HistoryManager {
    /// A manager holding the records read back from storage.
    pub fn from_records(records: Vec<HistoryRecord>) -> (m: Self)
        ensures
            m.records@ == records@,
    {
        HistoryManager { records }
    }

    /// Puts `record` in front of all earlier ones.
    pub fn add_record(&mut self, record: HistoryRecord)
        ensures
            final(self).records@ == seq![record].add(old(self).records@),
    {
        self.records.insert(0, record);
        assert(self.records@ =~= seq![record].add(old(self).records@));
    }

    /// Forgets every record.
    pub fn clear(&mut self)
        ensures
            final(self).records@ == Seq::<HistoryRecord>::empty(),
    {
        self.records.clear();
    }
}

/// The newest record is the one added last, and everything before it stays in
/// order behind it.
pub proof fn lemma_add_record_newest_first(before: Seq<HistoryRecord>, record: HistoryRecord)
    ensures
        (seq![record] + before)[0] == record,
        (seq![record] + before).skip(1) == before,
        (seq![record] + before).len() == before.len() + 1,
{
    assert((seq![record] + before).skip(1) =~= before);
}

} // verus!
