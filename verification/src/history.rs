//! The transfer history: the most recent transfers, newest first, at most
//! 200 of them.
use vstd::prelude::*;
use crate::paths::{joined, join_path};
use crate::share::{opt_view, clone_opt};
use crate::text::str_equal;

verus! {

/// How many records the history keeps.
pub const MAX_RECORDS: usize = 200;

/// A finished (or failed) transfer.
#[derive(Debug)]
pub struct TransferRecord {
    pub id: String,
    pub file_name: String,
    pub file_size: u64,
    /// `send` or `receive`.
    pub direction: String,
    pub status: String,
    pub error: Option<String>,
    /// Seconds since the Unix epoch.
    pub timestamp: u64,
    pub elapsed_secs: u64,
    pub save_path: Option<String>,
    pub transfer_method: Option<String>,
}

/// A record with its text as character sequences.
pub struct RecordView {
    pub id: Seq<char>,
    pub file_name: Seq<char>,
    pub file_size: u64,
    pub direction: Seq<char>,
    pub status: Seq<char>,
    pub error: Option<Seq<char>>,
    pub timestamp: u64,
    pub elapsed_secs: u64,
    pub save_path: Option<Seq<char>>,
    pub transfer_method: Option<Seq<char>>,
}

impl View for TransferRecord {
    type V = RecordView;

    open spec fn view(&self) -> RecordView {
        RecordView {
            id: self.id@,
            file_name: self.file_name@,
            file_size: self.file_size,
            direction: self.direction@,
            status: self.status@,
            error: opt_view(self.error),
            timestamp: self.timestamp,
            elapsed_secs: self.elapsed_secs,
            save_path: opt_view(self.save_path),
            transfer_method: opt_view(self.transfer_method),
        }
    }
}

impl Clone for TransferRecord {
    fn clone(&self) -> (r: Self)
        ensures
            r == *self,
    {
        TransferRecord {
            id: self.id.clone(),
            file_name: self.file_name.clone(),
            file_size: self.file_size,
            direction: self.direction.clone(),
            status: self.status.clone(),
            error: clone_opt(&self.error),
            timestamp: self.timestamp,
            elapsed_secs: self.elapsed_secs,
            save_path: clone_opt(&self.save_path),
            transfer_method: clone_opt(&self.transfer_method),
        }
    }
}

/// The record of a transfer that completed.
pub fn completed_record(
    id: String,
    file_name: String,
    file_size: u64,
    direction: &str,
    timestamp: u64,
    elapsed_secs: u64,
    save_path: Option<String>,
    transfer_method: Option<String>,
) -> (r: TransferRecord)
    ensures
        r.id == id,
        r.file_name == file_name,
        r.file_size == file_size,
        r.direction@ == direction@,
        r.status@ == "completed"@,
        r.error is None,
        r.timestamp == timestamp,
        r.elapsed_secs == elapsed_secs,
        r.save_path == save_path,
        r.transfer_method == transfer_method,
{
    TransferRecord {
        id,
        file_name,
        file_size,
        direction: direction.to_string(),
        status: "completed".to_string(),
        error: None,
        timestamp,
        elapsed_secs,
        save_path,
        transfer_method,
    }
}

/// The history after `record` is added: it goes first, and only the 200
/// newest are kept.
pub open spec fn with_record(records: Seq<TransferRecord>, record: TransferRecord) -> Seq<TransferRecord> {
    let s = seq![record] + records;
    if s.len() > MAX_RECORDS {
        s.take(MAX_RECORDS as int)
    } else {
        s
    }
}

/// Where the history is kept: `<data_dir>/transfer_history.json`.
pub struct HistoryStore {
    path: String,
}

impl HistoryStore {
    pub closed spec fn path_view(&self) -> Seq<char> {
        self.path@
    }

    pub fn new(data_dir: &str) -> (s: HistoryStore)
        ensures
            s.path_view() == joined(data_dir@, "transfer_history.json"@),
    {
        HistoryStore { path: join_path(data_dir, "transfer_history.json") }
    }

    pub fn path(&self) -> (p: &str)
        ensures
            p@ == self.path_view(),
    {
        self.path.as_str()
    }

    /// Adds a record to a loaded history.
    pub fn add_record(records: &mut Vec<TransferRecord>, record: TransferRecord)
        ensures
            final(records)@ == with_record(old(records)@, record),
    {
        records.insert(0, record);
        records.truncate(MAX_RECORDS);
        assert(records@ =~= with_record(old(records)@, record));
    }
}

/// The history without the records whose id is among `ids`, the others in
/// their order.
pub open spec fn without_ids(records: Seq<TransferRecord>, ids: Seq<Seq<char>>) -> Seq<TransferRecord> {
    records.filter(|r: TransferRecord| !ids.contains(r.id@))
}

/// The ids of `ids` as character sequences.
pub open spec fn id_views(ids: Seq<String>) -> Seq<Seq<char>> {
    ids.map_values(|s: String| s@)
}

fn id_listed(ids: &[String], id: &str) -> (r: bool)
    ensures
        r == id_views(ids@).contains(id@),
{
    let mut i: usize = 0;
    while i < ids.len()
        invariant
            i <= ids@.len(),
            forall|k: int| 0 <= k < i ==> #[trigger] ids@[k]@ != id@,
        decreases ids@.len() - i,
    {
        if str_equal(ids[i].as_str(), id) {
            assert(id_views(ids@)[i as int] == id@);
            return true;
        }
        i = i + 1;
    }
    assert forall|k: int| 0 <= k < id_views(ids@).len() implies id_views(ids@)[k] != id@ by {
        assert(id_views(ids@)[k] == ids@[k]@);
    }
    false
}

impl HistoryStore {
    /// Removes from a loaded history the records whose id is among `ids`.
    pub fn delete_records(records: &mut Vec<TransferRecord>, ids: &[String])
        ensures
            final(records)@ == without_ids(old(records)@, id_views(ids@)),
    {
        let ghost src = records@;
        let ghost keep = |r: TransferRecord| !id_views(ids@).contains(r.id@);
        let mut kept: Vec<TransferRecord> = Vec::new();
        let mut i: usize = 0;
        while i < records.len()
            invariant
                i <= records@.len(),
                src == records@,
                keep == (|r: TransferRecord| !id_views(ids@).contains(r.id@)),
                kept@ == src.take(i as int).filter(keep),
            decreases records@.len() - i,
        {
            proof {
                assert(src.take(i + 1) =~= src.take(i as int).push(src[i as int]));
                src.take(i as int).lemma_filter_push(src[i as int], keep);
            }
            if !id_listed(ids, records[i].id.as_str()) {
                kept.push(records[i].clone());
            }
            i = i + 1;
        }
        assert(src.take(src.len() as int) =~= src);
        *records = kept;
    }

    /// Removes from a loaded history the record with id `id`.
    pub fn delete_record(records: &mut Vec<TransferRecord>, id: &str)
        ensures
            final(records)@ == without_ids(old(records)@, seq![id@]),
    {
        let ids: Vec<String> = vec![id.to_owned()];
        assert(id_views(ids@) =~= seq![id@]);
        HistoryStore::delete_records(records, ids.as_slice());
    }
}

/// However many records are added, the history never holds more than 200,
/// and the one added last comes first.
pub proof fn law_history_bounded(records: Seq<TransferRecord>, record: TransferRecord)
    ensures
        with_record(records, record).len() <= MAX_RECORDS,
        with_record(records, record)[0] == record,
        forall|i: int|
            0 < i < with_record(records, record).len() ==> with_record(records, record)[i] == records[i
                - 1],
{
}

} // verus!
